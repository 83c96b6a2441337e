//! Catalog entries: what the catalog files under a key.
use vstd::prelude::*;
use crate::primitive::funkstd;
use crate::typedef::{FunkTy, TypeDef};

verus! {

/// A catalog entry as a mathematical value.
pub enum Entry {
    /// One of the built-in scalar kinds.
    Primitive(funkstd),
    /// A custom type definition.
    Custom(TypeDef),
    /// A name that is reserved and holds no definition.
    Placeholder,
}

impl Entry {
    /// The name by which the entry is known within its module, if it has one.
    pub open spec fn name(self) -> Option<Seq<char>> {
        match self {
            Entry::Primitive(kind) => Some(kind.name()),
            Entry::Custom(definition) => definition.name,
            Entry::Placeholder => Some("{unknown}"@),
        }
    }
}

/// A catalog entry.
#[derive(Debug)]
pub enum FunkData {
    /// One of the built-in scalar kinds.
    primitive(funkstd),
    /// A custom type definition.
    custom(FunkTy),
    /// A name that is reserved and holds no definition.
    nil,
}

impl View for FunkData {
    type V = Entry;

    open spec fn view(&self) -> Entry {
        match self {
            FunkData::primitive(kind) => Entry::Primitive(*kind),
            FunkData::custom(definition) => Entry::Custom(definition@),
            FunkData::nil => Entry::Placeholder,
        }
    }
}

impl FunkData {
    /// The name by which the entry is known within its module. A placeholder
    /// has no name of its own and answers `{unknown}`.
    pub fn get_name(&self) -> (r: Option<&str>)
        requires
            self@.name() is Some,
        ensures
            r is Some,
            r->0@ == self@.name()->0,
    {
        match self {
            FunkData::primitive(kind) => kind.get_name(),
            FunkData::custom(definition) => definition.get_name(),
            FunkData::nil => Some("{unknown}"),
        }
    }

    /// Whether the entry has a name; only a custom definition can lack one.
    pub fn is_named(&self) -> (r: bool)
        ensures
            r == (self@.name() is Some),
    {
        match self {
            FunkData::custom(definition) => definition.is_named(),
            _ => true,
        }
    }
}

impl Clone for FunkData {
    /// An entry that stands for the same value.
    fn clone(&self) -> (entry: FunkData)
        ensures
            entry@ == self@,
    {
        match self {
            FunkData::primitive(kind) => FunkData::primitive(*kind),
            FunkData::custom(definition) => FunkData::custom(definition.clone()),
            FunkData::nil => FunkData::nil,
        }
    }
}

} // verus!
