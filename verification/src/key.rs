//! Qualified keys: the three-level names under which the catalog files its
//! entries.
use vstd::prelude::*;
use crate::ordered::{Rank, Sortable};
use crate::text::{
    lemma_text_irreflexive, lemma_text_total, lemma_text_transitive, text_precedes, text_rank,
};

verus! {

/// A qualified key as a mathematical value: module, identity within the
/// module, field within the identity, each of them present or not.
pub struct QualifiedKey {
    pub module: Option<Seq<char>>,
    pub identity: Option<Seq<char>>,
    pub field: Option<Seq<char>>,
}

impl QualifiedKey {
    /// The invariant of a key: a field stands under an identity, and an
    /// identity under a module.
    pub open spec fn well_shaped(self) -> bool {
        &&& self.field is Some ==> self.identity is Some
        &&& self.identity is Some ==> self.module is Some
    }

    /// The key of a module.
    pub open spec fn of_module(module: Seq<char>) -> QualifiedKey {
        QualifiedKey { module: Some(module), identity: None, field: None }
    }

    /// The key of a member of a module.
    pub open spec fn of_member(module: Seq<char>, identity: Seq<char>) -> QualifiedKey {
        QualifiedKey { module: Some(module), identity: Some(identity), field: None }
    }
}

/// The order on one level of a key: an absent part comes before any present
/// one, and present parts compare as text.
pub open spec fn part_precedes(a: Option<Seq<char>>, b: Option<Seq<char>>) -> bool {
    match (a, b) {
        (None, Some(_)) => true,
        (Some(x), Some(y)) => text_precedes(x, y),
        _ => false,
    }
}

/// The order on keys: by module, then by identity, then by field.
pub open spec fn key_precedes(a: QualifiedKey, b: QualifiedKey) -> bool {
    if a.module != b.module {
        part_precedes(a.module, b.module)
    } else if a.identity != b.identity {
        part_precedes(a.identity, b.identity)
    } else {
        part_precedes(a.field, b.field)
    }
}

/// The order on one level is irreflexive, transitive and total.
pub proof fn lemma_part_order(a: Option<Seq<char>>, b: Option<Seq<char>>, c: Option<Seq<char>>)
    ensures
        !part_precedes(a, a),
        part_precedes(a, b) && part_precedes(b, c) ==> part_precedes(a, c),
        a == b || part_precedes(a, b) || part_precedes(b, a),
{
    if let Some(x) = a {
        lemma_text_irreflexive(x);
        if let Some(y) = b {
            lemma_text_total(x, y);
            if let Some(z) = c {
                if text_precedes(x, y) && text_precedes(y, z) {
                    lemma_text_transitive(x, y, z);
                }
            }
        }
    }
}

/// The order on keys is irreflexive, transitive and total.
pub proof fn lemma_key_order(a: QualifiedKey, b: QualifiedKey, c: QualifiedKey)
    ensures
        !key_precedes(a, a),
        key_precedes(a, b) && key_precedes(b, c) ==> key_precedes(a, c),
        a == b || key_precedes(a, b) || key_precedes(b, a),
{
    lemma_part_order(a.module, b.module, c.module);
    lemma_part_order(a.identity, b.identity, c.identity);
    lemma_part_order(a.field, b.field, c.field);
    lemma_part_order(b.module, a.module, c.module);
    lemma_part_order(b.identity, a.identity, c.identity);
    lemma_part_order(b.module, c.module, a.module);
    lemma_part_order(b.identity, c.identity, a.identity);
}

/// What an optional text stands for.
pub open spec fn part_view(part: Option<String>) -> Option<Seq<char>> {
    match part {
        Some(text) => Some(text@),
        None => None,
    }
}

/// What an optional borrowed text stands for.
pub open spec fn name_view(part: Option<&str>) -> Option<Seq<char>> {
    match part {
        Some(text) => Some(text@),
        None => None,
    }
}

/// A qualified key.
#[derive(Debug)]
pub struct Key {
    pub module: Option<String>,
    pub identity: Option<String>,
    pub assignment: Option<String>,
}

impl View for Key {
    type V = QualifiedKey;

    open spec fn view(&self) -> QualifiedKey {
        QualifiedKey {
            module: part_view(self.module),
            identity: part_view(self.identity),
            field: part_view(self.assignment),
        }
    }
}

/// Compares one level of two keys.
pub fn rank_part(a: &Option<String>, b: &Option<String>) -> (r: Rank)
    ensures
        match r {
            Rank::Before => part_precedes(part_view(*a), part_view(*b)),
            Rank::Same => part_view(*a) == part_view(*b),
            Rank::After => part_precedes(part_view(*b), part_view(*a)),
        },
{
    match (a, b) {
        (None, None) => Rank::Same,
        (None, Some(_)) => Rank::Before,
        (Some(_), None) => Rank::After,
        (Some(x), Some(y)) => text_rank(x.as_str(), y.as_str()),
    }
}

/// Copies an optional borrowed text.
pub fn own_part(part: Option<&str>) -> (r: Option<String>)
    ensures
        part_view(r) == name_view(part),
{
    match part {
        Some(text) => Some(text.to_owned()),
        None => None,
    }
}

impl Key {
    /// The key with the given parts.
    pub fn from_parts(module: Option<&str>, identity: Option<&str>, field: Option<&str>) -> (key: Key)
        ensures
            key@ == (QualifiedKey {
                module: name_view(module),
                identity: name_view(identity),
                field: name_view(field),
            }),
    {
        Key { module: own_part(module), identity: own_part(identity), assignment: own_part(field) }
    }

    /// The key of the module `module`.
    pub fn of_module(module: &str) -> (key: Key)
        ensures
            key@ == QualifiedKey::of_module(module@),
    {
        Key { module: Some(module.to_owned()), identity: None, assignment: None }
    }

    /// The key of the member `identity` of the module `module`.
    pub fn of_member(module: &str, identity: &str) -> (key: Key)
        ensures
            key@ == QualifiedKey::of_member(module@, identity@),
    {
        Key { module: Some(module.to_owned()), identity: Some(identity.to_owned()), assignment: None }
    }
}

impl Clone for Key {
    /// A key with the same parts.
    fn clone(&self) -> (key: Key)
        ensures
            key@ == self@,
    {
        Key {
            module: self.module.clone(),
            identity: self.identity.clone(),
            assignment: self.assignment.clone(),
        }
    }
}

impl Default for Key {
    /// The key with no part present.
    fn default() -> (key: Key)
        ensures
            key@ == (QualifiedKey { module: None, identity: None, field: None }),
    {
        Key { module: None, identity: None, assignment: None }
    }
}

impl Sortable for Key {
    type Model = QualifiedKey;

    open spec fn model(&self) -> QualifiedKey {
        self@
    }

    open spec fn precedes(a: QualifiedKey, b: QualifiedKey) -> bool {
        key_precedes(a, b)
    }

    proof fn order_laws(a: QualifiedKey, b: QualifiedKey, c: QualifiedKey) {
        lemma_key_order(a, b, c);
    }

    fn rank(&self, other: &Self) -> (r: Rank) {
        proof {
            lemma_part_order(part_view(self.module), part_view(other.module), None);
            lemma_part_order(part_view(self.identity), part_view(other.identity), None);
        }
        match rank_part(&self.module, &other.module) {
            Rank::Same => match rank_part(&self.identity, &other.identity) {
                Rank::Same => rank_part(&self.assignment, &other.assignment),
                decided => decided,
            },
            decided => decided,
        }
    }
}

} // verus!
