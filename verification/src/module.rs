//! Modules: named groups of member definitions.
use vstd::prelude::*;
use crate::error::{Failure, FunkError};
use crate::key::Key;
use crate::typedef::FunkTy;

verus! {

/// The modifiers of a slot.
#[derive(Debug, Clone, Copy)]
pub struct AttributeMap {
    pub is_required: bool,
    pub is_multi: bool,
    pub is_link: bool,
}

/// One slot in the layout of a field: the identity it refers to and its
/// modifiers.
#[derive(Debug)]
pub struct MemberLayout {
    pub identity: String,
    pub attribute_map: AttributeMap,
}

/// A field of a member.
#[derive(Debug)]
pub struct MemberField {
    pub field_name: String,
    pub layout: Option<Vec<MemberLayout>>,
}

/// What a member declares: a field of its own, or a type named by its
/// qualified key in another module or among the built-in kinds.
#[derive(Debug)]
pub enum MemberData {
    LocalMember(MemberField),
    Nonlocal(Key),
    Std(Key),
}

/// A member of a module.
#[derive(Debug)]
pub struct Member {
    pub member_name: String,
    pub fields: Option<Vec<MemberData>>,
    pub attrs: Option<AttributeMap>,
}

/// A module: a name and the members declared under it.
#[derive(Debug)]
pub struct Module {
    module_name: String,
    module_member_entries: Vec<Member>,
}

impl Module {
    /// The name of the module as text.
    pub closed spec fn name_view(&self) -> Seq<char> {
        self.module_name@
    }

    /// The members of the module in the order of their declaration.
    pub closed spec fn member_list(&self) -> Seq<Member> {
        self.module_member_entries@
    }

    /// A module with the given name and members; with no members where none
    /// are given.
    pub fn new(module_name: String, entries: Option<Vec<Member>>) -> (module: Module)
        ensures
            module.name_view() == module_name@,
            module.member_list() == match entries {
                Some(members) => members@,
                None => Seq::<Member>::empty(),
            },
    {
        let module_member_entries = match entries {
            Some(members) => members,
            None => Vec::new(),
        };
        Module { module_name, module_member_entries }
    }

    /// A builder of modules.
    pub fn builder() -> (builder: ModuleBuilder)
        ensures
            builder.chosen_name() is None,
            builder.chosen_members() is None,
    {
        ModuleBuilder::new()
    }

    /// The name of the module.
    pub fn get_name(&self) -> (name: &str)
        ensures
            name@ == self.name_view(),
    {
        self.module_name.as_str()
    }

    /// The members of the module.
    pub fn members(&self) -> (members: &Vec<Member>)
        ensures
            members@ == self.member_list(),
    {
        &self.module_member_entries
    }

    /// Adds a type definition to the module. Not finished: every call is
    /// refused and leaves the module as it is.
    pub fn add_type(&mut self, _type: FunkTy) -> (r: Result<(), FunkError>)
        ensures
            r is Err,
            r->Err_0@ == Failure::NotImplemented,
            *final(self) == *old(self),
    {
        Err(FunkError::NotImplemented)
    }
}

/// Collects the parts of a module before it is built.
#[derive(Debug)]
pub struct ModuleBuilder {
    module_name: Option<String>,
    module_member_entries: Option<Vec<Member>>,
}

impl ModuleBuilder {
    /// The name chosen so far.
    pub closed spec fn chosen_name(&self) -> Option<Seq<char>> {
        match self.module_name {
            Some(name) => Some(name@),
            None => None,
        }
    }

    /// The members chosen so far.
    pub closed spec fn chosen_members(&self) -> Option<Seq<Member>> {
        match self.module_member_entries {
            Some(members) => Some(members@),
            None => None,
        }
    }

    /// A builder with nothing chosen.
    pub fn new() -> (builder: ModuleBuilder)
        ensures
            builder.chosen_name() is None,
            builder.chosen_members() is None,
    {
        ModuleBuilder { module_name: None, module_member_entries: None }
    }

    /// Chooses the name, in place of any name chosen before.
    pub fn module_name(self, new_name: &str) -> (builder: ModuleBuilder)
        ensures
            builder.chosen_name() == Some(new_name@),
            builder.chosen_members() == self.chosen_members(),
    {
        ModuleBuilder {
            module_name: Some(new_name.to_owned()),
            module_member_entries: self.module_member_entries,
        }
    }

    /// Chooses the members, in place of any members chosen before.
    pub fn member_entries(self, members: Vec<Member>) -> (builder: ModuleBuilder)
        ensures
            builder.chosen_name() == self.chosen_name(),
            builder.chosen_members() == Some(members@),
    {
        ModuleBuilder { module_name: self.module_name, module_member_entries: Some(members) }
    }

    /// The module with the chosen parts; it is named `default` where no name
    /// was chosen and has no members where none were chosen.
    pub fn build(self) -> (module: Module)
        ensures
            module.name_view() == match self.chosen_name() {
                Some(name) => name,
                None => "default"@,
            },
            module.member_list() == match self.chosen_members() {
                Some(members) => members,
                None => Seq::<Member>::empty(),
            },
    {
        let module_name = match self.module_name {
            Some(name) => name,
            None => "default".to_owned(),
        };
        Module::new(module_name, self.module_member_entries)
    }
}

} // verus!
