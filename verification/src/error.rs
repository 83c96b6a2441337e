//! What the catalog reports when it refuses a request.
use vstd::prelude::*;

verus! {

/// A naming conflict as a mathematical value.
pub enum Conflict {
    /// The module name is already taken.
    Module(Seq<char>),
    /// The identity, second, is already taken within the module, first.
    Member(Seq<char>, Seq<char>),
}

/// A naming conflict.
#[derive(Debug)]
pub enum Collision {
    /// The module name is already taken.
    Module { module: String },
    /// The identity is already taken within the module.
    Member { module: String, identity: String },
}

impl View for Collision {
    type V = Conflict;

    open spec fn view(&self) -> Conflict {
        match self {
            Collision::Module { module } => Conflict::Module(module@),
            Collision::Member { module, identity } => Conflict::Member(module@, identity@),
        }
    }
}

impl Conflict {
    /// The conflict in words.
    pub open spec fn message(self) -> Seq<char> {
        match self {
            Conflict::Module(module) => "Module "@ + module + ": already defined!"@,
            Conflict::Member(module, identity) => "Schema level name `"@ + module + "::"@ + identity
                + "` was defined more than once."@,
        }
    }
}

impl Collision {
    /// The conflict of a module name.
    pub fn of_module(module: &str) -> (c: Collision)
        ensures
            c@ == Conflict::Module(module@),
    {
        Collision::Module { module: module.to_owned() }
    }

    /// The conflict of an identity within a module.
    pub fn of_member(module: &str, identity: &str) -> (c: Collision)
        ensures
            c@ == Conflict::Member(module@, identity@),
    {
        Collision::Member { module: module.to_owned(), identity: identity.to_owned() }
    }

    /// The conflict in words.
    pub fn message(&self) -> (text: String)
        ensures
            text@ == self@.message(),
    {
        match self {
            Collision::Module { module } => {
                let mut text = "Module ".to_owned();
                text.append(module.as_str());
                text.append(": already defined!");
                text
            },
            Collision::Member { module, identity } => {
                let mut text = "Schema level name `".to_owned();
                text.append(module.as_str());
                text.append("::");
                text.append(identity.as_str());
                text.append("` was defined more than once.");
                text
            },
        }
    }

    /// Whether the conflict is about the name of a module.
    pub fn is_module_level(&self) -> (r: bool)
        ensures
            r == (self@ is Module),
    {
        match self {
            Collision::Module { .. } => true,
            Collision::Member { .. } => false,
        }
    }
}

/// A refusal as a mathematical value.
pub enum Failure {
    Collision(Conflict),
    UsageError,
    NotImplemented,
}

/// Why a request was refused.
#[derive(Debug)]
pub enum FunkError {
    /// A name is already taken.
    Collision(Collision),
    /// A name query did not have one of the three shapes: module; module and
    /// identity; module, identity and field.
    UsageError,
    /// The operation is not finished yet.
    NotImplemented,
}

impl View for FunkError {
    type V = Failure;

    open spec fn view(&self) -> Failure {
        match self {
            FunkError::Collision(c) => Failure::Collision(c@),
            FunkError::UsageError => Failure::UsageError,
            FunkError::NotImplemented => Failure::NotImplemented,
        }
    }
}

impl Failure {
    /// The refusal in words.
    pub open spec fn message(self) -> Seq<char> {
        match self {
            Failure::Collision(c) => c.message(),
            Failure::UsageError => "Verify the arguments passed to is_name_available"@,
            Failure::NotImplemented => "Not implemented"@,
        }
    }
}

impl FunkError {
    /// The refusal in words.
    pub fn message(&self) -> (text: String)
        ensures
            text@ == self@.message(),
    {
        match self {
            FunkError::Collision(c) => c.message(),
            FunkError::UsageError => "Verify the arguments passed to is_name_available".to_owned(),
            FunkError::NotImplemented => "Not implemented".to_owned(),
        }
    }
}

} // verus!
