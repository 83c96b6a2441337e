//! Schema registration for a graph-relational database: type definitions
//! grouped by module are checked for name conflicts and filed in one
//! ordered catalog.
#![allow(non_camel_case_types)]

pub mod batch;
pub mod cli;
pub mod entry;
pub mod error;
pub mod interner;
pub mod key;
pub mod laws;
pub mod module;
pub mod namespace;
pub mod ordered;
pub mod primitive;
pub mod text;
pub mod typedef;

pub use entry::FunkData;
pub use error::{Collision, FunkError};
pub use interner::{Interner, MetaMap};
pub use key::Key;
pub use module::{Module, ModuleBuilder};
pub use namespace::{Namespace, NamespaceBuilder};
pub use primitive::{funkstd, funkstdIter};
pub use typedef::{FunkLinkMap, FunkPropMap, FunkTy};
