//! Runtime core of a hot-reloadable, ahead-of-time compiled scripting
//! language.  A host application loads compiled artifacts as assemblies,
//! binds their call sites through a shared dispatch table, and can swap an
//! assembly for a newer compilation while live objects are migrated to the
//! new type layouts.

use vstd::prelude::*;

pub mod guid;
pub mod hir;
pub mod abi;
pub mod error;
pub mod dispatch;
pub mod assembly;
pub mod gc;
pub mod diff;
pub mod mapping;
pub mod symbols;
pub mod identity;
pub mod type_table;
pub mod runtime;

verus! {

/// Visibility of an item exported by a module.
#[derive(Clone, Copy, Debug, Eq, PartialEq, Structural)]
pub enum Privacy {
    Public,
    Private,
}

} // verus!
