//! The errors the runtime core reports.
//!
//! Failures before a swap commits are recoverable: the old assembly stays
//! linked and the error is returned.  Failures after the object rewrite
//! has begun are fatal to the process; the core reports them and the host
//! aborts.

use vstd::prelude::*;
use crate::abi::FunctionSignature;

verus! {

/// Why an artifact could not be loaded.
#[derive(Clone, Debug)]
pub enum LoadError {
    /// The artifact does not export a required symbol
    /// (`get_info` or `set_allocator_handle`).
    SymbolMissing { name: String },
    /// The file could not be copied to the scratch directory.
    IoError,
    /// The file is not a valid shared object.
    NotALibrary,
}

/// Why an assembly could not be linked against the dispatch table.
#[derive(Clone, Debug)]
pub enum LinkError {
    /// A call slot names a function the table does not hold.
    UnresolvedSymbol { name: String },
    /// The table holds a function of that name, but with another signature.
    SignatureMismatch {
        name: String,
        expected: FunctionSignature,
        found: FunctionSignature,
    },
}

/// Why a host-initiated invocation was refused.
#[derive(Clone, Debug)]
pub enum InvokeError {
    /// No function of that name.
    FunctionMissing { name: String },
    /// Wrong number of arguments.
    ArityMismatch { expected: usize, found: usize },
    /// An argument's or the result's type differs from the signature.
    TypeMismatch { argument: usize },
}

/// Why a live-object migration failed.
#[derive(Clone, Copy, Debug, Eq, PartialEq, Structural)]
pub enum MigrationError {
    /// A still-live kept field references an object of a removed type.
    Dangling,
    /// Value containment among the new types cycles.
    SchemaCycle,
}

} // verus!
