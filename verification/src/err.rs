//! Error values surfaced by descriptor operations.

use vstd::prelude::*;

verus! {

/// A condition that aborts the current operation.
///
/// `Unsupported` reports a capability the concrete resource does not
/// implement; `Isolation` reports an operation that would touch real host
/// state while host interaction is disallowed. Both carry the operation and
/// the resource kind for diagnostics.
#[derive(Debug, Clone, Copy)]
pub enum InterpError {
    /// The resource has no implementation for the attempted operation.
    Unsupported { operation: &'static str, name: &'static str },
    /// The operation would touch the host while isolation is in force.
    Isolation { operation: &'static str, name: &'static str },
}

/// The outcome of an operation that may abort with an [`InterpError`].
pub type InterpResult<T> = Result<T, InterpError>;

/// The guest-visible representation of a genuine host I/O failure,
/// carrying the host's OS error code when one exists.
#[derive(Debug, Clone, Copy)]
pub struct IoError {
    /// The OS error code reported by the host, if any.
    pub raw_os_error: Option<i32>,
}

} // verus!
