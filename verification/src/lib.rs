//! A virtual file-descriptor subsystem for a hosted guest program.
//!
//! The crate models the POSIX-like contract that file descriptors are small
//! non-negative integers, that several descriptors may refer to the same open
//! resource (`dup` semantics), that a resource is finalized exactly once, when
//! the last referencing holder disappears, and that descriptor numbers are
//! allocated by the "lowest free slot" rule.

pub mod ctx;
pub mod err;
pub mod ident;
pub mod resource;
pub mod table;
