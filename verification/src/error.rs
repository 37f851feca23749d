//! Error kinds surfaced by the object database. A single operation
//! either returns a typed result or one of these; partial results are
//! never returned.

use vstd::prelude::*;

verus! {

/// Why an operation on the object database failed.
#[derive(Debug, Clone, PartialEq, Eq)]
pub enum DbError {
    /// No object matches the given identifier or prefix.
    NotFound,
    /// A partial identifier matches two or more objects.
    Ambiguous(Vec<u128>),
    /// An on-disk structure failed validation: a bad magic number or
    /// version, a truncated table, an undecodable varint, an illegal
    /// delta opcode, or a malformed header.
    Corrupt,
    /// A filesystem error outside this library's control.
    Io,
    /// A size does not fit in the platform's index type.
    Oversize,
    /// A recognized but unhandled on-disk variant.
    Unsupported,
}

} // verus!
