use vstd::prelude::*;

verus! {

/// The error kinds that storage and execution surface to callers.
#[derive(Clone, Debug, PartialEq, Eq)]
pub enum Error {
    /// Malformed row, out-of-range record id, type mismatch, division by zero.
    InvalidInput(String),
    /// A slot id or column index past the end.
    OutOfBounds,
    /// Checked arithmetic failed.
    OverflowError,
    /// Corrupted bytes or a cross-instance mismatch.
    InvalidData(String),
    /// The buffer pool could not supply a page.
    CreationError,
    /// A catalog entry already exists.
    AlreadyExists,
    /// A catalog entry is missing.
    NotFound,
}

} // verus!
