use vstd::prelude::*;

verus! {

/// Errors surfaced by the codec and the mapping service.
///
/// A malformed token is a client error and must stay distinct from a
/// failing record store, so the caller can tell bad input from an
/// unavailable backend.
#[derive(Clone, Copy, Debug, PartialEq, Eq, Structural)]
pub enum ShortyError {
    /// The token holds a character outside the 64-symbol alphabet, or
    /// does not denote an identifier representable in 63 bits.
    InvalidToken,
    /// The record store could not accept another record.
    StorageError,
}

} // verus!
