//! The ways in which an operation of this library can be refused.
use vstd::prelude::*;

verus! {

/// Why an operation was refused or a search ended without a key.
#[derive(Clone, Copy, Debug, PartialEq, Eq)]
pub enum Error {
    /// The key holds no byte, so it cannot be read cyclically.
    EmptyKey,
    /// More than 128 bits of a 128-bit key were declared unknown.
    BitCountOutOfRange,
    /// Ciphertext and known plaintext differ in length.
    LengthMismatch,
    /// No candidate key of the search space decrypts the ciphertext to the
    /// known plaintext.
    NoMatch,
}

} // verus!
