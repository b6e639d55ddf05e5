//! Errors of the wire protocol.

use vstd::prelude::*;

verus! {

/// Why a block of bytes could not be written or read.
#[derive(Clone, Copy, Debug, PartialEq, Eq, Structural)]
pub enum WireError {
    /// A length does not fit the four bytes that the protocol gives it.
    TooLong,
    /// The block ends before the lengths it states are met.
    Truncated,
    /// A header field holds no `=`.
    MissingEquals,
    /// A header field or an error message is not UTF-8.
    InvalidText,
    /// The status of a service response is neither 0 nor 1.
    BadStatus,
}

} // verus!
