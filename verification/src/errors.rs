//! The error taxonomy of the library.
//!
//! Validation failures (`InvalidUrl`, `InvalidCode`) are detected before any
//! store access; `Conflict` is a store-level uniqueness violation;
//! `NotFound` says a code has no mapping; `AllocationExhausted` and
//! `Unavailable` are surfaced as server-side failures.

use vstd::prelude::*;

verus! {

/// Failure of `codec::decode`: the string is not a well-formed short code.
#[derive(Clone, Copy, Debug, PartialEq, Eq, Structural)]
pub enum DecodeError {
    /// The string is empty, holds a character outside `0-9a-z`, or names a
    /// value that does not fit in 64 bits.
    InvalidCode,
}

/// Failure of the identifier allocator.
#[derive(Clone, Copy, Debug, PartialEq, Eq, Structural)]
pub enum AllocateError {
    /// The 64-bit identifier space is spent.
    AllocationExhausted,
}

/// Failure of a mapping-store operation.
#[derive(Clone, Copy, Debug, PartialEq, Eq, Structural)]
pub enum StoreError {
    /// A stored record already carries the record's identifier or code.
    Conflict,
    /// No stored record carries the requested code.
    NotFound,
    /// The store cannot be reached.
    Unavailable,
}

/// Failure of the shorten operation.
#[derive(Clone, Copy, Debug, PartialEq, Eq, Structural)]
pub enum ShortenError {
    /// The input is not a syntactically well-formed absolute URL.
    InvalidUrl,
    /// No further identifier can be handed out.
    AllocationExhausted,
    /// The store cannot be reached.
    Unavailable,
}

/// Failure of the resolve operation.
#[derive(Clone, Copy, Debug, PartialEq, Eq, Structural)]
pub enum ResolveError {
    /// The code was never issued or cannot name a stored mapping.
    NotFound,
    /// The store cannot be reached.
    Unavailable,
}

} // verus!
