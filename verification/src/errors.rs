//! Error types returned by the codec.

use vstd::prelude::*;

verus! {

/// Why a string failed to decode as base64.
#[derive(Debug, Clone, Copy, PartialEq, Eq, Structural)]
pub enum DecodeError {
    /// A character outside the configured alphabet appeared before the
    /// trailing padding (this includes `=` anywhere but the tail, and
    /// characters of the sibling alphabet).
    InvalidCharacter,
    /// After stripping trailing padding, the character count cannot be a
    /// base64 grouping (it is congruent to 1 modulo 4).
    InvalidLength,
}

/// A decoded buffer did not have the exact length a fixed-size conversion
/// requires.  Carries the actual and the expected byte counts.
#[derive(Debug, Clone, Copy, PartialEq, Eq, Structural)]
pub struct LengthError {
    pub actual: usize,
    pub expected: usize,
}

/// Why a serialized scalar failed to deserialize as a codec value.
#[derive(Debug, Clone, Copy, PartialEq, Eq, Structural)]
pub enum DeserializeError {
    /// The input was not a quoted string scalar.
    NotAString,
    /// The input was a quoted string whose contents fail to decode.
    InvalidEncoding(DecodeError),
}

impl DeserializeError {
    /// True when the failure is attributable to malformed string contents
    /// (a data-layer error) rather than a missing string wrapping.
    pub fn is_data(&self) -> (r: bool)
        ensures
            r == (self is InvalidEncoding),
    {
        match self {
            DeserializeError::InvalidEncoding(_) => true,
            DeserializeError::NotAString => false,
        }
    }
}

} // verus!
