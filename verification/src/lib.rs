//! Base64 codec value types.
//!
//! Two newtype wrappers around a byte buffer, one rendered with the standard
//! base64 alphabet and one with the URL-safe alphabet.  Decoding is
//! padding-indifferent: trailing `=` characters may be present, absent or
//! over-supplied, as long as the remaining characters belong to the alphabet
//! and resolve to a well-formed byte grouping.  Encoding always emits the
//! canonical, correctly padded string.

use vstd::prelude::*;

pub mod alphabet;
pub mod bufinterop;
pub mod codec;
pub mod errors;
pub mod serial;
pub mod value;

pub use errors::DecodeError;
pub use errors::DeserializeError;
pub use errors::LengthError;
pub use value::Base64;
pub use value::UrlBase64;
pub use value::FIXED_LENGTH;

verus! {

} // verus!
