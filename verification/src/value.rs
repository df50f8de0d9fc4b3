//! The two codec value types.
//!
//! `Base64` renders its bytes with the standard alphabet, `UrlBase64` with
//! the URL-safe alphabet; both own a plain byte buffer, compare by value,
//! and share the padding-indifferent decode policy.  Conversion between the
//! two moves the raw bytes without re-encoding.

use vstd::prelude::*;

use crate::bufinterop::bytes_content;
use crate::bufinterop::bytes_copy_from_slice;
use crate::bufinterop::bytes_from_vec;
use crate::bufinterop::bytes_to_vec;
use crate::codec::all_in_alphabet;
use crate::codec::decode;
use crate::codec::decode_ok;
use crate::codec::decoded_view;
use crate::codec::encode;
use crate::codec::encoded_view;
use crate::codec::unpadded;
use crate::errors::DecodeError;
use crate::errors::DeserializeError;
use crate::errors::LengthError;
use crate::serial::deserialize_str;
use crate::serial::is_string_scalar;
use crate::serial::scalar_body;
use crate::serial::serialize_bytes;
use crate::serial::serialized_view;
use bytes::Bytes;

verus! {

/// The byte count that `try_fixed_length` requires, sized for symmetric key
/// material.
pub const FIXED_LENGTH: usize = 32;

/// A byte buffer rendered as base64 with the standard alphabet.
#[derive(Debug, Eq, Hash, Clone)]
pub struct Base64(pub Vec<u8>);

/// A byte buffer rendered as base64 with the URL-safe alphabet.
#[derive(Debug, Eq)]
pub struct UrlBase64(pub Vec<u8>);

impl View for Base64 {
    type V = Seq<u8>;

    open spec fn view(&self) -> Seq<u8> {
        self.0@
    }
}

impl View for UrlBase64 {
    type V = Seq<u8>;

    open spec fn view(&self) -> Seq<u8> {
        self.0@
    }
}

impl PartialEq for Base64 {
    fn eq(&self, other: &Base64) -> (r: bool) {
        let r = self.0 == other.0;
        proof {
            if r {
                assert(self.0@ =~= other.0@);
            } else {
                if self.0@ == other.0@ {
                    assert(forall|i: int|
                        #![all_triggers]
                        0 <= i < self.0@.len() ==> self.0@[i] == other.0@[i]);
                    assert(false);
                }
            }
        }
        r
    }
}

impl vstd::std_specs::cmp::PartialEqSpecImpl for Base64 {
    open spec fn obeys_eq_spec() -> bool {
        true
    }

    open spec fn eq_spec(&self, other: &Base64) -> bool {
        self@ == other@
    }
}

impl PartialEq for UrlBase64 {
    fn eq(&self, other: &UrlBase64) -> (r: bool) {
        let r = self.0 == other.0;
        proof {
            if r {
                assert(self.0@ =~= other.0@);
            } else {
                if self.0@ == other.0@ {
                    assert(forall|i: int|
                        #![all_triggers]
                        0 <= i < self.0@.len() ==> self.0@[i] == other.0@[i]);
                    assert(false);
                }
            }
        }
        r
    }
}

impl vstd::std_specs::cmp::PartialEqSpecImpl for UrlBase64 {
    open spec fn obeys_eq_spec() -> bool {
        true
    }

    open spec fn eq_spec(&self, other: &UrlBase64) -> bool {
        self@ == other@
    }
}

impl Default for UrlBase64 {
    /// The zero-length value.
    fn default() -> (r: UrlBase64)
        ensures
            r@ == Seq::<u8>::empty(),
    {
        let r = UrlBase64(Vec::new());
        proof {
            assert(r@ =~= Seq::<u8>::empty());
        }
        r
    }
}

impl Base64 {
    /// Decodes `s` with the standard alphabet under the padding-indifferent
    /// policy.
    pub fn from_str(s: &str) -> (r: Result<Base64, DecodeError>)
        ensures
            r is Ok <==> decode_ok(s@, false),
            r is Ok ==> r->Ok_0@ == decoded_view(s@, false),
            !all_in_alphabet(unpadded(s@), false) ==> r == Err::<Base64, DecodeError>(
                DecodeError::InvalidCharacter,
            ),
            all_in_alphabet(unpadded(s@), false) && unpadded(s@).len() % 4 == 1 ==> r == Err::<
                Base64,
                DecodeError,
            >(DecodeError::InvalidLength),
    {
        match decode(s, false) {
            Ok(v) => Ok(Base64(v)),
            Err(e) => Err(e),
        }
    }

    /// The canonical, correctly padded standard-alphabet encoding of the
    /// wrapped bytes.
    pub fn to_string(&self) -> (s: String)
        ensures
            s@ == encoded_view(self@, false),
    {
        encode(self.0.as_slice(), false)
    }

    /// Emits the wrapped bytes as a quoted string scalar.
    pub fn serialize(&self) -> (s: String)
        ensures
            s@ == serialized_view(self@, false),
    {
        serialize_bytes(self.0.as_slice(), false)
    }

    /// Reads a quoted string scalar back into a value.
    pub fn deserialize(s: &str) -> (r: Result<Base64, DeserializeError>)
        ensures
            r is Ok <==> is_string_scalar(s@) && decode_ok(scalar_body(s@), false),
            r is Ok ==> r->Ok_0@ == decoded_view(scalar_body(s@), false),
            !is_string_scalar(s@) ==> r == Err::<Base64, DeserializeError>(
                DeserializeError::NotAString,
            ),
            is_string_scalar(s@) && !all_in_alphabet(unpadded(scalar_body(s@)), false) ==> r
                == Err::<Base64, DeserializeError>(
                DeserializeError::InvalidEncoding(DecodeError::InvalidCharacter),
            ),
            is_string_scalar(s@) && all_in_alphabet(unpadded(scalar_body(s@)), false) && unpadded(
                scalar_body(s@),
            ).len() % 4 == 1 ==> r == Err::<Base64, DeserializeError>(
                DeserializeError::InvalidEncoding(DecodeError::InvalidLength),
            ),
    {
        match deserialize_str(s, false) {
            Ok(v) => Ok(Base64(v)),
            Err(e) => Err(e),
        }
    }

    /// Borrows the wrapped bytes for reading.
    pub fn as_bytes(&self) -> (r: &Vec<u8>)
        ensures
            r@ == self@,
    {
        &self.0
    }

    /// Borrows the wrapped bytes for mutation.
    pub fn as_mut_bytes(&mut self) -> (r: &mut Vec<u8>)
        ensures
            r@ == old(self)@,
            final(self)@ == final(r)@,
    {
        &mut self.0
    }

    /// Copies a borrowed byte slice into a new value.
    pub fn from_slice(value: &[u8]) -> (r: Base64)
        ensures
            r@ == value@,
    {
        Base64(vstd::slice::slice_to_vec(value))
    }

    /// Copies the contents of a borrowed `Bytes` buffer into a new value.
    pub fn from_bytes_buf(value: &Bytes) -> (r: Base64)
        ensures
            r@ == bytes_content(*value),
    {
        Base64(bytes_to_vec(value))
    }

    /// Copies the contents of an owned `Bytes` buffer into a new value.
    pub fn from_bytes_owned(value: Bytes) -> (r: Base64)
        ensures
            r@ == bytes_content(value),
    {
        Base64(bytes_to_vec(&value))
    }

    /// Moves the wrapped bytes into an owned `Bytes` buffer.
    pub fn into_bytes_buf(self) -> (r: Bytes)
        ensures
            bytes_content(r) == self@,
    {
        bytes_from_vec(self.0)
    }

    /// Copies the wrapped bytes into an owned `Bytes` buffer.
    pub fn to_bytes_buf(&self) -> (r: Bytes)
        ensures
            bytes_content(r) == self@,
    {
        bytes_copy_from_slice(self.0.as_slice())
    }

    /// Consumes the value and yields its bytes as a fixed-size array of
    /// exactly `FIXED_LENGTH` bytes; any other length is a `LengthError`
    /// carrying the actual and the expected count.  A pure validating copy:
    /// it neither truncates nor pads.
    pub fn try_fixed_length(self) -> (r: Result<[u8; 32], LengthError>)
        ensures
            self@.len() == FIXED_LENGTH ==> r is Ok && r->Ok_0@ == self@,
            self@.len() != FIXED_LENGTH ==> r == Err::<[u8; 32], LengthError>(
                (LengthError { actual: self@.len() as usize, expected: FIXED_LENGTH }),
            ),
    {
        let n = self.0.len();
        if n != FIXED_LENGTH {
            return Err(LengthError { actual: n, expected: FIXED_LENGTH });
        }
        let mut arr = [0u8; 32];
        let mut i: usize = 0;
        while i < FIXED_LENGTH
            invariant
                i <= FIXED_LENGTH,
                self@.len() == FIXED_LENGTH,
                arr@.len() == FIXED_LENGTH,
                forall|j: int| 0 <= j < i ==> arr@[j] == self@[j],
            decreases FIXED_LENGTH - i,
        {
            arr[i] = self.0[i];
            i += 1;
        }
        proof {
            assert(arr@ =~= self@);
        }
        Ok(arr)
    }
}

impl UrlBase64 {
    /// Decodes `s` with the URL-safe alphabet under the padding-indifferent
    /// policy.
    pub fn from_str(s: &str) -> (r: Result<UrlBase64, DecodeError>)
        ensures
            r is Ok <==> decode_ok(s@, true),
            r is Ok ==> r->Ok_0@ == decoded_view(s@, true),
            !all_in_alphabet(unpadded(s@), true) ==> r == Err::<UrlBase64, DecodeError>(
                DecodeError::InvalidCharacter,
            ),
            all_in_alphabet(unpadded(s@), true) && unpadded(s@).len() % 4 == 1 ==> r == Err::<
                UrlBase64,
                DecodeError,
            >(DecodeError::InvalidLength),
    {
        match decode(s, true) {
            Ok(v) => Ok(UrlBase64(v)),
            Err(e) => Err(e),
        }
    }

    /// The canonical, correctly padded URL-safe encoding of the wrapped
    /// bytes.
    pub fn to_string(&self) -> (s: String)
        ensures
            s@ == encoded_view(self@, true),
    {
        encode(self.0.as_slice(), true)
    }

    /// Emits the wrapped bytes as a quoted string scalar.
    pub fn serialize(&self) -> (s: String)
        ensures
            s@ == serialized_view(self@, true),
    {
        serialize_bytes(self.0.as_slice(), true)
    }

    /// Reads a quoted string scalar back into a value.
    pub fn deserialize(s: &str) -> (r: Result<UrlBase64, DeserializeError>)
        ensures
            r is Ok <==> is_string_scalar(s@) && decode_ok(scalar_body(s@), true),
            r is Ok ==> r->Ok_0@ == decoded_view(scalar_body(s@), true),
            !is_string_scalar(s@) ==> r == Err::<UrlBase64, DeserializeError>(
                DeserializeError::NotAString,
            ),
            is_string_scalar(s@) && !all_in_alphabet(unpadded(scalar_body(s@)), true) ==> r
                == Err::<UrlBase64, DeserializeError>(
                DeserializeError::InvalidEncoding(DecodeError::InvalidCharacter),
            ),
            is_string_scalar(s@) && all_in_alphabet(unpadded(scalar_body(s@)), true) && unpadded(
                scalar_body(s@),
            ).len() % 4 == 1 ==> r == Err::<UrlBase64, DeserializeError>(
                DeserializeError::InvalidEncoding(DecodeError::InvalidLength),
            ),
    {
        match deserialize_str(s, true) {
            Ok(v) => Ok(UrlBase64(v)),
            Err(e) => Err(e),
        }
    }

    /// Borrows the wrapped bytes for reading.
    pub fn as_bytes(&self) -> (r: &Vec<u8>)
        ensures
            r@ == self@,
    {
        &self.0
    }

    /// Borrows the wrapped bytes for mutation.
    pub fn as_mut_bytes(&mut self) -> (r: &mut Vec<u8>)
        ensures
            r@ == old(self)@,
            final(self)@ == final(r)@,
    {
        &mut self.0
    }

    /// Copies a borrowed byte slice into a new value.
    pub fn from_slice(value: &[u8]) -> (r: UrlBase64)
        ensures
            r@ == value@,
    {
        UrlBase64(vstd::slice::slice_to_vec(value))
    }

    /// Copies the contents of a borrowed `Bytes` buffer into a new value.
    pub fn from_bytes_buf(value: &Bytes) -> (r: UrlBase64)
        ensures
            r@ == bytes_content(*value),
    {
        UrlBase64(bytes_to_vec(value))
    }

    /// Moves the wrapped bytes into an owned `Bytes` buffer.
    pub fn into_bytes_buf(self) -> (r: Bytes)
        ensures
            bytes_content(r) == self@,
    {
        bytes_from_vec(self.0)
    }

    /// Consumes the value and yields its bytes as a fixed-size array of
    /// exactly `FIXED_LENGTH` bytes; any other length is a `LengthError`
    /// carrying the actual and the expected count.
    pub fn try_fixed_length(self) -> (r: Result<[u8; 32], LengthError>)
        ensures
            self@.len() == FIXED_LENGTH ==> r is Ok && r->Ok_0@ == self@,
            self@.len() != FIXED_LENGTH ==> r == Err::<[u8; 32], LengthError>(
                (LengthError { actual: self@.len() as usize, expected: FIXED_LENGTH }),
            ),
    {
        Base64(self.0).try_fixed_length()
    }
}

impl From<UrlBase64> for Base64 {
    /// Reinterprets the raw bytes as a standard-alphabet value, without
    /// re-encoding.
    fn from(value: UrlBase64) -> (r: Base64) {
        Base64(value.0)
    }
}

impl vstd::std_specs::convert::FromSpecImpl<UrlBase64> for Base64 {
    open spec fn obeys_from_spec() -> bool {
        true
    }

    open spec fn from_spec(value: UrlBase64) -> Base64 {
        Base64(value.0)
    }
}

impl From<Base64> for UrlBase64 {
    /// Reinterprets the raw bytes as a URL-safe value, without re-encoding.
    fn from(value: Base64) -> (r: UrlBase64) {
        UrlBase64(value.0)
    }
}

impl vstd::std_specs::convert::FromSpecImpl<Base64> for UrlBase64 {
    open spec fn obeys_from_spec() -> bool {
        true
    }

    open spec fn from_spec(value: Base64) -> UrlBase64 {
        UrlBase64(value.0)
    }
}

/// Cross-codec conversion preserves bytes: converting a standard value to
/// the URL-safe type and back returns the original value, bytes untouched.
pub proof fn lemma_cross_codec_round_trip(v: Base64)
    ensures
        <Base64 as vstd::std_specs::convert::FromSpec<UrlBase64>>::from_spec(
            <UrlBase64 as vstd::std_specs::convert::FromSpec<Base64>>::from_spec(v),
        ) == v,
{
}

/// Cross-codec conversion preserves bytes, starting from a URL-safe value.
pub proof fn lemma_cross_codec_round_trip_url(v: UrlBase64)
    ensures
        <UrlBase64 as vstd::std_specs::convert::FromSpec<Base64>>::from_spec(
            <Base64 as vstd::std_specs::convert::FromSpec<UrlBase64>>::from_spec(v),
        ) == v,
{
}

} // verus!
