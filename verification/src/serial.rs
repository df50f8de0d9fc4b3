//! The scalar-string serialization adapter.
//!
//! On the wire a codec value is a quoted string holding its canonical
//! encoding.  Serialization emits exactly that; deserialization accepts a
//! quoted string scalar free of interior quotes (base64 text never needs
//! escape sequences) and decodes its body, surfacing anything else as an
//! error rather than a panic.

use vstd::prelude::*;

use crate::codec::all_in_alphabet;
use crate::codec::decode;
use crate::codec::decode_ok;
use crate::codec::decoded_view;
use crate::codec::encode;
use crate::codec::encoded_view;
use crate::codec::push_char;
use crate::codec::unpadded;
use crate::errors::DecodeError;
use crate::errors::DeserializeError;

verus! {

/// The serialized form of the byte sequence `b`: its canonical encoding
/// between double quotes.
pub open spec fn serialized_view(b: Seq<u8>, url: bool) -> Seq<char> {
    seq!['"'] + encoded_view(b, url) + seq!['"']
}

/// Whether `s` is a quoted string scalar without interior quotes.
pub open spec fn is_string_scalar(s: Seq<char>) -> bool {
    &&& s.len() >= 2
    &&& s[0] == '"'
    &&& s.last() == '"'
    &&& forall|i: int| 1 <= i < s.len() - 1 ==> #[trigger] s[i] != '"'
}

/// The contents of a quoted string scalar.
pub open spec fn scalar_body(s: Seq<char>) -> Seq<char> {
    s.subrange(1, s.len() - 1)
}

/// Serialization round trip: the serialized form of any byte sequence is a
/// quoted string scalar that deserializes back to exactly those bytes.
pub proof fn lemma_serialization_round_trip(b: Seq<u8>, url: bool)
    ensures
        is_string_scalar(serialized_view(b, url)),
        decode_ok(scalar_body(serialized_view(b, url)), url),
        decoded_view(scalar_body(serialized_view(b, url)), url) == b,
{
    let e = encoded_view(b, url);
    let s = serialized_view(b, url);
    crate::codec::lemma_encoded_view_unquoted(b, url);
    assert(s[0] == '"' && s.last() == '"');
    assert forall|i: int| 1 <= i < s.len() - 1 implies #[trigger] s[i] != '"' by {
        assert(s[i] == e[i - 1]);
    }
    assert(scalar_body(s) =~= e);
    crate::codec::lemma_encode_decode_round_trip(b, url);
}

/// Serializes `bytes` as a quoted scalar under the chosen alphabet.
pub fn serialize_bytes(bytes: &[u8], url: bool) -> (s: String)
    ensures
        s@ == serialized_view(bytes@, url),
{
    let mut s = String::new();
    push_char(&mut s, '"');
    let e = encode(bytes, url);
    s.append(e.as_str());
    push_char(&mut s, '"');
    proof {
        assert(s@ =~= serialized_view(bytes@, url));
    }
    s
}

/// Deserializes a quoted scalar under the chosen alphabet.  Fails with
/// `NotAString` when the input is not a quoted string scalar, and with
/// `InvalidEncoding` when the quoted body fails to decode.
pub fn deserialize_str(s: &str, url: bool) -> (r: Result<Vec<u8>, DeserializeError>)
    ensures
        r is Ok <==> is_string_scalar(s@) && decode_ok(scalar_body(s@), url),
        r is Ok ==> r->Ok_0@ == decoded_view(scalar_body(s@), url),
        !is_string_scalar(s@) ==> r == Err::<Vec<u8>, DeserializeError>(
            DeserializeError::NotAString,
        ),
        is_string_scalar(s@) && !all_in_alphabet(unpadded(scalar_body(s@)), url) ==> r == Err::<
            Vec<u8>,
            DeserializeError,
        >(DeserializeError::InvalidEncoding(DecodeError::InvalidCharacter)),
        is_string_scalar(s@) && all_in_alphabet(unpadded(scalar_body(s@)), url) && unpadded(
            scalar_body(s@),
        ).len() % 4 == 1 ==> r == Err::<Vec<u8>, DeserializeError>(
            DeserializeError::InvalidEncoding(DecodeError::InvalidLength),
        ),
{
    let n = s.unicode_len();
    if n < 2 {
        return Err(DeserializeError::NotAString);
    }
    if s.get_char(0) != '"' {
        return Err(DeserializeError::NotAString);
    }
    if s.get_char(n - 1) != '"' {
        return Err(DeserializeError::NotAString);
    }
    let mut i: usize = 1;
    while i < n - 1
        invariant
            1 <= i <= n - 1,
            n == s@.len(),
            n >= 2,
            forall|j: int| 1 <= j < i ==> #[trigger] s@[j] != '"',
        decreases n - i,
    {
        if s.get_char(i) == '"' {
            proof {
                assert(s@[i as int] == '"');
            }
            return Err(DeserializeError::NotAString);
        }
        i += 1;
    }
    let body = s.substring_char(1, n - 1);
    proof {
        assert(body@ == scalar_body(s@));
    }
    match decode(body, url) {
        Ok(v) => Ok(v),
        Err(e) => Err(DeserializeError::InvalidEncoding(e)),
    }
}

} // verus!
