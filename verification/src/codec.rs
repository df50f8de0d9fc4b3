//! The shared encode/decode engine.
//!
//! Encoding renders a byte sequence as 6-bit groups followed by canonical
//! `=` padding up to a multiple of four characters.  Decoding is
//! padding-indifferent: it strips however many trailing `=` characters are
//! present (whether canonical, missing or over-supplied), requires every
//! remaining character to belong to the alphabet, requires the remaining
//! count not to be congruent to 1 modulo 4, and reassembles bytes from the
//! 6-bit values; bits beyond the last whole byte are discarded.

use vstd::prelude::*;

use crate::alphabet::char_for;
use crate::alphabet::decode_char;
use crate::alphabet::encode_char;
use crate::alphabet::in_alphabet;
use crate::alphabet::lemma_char_for_not_framing;
use crate::alphabet::lemma_char_for_value;
use crate::alphabet::value_of;
use crate::errors::DecodeError;

verus! {

/// The 6-bit groups of `b`, in order, without padding.  Each group of three
/// bytes yields four values; a trailing byte yields two and a trailing pair
/// yields three, their unused low bits zero.
pub open spec fn vals_of_bytes(b: Seq<u8>) -> Seq<u8>
    decreases b.len(),
{
    if b.len() == 0 {
        seq![]
    } else if b.len() == 1 {
        seq![b[0] >> 2, (b[0] & 3) << 4]
    } else if b.len() == 2 {
        seq![b[0] >> 2, ((b[0] & 3) << 4) | (b[1] >> 4), (b[1] & 15) << 2]
    } else {
        seq![
            b[0] >> 2,
            ((b[0] & 3) << 4) | (b[1] >> 4),
            ((b[1] & 15) << 2) | (b[2] >> 6),
            b[2] & 63,
        ] + vals_of_bytes(b.skip(3))
    }
}

/// How many `=` characters the canonical encoding of `n` bytes appends.
pub open spec fn pad_count(n: int) -> int {
    if n % 3 == 0 {
        0
    } else {
        3 - n % 3
    }
}

/// The characters rendering a sequence of 6-bit values.
pub open spec fn chars_of_vals(v: Seq<u8>, url: bool) -> Seq<char> {
    Seq::new(v.len(), |i: int| char_for(v[i] as int, url))
}

/// A run of `n` padding characters.
pub open spec fn pad_chars(n: int) -> Seq<char> {
    if n >= 0 {
        Seq::new(n as nat, |i: int| '=')
    } else {
        Seq::empty()
    }
}

/// The canonical, correctly padded encoding of `b` under the chosen
/// alphabet.
pub open spec fn encoded_view(b: Seq<u8>, url: bool) -> Seq<char> {
    chars_of_vals(vals_of_bytes(b), url) + pad_chars(pad_count(b.len() as int))
}

/// The length of the run of `=` characters that ends `s`.
pub open spec fn pad_suffix_len(s: Seq<char>) -> int
    decreases s.len(),
{
    if s.len() > 0 && s.last() == '=' {
        1 + pad_suffix_len(s.drop_last())
    } else {
        0
    }
}

/// `s` with its trailing padding characters removed.
pub open spec fn unpadded(s: Seq<char>) -> Seq<char> {
    s.take(s.len() - pad_suffix_len(s))
}

/// Every character of `s` lies in the chosen alphabet.
pub open spec fn all_in_alphabet(s: Seq<char>, url: bool) -> bool {
    forall|i: int| 0 <= i < s.len() ==> in_alphabet(#[trigger] s[i], url)
}

/// The 6-bit values of the characters of `s`.
pub open spec fn vals_of_chars(s: Seq<char>, url: bool) -> Seq<u8> {
    Seq::new(s.len(), |i: int| value_of(s[i], url) as u8)
}

/// Reassembles bytes from 6-bit groups: four values give three bytes, a
/// trailing pair gives one byte and a trailing triple gives two.  A single
/// leftover value cannot form a byte (such inputs are rejected before this
/// is applied); bits beyond the last whole byte are discarded.
pub open spec fn bytes_of_vals(v: Seq<u8>) -> Seq<u8>
    decreases v.len(),
{
    if v.len() <= 1 {
        seq![]
    } else if v.len() == 2 {
        seq![(v[0] << 2) | (v[1] >> 4)]
    } else if v.len() == 3 {
        seq![(v[0] << 2) | (v[1] >> 4), (v[1] << 4) | (v[2] >> 2)]
    } else {
        seq![
            (v[0] << 2) | (v[1] >> 4),
            (v[1] << 4) | (v[2] >> 2),
            (v[2] << 6) | v[3],
        ] + bytes_of_vals(v.skip(4))
    }
}

/// Whether `s` decodes under the padding-indifferent policy.
pub open spec fn decode_ok(s: Seq<char>, url: bool) -> bool {
    all_in_alphabet(unpadded(s), url) && unpadded(s).len() % 4 != 1
}

/// The bytes that `s` decodes to (meaningful when `decode_ok` holds).
pub open spec fn decoded_view(s: Seq<char>, url: bool) -> Seq<u8> {
    bytes_of_vals(vals_of_chars(unpadded(s), url))
}

/// The padding suffix never exceeds the string.
proof fn lemma_pad_suffix_len_bounds(s: Seq<char>)
    ensures
        0 <= pad_suffix_len(s) <= s.len(),
    decreases s.len(),
{
    if s.len() > 0 && s.last() == '=' {
        lemma_pad_suffix_len_bounds(s.drop_last());
    }
}

/// A scan from the right that stops at the first non-`=` character finds
/// exactly the padding suffix.
proof fn lemma_pad_suffix_from_scan(s: Seq<char>, m: int)
    requires
        0 <= m <= s.len(),
        forall|j: int| m <= j < s.len() ==> s[j] == '=',
        m > 0 ==> s[m - 1] != '=',
    ensures
        pad_suffix_len(s) == s.len() - m,
        unpadded(s) == s.take(m),
    decreases s.len(),
{
    if m == s.len() {
        if s.len() > 0 {
            assert(s.last() == s[m - 1]);
        }
    } else {
        assert(s.last() == '=');
        lemma_pad_suffix_from_scan(s.drop_last(), m);
    }
}

/// Appending padding characters does not change the unpadded core.
pub proof fn lemma_pad_indifference(s: Seq<char>, k: int)
    requires
        k >= 0,
    ensures
        unpadded(s + pad_chars(k)) == unpadded(s),
    decreases k,
{
    lemma_pad_suffix_len_bounds(s);
    if k == 0 {
        assert(s + pad_chars(0) =~= s);
    } else {
        let t = s + pad_chars(k);
        assert(t.last() == '=');
        assert(t.drop_last() =~= s + pad_chars(k - 1));
        lemma_pad_indifference(s, k - 1);
        assert(unpadded(t) =~= unpadded(s + pad_chars(k - 1))) by {
            lemma_pad_suffix_len_bounds(s + pad_chars(k - 1));
        }
    }
}

/// Padding indifference: a string and the same string with any number of
/// `=` characters appended (canonical or not) decode to the same outcome —
/// both succeed with identical bytes or both fail the same way.
pub proof fn lemma_padding_indifferent_decode(s: Seq<char>, k: int, url: bool)
    requires
        k >= 0,
    ensures
        decode_ok(s + pad_chars(k), url) == decode_ok(s, url),
        decoded_view(s + pad_chars(k), url) == decoded_view(s, url),
{
    lemma_pad_indifference(s, k);
}

/// Every 6-bit group is below 64.
proof fn lemma_vals_of_bytes_bounded(b: Seq<u8>)
    ensures
        forall|i: int| 0 <= i < vals_of_bytes(b).len() ==> (#[trigger] vals_of_bytes(b)[i]) < 64,
    decreases b.len(),
{
    if b.len() == 0 {
    } else if b.len() == 1 {
        let b0 = b[0];
        assert(b0 >> 2 < 64 && (b0 & 3) << 4 < 64) by (bit_vector);
    } else if b.len() == 2 {
        let b0 = b[0];
        let b1 = b[1];
        assert(b0 >> 2 < 64 && (((b0 & 3) << 4) | (b1 >> 4)) < 64 && (b1 & 15) << 2 < 64)
            by (bit_vector);
    } else {
        let b0 = b[0];
        let b1 = b[1];
        let b2 = b[2];
        assert(b0 >> 2 < 64 && (((b0 & 3) << 4) | (b1 >> 4)) < 64 && ((((b1 & 15) << 2) | (b2
            >> 6))) < 64 && b2 & 63 < 64) by (bit_vector);
        lemma_vals_of_bytes_bounded(b.skip(3));
        let rest = vals_of_bytes(b.skip(3));
        assert forall|i: int| 0 <= i < vals_of_bytes(b).len() implies (#[trigger] vals_of_bytes(
            b,
        )[i]) < 64 by {
            if i >= 4 {
                assert(vals_of_bytes(b)[i] == rest[i - 4]);
            }
        }
    }
}

/// The number of 6-bit groups is never congruent to 1 modulo 4.
proof fn lemma_vals_of_bytes_len(b: Seq<u8>)
    ensures
        vals_of_bytes(b).len() % 4 != 1,
        vals_of_bytes(b).len() % 4 == 0 <==> b.len() % 3 == 0,
        vals_of_bytes(b).len() % 4 == 2 <==> b.len() % 3 == 1,
        vals_of_bytes(b).len() % 4 == 3 <==> b.len() % 3 == 2,
    decreases b.len(),
{
    if b.len() >= 3 {
        lemma_vals_of_bytes_len(b.skip(3));
    }
}

/// Reassembling the 6-bit groups of `b` returns exactly `b`.
proof fn lemma_bytes_of_vals_of_bytes(b: Seq<u8>)
    ensures
        bytes_of_vals(vals_of_bytes(b)) == b,
    decreases b.len(),
{
    let v = vals_of_bytes(b);
    if b.len() == 0 {
        assert(bytes_of_vals(v) =~= b);
    } else if b.len() == 1 {
        let b0 = b[0];
        assert(((b0 >> 2) << 2) | (((b0 & 3) << 4) >> 4) == b0) by (bit_vector);
        assert(bytes_of_vals(v) =~= b);
    } else if b.len() == 2 {
        let b0 = b[0];
        let b1 = b[1];
        assert(((b0 >> 2) << 2) | ((((b0 & 3) << 4) | (b1 >> 4)) >> 4) == b0) by (bit_vector);
        assert(((((b0 & 3) << 4) | (b1 >> 4)) << 4) | (((b1 & 15) << 2) >> 2) == b1)
            by (bit_vector);
        assert(bytes_of_vals(v) =~= b);
    } else {
        let b0 = b[0];
        let b1 = b[1];
        let b2 = b[2];
        let v0 = b0 >> 2;
        let v1 = ((b0 & 3) << 4) | (b1 >> 4);
        let v2 = ((b1 & 15) << 2) | (b2 >> 6);
        let v3 = b2 & 63;
        let rest = vals_of_bytes(b.skip(3));
        assert(v.len() >= 4);
        assert(v[0] == v0 && v[1] == v1 && v[2] == v2 && v[3] == v3);
        assert(v.skip(4) =~= rest);
        let c0 = (b0 >> 2) << 2 | ((((b0 & 3) << 4) | (b1 >> 4)) >> 4);
        assert(((b0 >> 2) << 2 | ((((b0 & 3) << 4) | (b1 >> 4)) >> 4)) == b0) by (bit_vector);
        assert((((((b0 & 3) << 4) | (b1 >> 4)) << 4) | (((((b1 & 15) << 2) | (b2 >> 6))) >> 2))
            == b1) by (bit_vector);
        assert((((((b1 & 15) << 2) | (b2 >> 6))) << 6 | (b2 & 63)) == b2) by (bit_vector);
        lemma_bytes_of_vals_of_bytes(b.skip(3));
        assert(bytes_of_vals(v) =~= b);
    }
}

/// Reading the rendered characters of a bounded value sequence back yields
/// the value sequence, and every such character is in the alphabet and is
/// neither `=` nor `"`.
proof fn lemma_chars_of_vals_read_back(v: Seq<u8>, url: bool)
    requires
        forall|i: int| 0 <= i < v.len() ==> (#[trigger] v[i]) < 64,
    ensures
        vals_of_chars(chars_of_vals(v, url), url) == v,
        all_in_alphabet(chars_of_vals(v, url), url),
        forall|i: int|
            0 <= i < v.len() ==> (#[trigger] chars_of_vals(v, url)[i]) != '=' && chars_of_vals(
                v,
                url,
            )[i] != '"',
{
    let c = chars_of_vals(v, url);
    assert forall|i: int| 0 <= i < c.len() implies in_alphabet(#[trigger] c[i], url) && c[i] != '='
        && c[i] != '"' && value_of(c[i], url) == v[i] by {
        lemma_char_for_value(v[i] as int, url);
        lemma_char_for_not_framing(v[i] as int, url);
    }
    assert(vals_of_chars(c, url) =~= v);
}

/// Rendering distributes over concatenation of value sequences.
proof fn lemma_chars_of_vals_concat(a: Seq<u8>, b: Seq<u8>, url: bool)
    ensures
        chars_of_vals(a + b, url) == chars_of_vals(a, url) + chars_of_vals(b, url),
{
    assert(chars_of_vals(a + b, url) =~= chars_of_vals(a, url) + chars_of_vals(b, url));
}

/// Relies on `String::push`: appends exactly the given character.
#[verifier::external_body]
pub(crate) fn push_char(s: &mut String, c: char)
    ensures
        final(s)@ == old(s)@.push(c),
{
    s.push(c)
}

/// Encodes `bytes` as its canonical, correctly padded base64 string under
/// the chosen alphabet.
pub fn encode(bytes: &[u8], url: bool) -> (s: String)
    ensures
        s@ == encoded_view(bytes@, url),
{
    let n = bytes.len();
    let mut s = String::new();
    let mut i: usize = 0;
    proof {
        assert(bytes@.skip(0) =~= bytes@);
        assert(s@ + chars_of_vals(vals_of_bytes(bytes@), url) =~= chars_of_vals(
            vals_of_bytes(bytes@),
            url,
        ));
    }
    while n - i >= 3
        invariant
            i <= n,
            i % 3 == 0,
            n == bytes@.len(),
            s@ + chars_of_vals(vals_of_bytes(bytes@.skip(i as int)), url) == chars_of_vals(
                vals_of_bytes(bytes@),
                url,
            ),
        decreases n - i,
    {
        let b0 = bytes[i];
        let b1 = bytes[i + 1];
        let b2 = bytes[i + 2];
        let v0 = b0 >> 2;
        let v1 = ((b0 & 3) << 4) | (b1 >> 4);
        let v2 = ((b1 & 15) << 2) | (b2 >> 6);
        let v3 = b2 & 63;
        proof {
            assert(b0 >> 2 < 64 && (((b0 & 3) << 4) | (b1 >> 4)) < 64 && ((((b1 & 15) << 2) | (b2
                >> 6))) < 64 && b2 & 63 < 64) by (bit_vector);
        }
        let ghost pre = s@;
        let c0 = encode_char(v0, url);
        push_char(&mut s, c0);
        let c1 = encode_char(v1, url);
        push_char(&mut s, c1);
        let c2 = encode_char(v2, url);
        push_char(&mut s, c2);
        let c3 = encode_char(v3, url);
        push_char(&mut s, c3);
        proof {
            let rest = bytes@.skip(i as int);
            assert(rest[0] == b0 && rest[1] == b1 && rest[2] == b2);
            assert(rest.skip(3) =~= bytes@.skip(i as int + 3));
            assert(vals_of_bytes(rest) == seq![v0, v1, v2, v3] + vals_of_bytes(rest.skip(3)));
            lemma_chars_of_vals_concat(seq![v0, v1, v2, v3], vals_of_bytes(rest.skip(3)), url);
            assert(chars_of_vals(seq![v0, v1, v2, v3], url) =~= seq![c0, c1, c2, c3]);
            assert(s@ =~= pre + seq![c0, c1, c2, c3]);
            assert(s@ + chars_of_vals(vals_of_bytes(bytes@.skip(i as int + 3)), url)
                =~= chars_of_vals(vals_of_bytes(bytes@), url));
        }
        i += 3;
    }
    let rem = n - i;
    if rem == 1 {
        let b0 = bytes[i];
        let v0 = b0 >> 2;
        let v1 = (b0 & 3) << 4;
        proof {
            assert(b0 >> 2 < 64 && (b0 & 3) << 4 < 64) by (bit_vector);
        }
        let ghost pre = s@;
        let c0 = encode_char(v0, url);
        push_char(&mut s, c0);
        let c1 = encode_char(v1, url);
        push_char(&mut s, c1);
        push_char(&mut s, '=');
        push_char(&mut s, '=');
        proof {
            let rest = bytes@.skip(i as int);
            assert(rest.len() == 1 && rest[0] == b0);
            assert(vals_of_bytes(rest) == seq![v0, v1]);
            assert(chars_of_vals(seq![v0, v1], url) =~= seq![c0, c1]);
            assert(pre + seq![c0, c1] =~= chars_of_vals(vals_of_bytes(bytes@), url));
            assert(pad_count(n as int) == 2);
            assert(s@ =~= encoded_view(bytes@, url));
        }
    } else if rem == 2 {
        let b0 = bytes[i];
        let b1 = bytes[i + 1];
        let v0 = b0 >> 2;
        let v1 = ((b0 & 3) << 4) | (b1 >> 4);
        let v2 = (b1 & 15) << 2;
        proof {
            assert(b0 >> 2 < 64 && (((b0 & 3) << 4) | (b1 >> 4)) < 64 && (b1 & 15) << 2 < 64)
                by (bit_vector);
        }
        let ghost pre = s@;
        let c0 = encode_char(v0, url);
        push_char(&mut s, c0);
        let c1 = encode_char(v1, url);
        push_char(&mut s, c1);
        let c2 = encode_char(v2, url);
        push_char(&mut s, c2);
        push_char(&mut s, '=');
        proof {
            let rest = bytes@.skip(i as int);
            assert(rest.len() == 2 && rest[0] == b0 && rest[1] == b1);
            assert(vals_of_bytes(rest) == seq![v0, v1, v2]);
            assert(chars_of_vals(seq![v0, v1, v2], url) =~= seq![c0, c1, c2]);
            assert(pre + seq![c0, c1, c2] =~= chars_of_vals(vals_of_bytes(bytes@), url));
            assert(pad_count(n as int) == 1);
            assert(s@ =~= encoded_view(bytes@, url));
        }
    } else {
        proof {
            assert(bytes@.skip(i as int) =~= Seq::<u8>::empty());
            assert(chars_of_vals(vals_of_bytes(bytes@.skip(i as int)), url) =~= Seq::<
                char,
            >::empty());
            assert(s@ =~= chars_of_vals(vals_of_bytes(bytes@), url));
            assert(pad_count(n as int) == 0);
            assert(s@ =~= encoded_view(bytes@, url));
        }
    }
    s
}

/// Decodes `s` under the chosen alphabet and the padding-indifferent
/// policy.  Succeeds exactly when, after stripping trailing `=` characters,
/// every remaining character is in the alphabet and the remaining count is
/// a well-formed grouping; the error tells which condition failed.
pub fn decode(s: &str, url: bool) -> (r: Result<Vec<u8>, DecodeError>)
    ensures
        r is Ok <==> decode_ok(s@, url),
        r is Ok ==> r->Ok_0@ == decoded_view(s@, url),
        !all_in_alphabet(unpadded(s@), url) ==> r == Err::<Vec<u8>, DecodeError>(
            DecodeError::InvalidCharacter,
        ),
        all_in_alphabet(unpadded(s@), url) && unpadded(s@).len() % 4 == 1 ==> r == Err::<
            Vec<u8>,
            DecodeError,
        >(DecodeError::InvalidLength),
{
    let n = s.unicode_len();
    let mut m: usize = n;
    let mut scanning = true;
    while scanning && m > 0
        invariant
            m <= n,
            n == s@.len(),
            forall|j: int| m <= j < n ==> s@[j] == '=',
            !scanning ==> m > 0 && s@[m as int - 1] != '=',
        decreases m, (if scanning { 1int } else { 0int }),
    {
        let c = s.get_char(m - 1);
        if c == '=' {
            m = m - 1;
        } else {
            scanning = false;
        }
    }
    proof {
        lemma_pad_suffix_from_scan(s@, m as int);
    }
    let mut vals: Vec<u8> = Vec::new();
    let mut i: usize = 0;
    while i < m
        invariant
            i <= m <= n,
            n == s@.len(),
            unpadded(s@) == s@.take(m as int),
            vals@.len() == i,
            forall|j: int| 0 <= j < i ==> in_alphabet(#[trigger] s@[j], url),
            forall|j: int| 0 <= j < i ==> #[trigger] vals@[j] == value_of(s@[j], url) as u8,
        decreases m - i,
    {
        let c = s.get_char(i);
        match decode_char(c, url) {
            Some(v) => {
                vals.push(v);
            },
            None => {
                proof {
                    assert(unpadded(s@)[i as int] == s@[i as int]);
                    assert(!in_alphabet(unpadded(s@)[i as int], url));
                }
                return Err(DecodeError::InvalidCharacter);
            },
        }
        i += 1;
    }
    proof {
        assert forall|j: int| 0 <= j < unpadded(s@).len() implies in_alphabet(
            #[trigger] unpadded(s@)[j],
            url,
        ) by {
            assert(unpadded(s@)[j] == s@[j]);
        }
        assert(vals@ =~= vals_of_chars(unpadded(s@), url));
    }
    if m % 4 == 1 {
        return Err(DecodeError::InvalidLength);
    }
    let mut out: Vec<u8> = Vec::new();
    let mut k: usize = 0;
    proof {
        assert(vals@.skip(0) =~= vals@);
        assert(out@ + bytes_of_vals(vals@) =~= bytes_of_vals(vals@));
    }
    while m - k >= 4
        invariant
            k <= m,
            k % 4 == 0,
            vals@.len() == m,
            out@ + bytes_of_vals(vals@.skip(k as int)) == bytes_of_vals(vals@),
        decreases m - k,
    {
        let v0 = vals[k];
        let v1 = vals[k + 1];
        let v2 = vals[k + 2];
        let v3 = vals[k + 3];
        out.push((v0 << 2) | (v1 >> 4));
        out.push((v1 << 4) | (v2 >> 2));
        out.push((v2 << 6) | v3);
        proof {
            let rest = vals@.skip(k as int);
            assert(rest[0] == v0 && rest[1] == v1 && rest[2] == v2 && rest[3] == v3);
            assert(rest.skip(4) =~= vals@.skip(k as int + 4));
            assert(bytes_of_vals(rest) == seq![
                (v0 << 2) | (v1 >> 4),
                (v1 << 4) | (v2 >> 2),
                (v2 << 6) | v3,
            ] + bytes_of_vals(rest.skip(4)));
            assert(out@ + bytes_of_vals(vals@.skip(k as int + 4)) =~= bytes_of_vals(vals@));
        }
        k += 4;
    }
    let rem = m - k;
    if rem == 2 {
        let v0 = vals[k];
        let v1 = vals[k + 1];
        out.push((v0 << 2) | (v1 >> 4));
        proof {
            let rest = vals@.skip(k as int);
            assert(rest.len() == 2 && rest[0] == v0 && rest[1] == v1);
            assert(bytes_of_vals(rest) == seq![(v0 << 2) | (v1 >> 4)]);
            assert(out@ =~= bytes_of_vals(vals@));
        }
    } else if rem == 3 {
        let v0 = vals[k];
        let v1 = vals[k + 1];
        let v2 = vals[k + 2];
        out.push((v0 << 2) | (v1 >> 4));
        out.push((v1 << 4) | (v2 >> 2));
        proof {
            let rest = vals@.skip(k as int);
            assert(rest.len() == 3 && rest[0] == v0 && rest[1] == v1 && rest[2] == v2);
            assert(bytes_of_vals(rest) == seq![(v0 << 2) | (v1 >> 4), (v1 << 4) | (v2 >> 2)]);
            assert(out@ =~= bytes_of_vals(vals@));
        }
    } else {
        proof {
            assert(rem == 0);
            assert(vals@.skip(k as int) =~= Seq::<u8>::empty());
            assert(bytes_of_vals(vals@.skip(k as int)) == Seq::<u8>::empty());
            assert(out@ =~= bytes_of_vals(vals@));
        }
    }
    Ok(out)
}

/// A non-empty string written entirely in the two characters exclusive to
/// the sibling alphabet (`+` `/` for the URL-safe decoder, `-` `_` for the
/// standard one) never decodes: every such character falls outside the
/// configured alphabet.
pub proof fn lemma_foreign_alphabet_rejected(s: Seq<char>, url: bool)
    requires
        s.len() > 0,
        forall|i: int|
            0 <= i < s.len() ==> (if url {
                #[trigger] s[i] == '+' || s[i] == '/'
            } else {
                #[trigger] s[i] == '-' || s[i] == '_'
            }),
    ensures
        !all_in_alphabet(unpadded(s), url),
        !decode_ok(s, url),
{
    assert(s.last() != '=');
    assert(pad_suffix_len(s) == 0);
    assert(unpadded(s) =~= s);
    assert(unpadded(s)[0] == s[0]);
    assert(!in_alphabet(s[0], url));
}

/// No character of a canonical encoding is a double quote, so the encoded
/// text can stand inside a quoted scalar unescaped.
pub proof fn lemma_encoded_view_unquoted(b: Seq<u8>, url: bool)
    ensures
        forall|i: int|
            0 <= i < encoded_view(b, url).len() ==> (#[trigger] encoded_view(b, url)[i]) != '"',
{
    let v = vals_of_bytes(b);
    let c = chars_of_vals(v, url);
    lemma_vals_of_bytes_bounded(b);
    lemma_chars_of_vals_read_back(v, url);
    assert forall|i: int| 0 <= i < encoded_view(b, url).len() implies (#[trigger] encoded_view(
        b,
        url,
    )[i]) != '"' by {
        if i < c.len() {
            assert(encoded_view(b, url)[i] == c[i]);
        } else {
            assert(encoded_view(b, url)[i] == '=');
        }
    }
}

/// The canonical encoding of any byte sequence decodes, under the same
/// alphabet, back to exactly that byte sequence.
pub proof fn lemma_encode_decode_round_trip(b: Seq<u8>, url: bool)
    ensures
        decode_ok(encoded_view(b, url), url),
        decoded_view(encoded_view(b, url), url) == b,
{
    let v = vals_of_bytes(b);
    let c = chars_of_vals(v, url);
    let e = encoded_view(b, url);
    lemma_vals_of_bytes_bounded(b);
    lemma_chars_of_vals_read_back(v, url);
    lemma_pad_indifference(c, pad_count(b.len() as int));
    assert(unpadded(c) == c) by {
        lemma_pad_suffix_from_scan(c, c.len() as int);
    }
    assert(unpadded(e) == c);
    lemma_vals_of_bytes_len(b);
    lemma_bytes_of_vals_of_bytes(b);
}

} // verus!
