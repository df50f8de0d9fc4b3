//! The two base64 alphabets.
//!
//! A 6-bit value is rendered as one character; the standard and the URL-safe
//! alphabet agree on the first 62 symbols and differ on the last two
//! (`+` `/` versus `-` `_`).  `=` is the padding symbol and belongs to
//! neither alphabet.

use vstd::prelude::*;

verus! {

/// The character that renders the 6-bit value `v` under the chosen alphabet
/// (`url` picks the URL-safe variant).
pub open spec fn char_for(v: int, url: bool) -> char {
    if 0 <= v < 26 {
        ((v + 65) as u8) as char
    } else if 26 <= v < 52 {
        ((v + 71) as u8) as char
    } else if 52 <= v < 62 {
        ((v - 4) as u8) as char
    } else if v == 62 {
        if url {
            '-'
        } else {
            '+'
        }
    } else {
        if url {
            '_'
        } else {
            '/'
        }
    }
}

/// The 6-bit value that the character `c` stands for under the chosen
/// alphabet, or -1 when `c` is not an alphabet character.
pub open spec fn value_of(c: char, url: bool) -> int {
    let n = c as int;
    if 65 <= n <= 90 {
        n - 65
    } else if 97 <= n <= 122 {
        n - 71
    } else if 48 <= n <= 57 {
        n + 4
    } else if !url && n == 43 {
        62
    } else if !url && n == 47 {
        63
    } else if url && n == 45 {
        62
    } else if url && n == 95 {
        63
    } else {
        -1
    }
}

/// Whether `c` is a (non-padding) character of the chosen alphabet.
pub open spec fn in_alphabet(c: char, url: bool) -> bool {
    value_of(c, url) >= 0
}

/// Rendering a 6-bit value and reading the character back returns the value.
pub proof fn lemma_char_for_value(v: int, url: bool)
    requires
        0 <= v < 64,
    ensures
        value_of(char_for(v, url), url) == v,
        in_alphabet(char_for(v, url), url),
{
}

/// Alphabet characters are never the padding symbol nor a quote, and always
/// differ from -1 on read-back, so an encoded string never collides with the
/// framing characters around it.
pub proof fn lemma_char_for_not_framing(v: int, url: bool)
    requires
        0 <= v < 64,
    ensures
        char_for(v, url) != '=',
        char_for(v, url) != '"',
{
    assert('=' as int == 61);
    assert('"' as int == 34);
    lemma_char_for_value(v, url);
}

/// Renders the 6-bit value `v` under the chosen alphabet.
pub fn encode_char(v: u8, url: bool) -> (c: char)
    requires
        v < 64,
    ensures
        c == char_for(v as int, url),
{
    if v < 26 {
        (v + 65) as char
    } else if v < 52 {
        (v + 71) as char
    } else if v < 62 {
        (v - 4) as char
    } else if v == 62 {
        if url {
            '-'
        } else {
            '+'
        }
    } else {
        if url {
            '_'
        } else {
            '/'
        }
    }
}

/// Reads a character back as its 6-bit value, or `None` when it is not in
/// the chosen alphabet.
pub fn decode_char(c: char, url: bool) -> (r: Option<u8>)
    ensures
        r is Some <==> in_alphabet(c, url),
        r is Some ==> r->0 == value_of(c, url),
{
    let n = c as u32;
    if n >= 65 && n <= 90 {
        Some((n - 65) as u8)
    } else if n >= 97 && n <= 122 {
        Some((n - 71) as u8)
    } else if n >= 48 && n <= 57 {
        Some((n + 4) as u8)
    } else if !url && n == 43 {
        Some(62)
    } else if !url && n == 47 {
        Some(63)
    } else if url && n == 45 {
        Some(62)
    } else if url && n == 95 {
        Some(63)
    } else {
        None
    }
}

} // verus!
