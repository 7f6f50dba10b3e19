//! Hexadecimal coding of packet payloads.
//!
//! The exact meaning of hex strings is pinned down by the spec functions
//! here; the byte work itself is done by the `hex` crate behind trusted
//! wrappers whose contracts state that meaning.

use vstd::prelude::*;

verus! {

/// A hexadecimal digit character, either case.
pub open spec fn hex_digit_ok(c: char) -> bool {
    ||| 48 <= c as int <= 57  // '0'..'9'
    ||| 97 <= c as int <= 102  // 'a'..'f'
    ||| 65 <= c as int <= 70  // 'A'..'F'
}

/// Numeric value of a hexadecimal digit character.
pub open spec fn hex_val(c: char) -> int {
    if 48 <= c as int <= 57 {
        c as int - 48
    } else if 97 <= c as int <= 102 {
        c as int - 87
    } else {
        c as int - 55
    }
}

/// A well-formed hex string: even length, hexadecimal digits throughout.
pub open spec fn is_hex_seq(s: Seq<char>) -> bool {
    &&& s.len() % 2 == 0
    &&& forall|i: int| 0 <= i < s.len() ==> hex_digit_ok(#[trigger] s[i])
}

/// The bytes a well-formed hex string denotes: one byte per digit pair,
/// high nibble first.
pub open spec fn hex_bytes(s: Seq<char>) -> Seq<u8> {
    Seq::new((s.len() / 2) as nat, |i: int| (hex_val(s[2 * i]) * 16 + hex_val(s[2 * i + 1])) as u8)
}

/// The lower-case hex digit for a nibble value.
pub open spec fn hex_char(v: int) -> char {
    if v < 10 {
        ((48 + v) as u8) as char
    } else {
        ((87 + v) as u8) as char
    }
}

/// The lower-case hex string denoting `b`: two digits per byte.
pub open spec fn hex_of_bytes(b: Seq<u8>) -> Seq<char> {
    Seq::new(2 * b.len(), |i: int|
        if i % 2 == 0 {
            hex_char(b[i / 2] as int / 16)
        } else {
            hex_char(b[i / 2] as int % 16)
        })
}

proof fn lemma_hex_char_val(v: int)
    requires
        0 <= v < 16,
    ensures
        hex_digit_ok(hex_char(v)),
        hex_val(hex_char(v)) == v,
{
    if v < 10 {
        assert(hex_char(v) as int == 48 + v);
    } else {
        assert(hex_char(v) as int == 87 + v);
    }
}

/// Lower-case hex encoding always decodes back to the bytes it came from.
pub proof fn lemma_hex_round_trip(b: Seq<u8>)
    ensures
        is_hex_seq(hex_of_bytes(b)),
        hex_bytes(hex_of_bytes(b)) =~= b,
{
    let s = hex_of_bytes(b);
    assert forall|i: int| 0 <= i < s.len() implies hex_digit_ok(#[trigger] s[i]) by {
        if i % 2 == 0 {
            lemma_hex_char_val(b[i / 2] as int / 16);
        } else {
            lemma_hex_char_val(b[i / 2] as int % 16);
        }
    }
    assert forall|i: int| 0 <= i < b.len() implies hex_bytes(s)[i] == b[i] by {
        assert(s[2 * i] == hex_char(b[i] as int / 16));
        assert(s[2 * i + 1] == hex_char(b[i] as int % 16));
        lemma_hex_char_val(b[i] as int / 16);
        lemma_hex_char_val(b[i] as int % 16);
        assert(b[i] as int == (b[i] as int / 16) * 16 + (b[i] as int % 16));
    }
}

/// Relies on `hex::decode` (hex 0.4): accepts exactly even-length strings of
/// hex digits in either case, and maps each digit pair to one byte, high
/// nibble first.
#[verifier::external_body]
pub fn hex_decode(s: &str) -> (r: Option<Vec<u8>>)
    ensures
        r is Some <==> is_hex_seq(s@),
        r is Some ==> r.unwrap()@ == hex_bytes(s@),
{
    match hex::decode(s) {
        Ok(v) => Some(v),
        Err(_) => None,
    }
}

/// Relies on `hex::encode` (hex 0.4): two lower-case hex digits per input
/// byte, high nibble first.
#[verifier::external_body]
pub fn hex_encode(b: &[u8]) -> (r: String)
    ensures
        r@ == hex_of_bytes(b@),
{
    hex::encode(b)
}

} // verus!
