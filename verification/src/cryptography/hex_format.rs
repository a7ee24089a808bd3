//! The hexadecimal wire format of encryption tokens.
//!
//! A token is the lowercase hex rendering of `nonce || ciphertext+tag`.
//! `hex_of` states that rendering; `valid_hex` and `hex_val` state which
//! strings decode and to which bytes. `lemma_hex_round_trip` ties the two
//! directions together.

use vstd::prelude::*;

verus! {

/// The hexadecimal digit character for a value below sixteen, lowercase.
pub open spec fn hex_digit_char(d: u8) -> char
    recommends
        d < 16,
{
    if d < 10 {
        (((48 + d) as u8) as char)
    } else {
        (((87 + d) as u8) as char)
    }
}

/// A character the hex decoder accepts: a digit, or a letter `a`-`f` in
/// either case.
pub open spec fn is_hex_char(c: char) -> bool {
    (48 <= c as u32 && c as u32 <= 57) || (97 <= c as u32 && c as u32 <= 102) || (65 <= c as u32
        && c as u32 <= 70)
}

/// The value of a hexadecimal digit character.
pub open spec fn hex_char_val(c: char) -> u8
    recommends
        is_hex_char(c),
{
    if 48 <= c as u32 && c as u32 <= 57 {
        ((c as u32 - 48) as u8)
    } else if 97 <= c as u32 && c as u32 <= 102 {
        ((c as u32 - 87) as u8)
    } else {
        ((c as u32 - 55) as u8)
    }
}

/// The lowercase hex rendering of a byte sequence: two digits per byte,
/// high digit first.
pub open spec fn hex_of(b: Seq<u8>) -> Seq<char>
    decreases b.len(),
{
    if b.len() == 0 {
        Seq::empty()
    } else {
        seq![hex_digit_char(b[0] / 16), hex_digit_char(b[0] % 16)] + hex_of(b.drop_first())
    }
}

/// A string the hex decoder accepts: even length, hex digits throughout.
pub open spec fn valid_hex(s: Seq<char>) -> bool {
    s.len() % 2 == 0 && forall|i: int| 0 <= i < s.len() ==> is_hex_char(#[trigger] s[i])
}

/// The bytes a hex string denotes, one byte per digit pair.
pub open spec fn hex_val(s: Seq<char>) -> Seq<u8>
    decreases s.len(),
{
    if s.len() < 2 {
        Seq::empty()
    } else {
        seq![((hex_char_val(s[0]) * 16 + hex_char_val(s[1])) as u8)] + hex_val(s.skip(2))
    }
}

/// Each digit character produced by `hex_digit_char` is accepted by the
/// decoder and denotes the value it was produced from.
pub proof fn lemma_hex_digit_char_val(d: u8)
    requires
        d < 16,
    ensures
        is_hex_char(hex_digit_char(d)),
        hex_char_val(hex_digit_char(d)) == d,
{
}

/// Rendering bytes as hex and decoding the result returns the bytes:
/// `hex_of` always yields a valid hex string, twice as long as the input,
/// and `hex_val` inverts it.
pub proof fn lemma_hex_round_trip(b: Seq<u8>)
    ensures
        valid_hex(hex_of(b)),
        hex_of(b).len() == 2 * b.len(),
        hex_val(hex_of(b)) == b,
    decreases b.len(),
{
    if b.len() == 0 {
        assert(hex_val(hex_of(b)) =~= b);
    } else {
        let hi = (b[0] / 16) as u8;
        let lo = (b[0] % 16) as u8;
        lemma_hex_digit_char_val(hi);
        lemma_hex_digit_char_val(lo);
        lemma_hex_round_trip(b.drop_first());
        let rest = hex_of(b.drop_first());
        let s = hex_of(b);
        assert(s == seq![hex_digit_char(hi), hex_digit_char(lo)] + rest);
        assert forall|i: int| 0 <= i < s.len() implies is_hex_char(#[trigger] s[i]) by {
            if i >= 2 {
                assert(s[i] == rest[i - 2]);
            }
        }
        assert(s.skip(2) =~= rest);
        assert(hex_char_val(s[0]) * 16 + hex_char_val(s[1]) == b[0]);
        assert(hex_val(s) =~= b);
    }
}

} // verus!
