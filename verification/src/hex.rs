//! Hexadecimal armour: arbitrary bytes as text.
//!
//! An envelope carries its packet as a string.  A packet's bytes are written
//! two lowercase hexadecimal digits to the byte, high digit first, so that
//! any byte string becomes ASCII text and comes back unchanged.

use crate::text::{ascii_text, is_ascii_bytes, lemma_ascii_utf8, lemma_utf8_injective, string_from_utf8};
use vstd::prelude::*;
use vstd::utf8::*;

verus! {

/// The ASCII code of the digit for `n`, lowercase.
pub open spec fn hex_digit(n: u8) -> u8
    recommends
        n < 16,
{
    if n < 10 {
        (0x30 + n) as u8
    } else {
        (0x57 + n) as u8
    }
}

/// The ASCII codes of the armour of `bytes`.
pub open spec fn hex_ascii(bytes: Seq<u8>) -> Seq<u8> {
    Seq::new(
        2 * bytes.len(),
        |j: int|
            if j % 2 == 0 {
                hex_digit(bytes[j / 2] / 16)
            } else {
                hex_digit(bytes[j / 2] % 16)
            },
    )
}

/// The armour of `bytes`: twice as many characters as there are bytes.
pub open spec fn hex_text(bytes: Seq<u8>) -> Seq<char> {
    ascii_text(hex_ascii(bytes))
}

/// On the wire, the armour is its ASCII codes.
pub proof fn lemma_hex_text_utf8(bytes: Seq<u8>)
    ensures
        encode_utf8(hex_text(bytes)) == hex_ascii(bytes),
{
    assert(is_ascii_bytes(hex_ascii(bytes)));
    lemma_ascii_utf8(hex_ascii(bytes));
}

/// Where the two digits of byte `i` stand in the armour.
pub proof fn lemma_hex_ascii_pair(bytes: Seq<u8>, i: int)
    requires
        0 <= i < bytes.len(),
    ensures
        hex_ascii(bytes).len() == 2 * bytes.len(),
        hex_ascii(bytes)[2 * i] == hex_digit(bytes[i] / 16),
        hex_ascii(bytes)[2 * i + 1] == hex_digit(bytes[i] % 16),
{
    assert((2 * i) % 2 == 0 && (2 * i) / 2 == i);
    assert((2 * i + 1) % 2 == 1 && (2 * i + 1) / 2 == i);
}

/// The armour of a byte string grows by two digits with each byte.
pub proof fn lemma_hex_ascii_push(bytes: Seq<u8>, b: u8)
    ensures
        hex_ascii(bytes.push(b)) == hex_ascii(bytes).push(hex_digit(b / 16)).push(
            hex_digit(b % 16),
        ),
{
    let whole = hex_ascii(bytes.push(b));
    let grown = hex_ascii(bytes).push(hex_digit(b / 16)).push(hex_digit(b % 16));
    assert(whole.len() == grown.len());
    assert forall|j: int| 0 <= j < whole.len() implies whole[j] == grown[j] by {
        if j < 2 * bytes.len() {
            assert(bytes.push(b)[j / 2] == bytes[j / 2]);
        } else {
            assert(j / 2 == bytes.len());
            assert(bytes.push(b)[j / 2] == b);
        }
    }
    assert(whole =~= grown);
}

/// Byte strings with the same ASCII armour are the same.
pub proof fn lemma_hex_ascii_injective(a: Seq<u8>, b: Seq<u8>)
    requires
        hex_ascii(a) == hex_ascii(b),
    ensures
        a == b,
{
    assert(hex_ascii(a).len() == 2 * a.len());
    assert(hex_ascii(b).len() == 2 * b.len());
    assert forall|i: int| 0 <= i < a.len() implies a[i] == b[i] by {
        lemma_hex_ascii_pair(a, i);
        lemma_hex_ascii_pair(b, i);
    }
    assert(a =~= b);
}

/// Byte strings with the same armour are the same.
pub proof fn lemma_hex_text_injective(a: Seq<u8>, b: Seq<u8>)
    requires
        hex_text(a) == hex_text(b),
    ensures
        a == b,
{
    lemma_hex_text_utf8(a);
    lemma_hex_text_utf8(b);
    lemma_hex_ascii_injective(a, b);
}

/// The ASCII code of the digit for `n`.
fn digit_of(n: u8) -> (c: u8)
    requires
        n < 16,
    ensures
        c == hex_digit(n),
{
    if n < 10 {
        0x30 + n
    } else {
        0x57 + n
    }
}

/// The number that the ASCII code `c` is the digit of, if it is a digit.
fn digit_value(c: u8) -> (r: Option<u8>)
    ensures
        r matches Some(n) ==> n < 16 && hex_digit(n) == c,
        r is None ==> forall|n: u8| n < 16 ==> #[trigger] hex_digit(n) != c,
{
    if 0x30 <= c && c <= 0x39 {
        Some(c - 0x30)
    } else if 0x61 <= c && c <= 0x66 {
        Some(c - 0x57)
    } else {
        None
    }
}

/// Writes `bytes` as text.
pub fn to_hex(bytes: &[u8]) -> (text: String)
    ensures
        text@ == hex_text(bytes@),
{
    let mut out: Vec<u8> = Vec::new();
    let mut i: usize = 0;
    while i < bytes.len()
        invariant
            i <= bytes@.len(),
            out@ == hex_ascii(bytes@.take(i as int)),
        decreases bytes@.len() - i,
    {
        let b: u8 = bytes[i];
        proof {
            lemma_hex_ascii_push(bytes@.take(i as int), b);
            assert(bytes@.take(i as int).push(b) =~= bytes@.take(i + 1));
        }
        out.push(digit_of(b / 16));
        out.push(digit_of(b % 16));
        i += 1;
    }
    proof {
        assert(bytes@.take(i as int) =~= bytes@);
        lemma_hex_text_utf8(bytes@);
        encode_utf8_valid_utf8(hex_text(bytes@));
    }
    let text = string_from_utf8(out).unwrap();
    proof {
        lemma_utf8_injective(text@, hex_text(bytes@));
    }
    text
}

/// Reads text back into the bytes it is the armour of.  `None` when the text
/// is no armour: an odd number of characters, or a character that is not a
/// lowercase hexadecimal digit.
pub fn from_hex(text: &str) -> (r: Option<Vec<u8>>)
    ensures
        r matches Some(bytes) ==> hex_text(bytes@) == text@,
        r is None ==> forall|b: Seq<u8>| #[trigger] hex_text(b) != text@,
{
    let raw = text.as_bytes();
    let n: usize = raw.len();
    if n % 2 != 0 {
        proof {
            assert forall|b: Seq<u8>| #[trigger] hex_text(b) != text@ by {
                lemma_hex_text_utf8(b);
            }
        }
        return None;
    }
    let mut out: Vec<u8> = Vec::new();
    let mut i: usize = 0;
    while i < n / 2
        invariant
            n == raw@.len(),
            raw@ == encode_utf8(text@),
            n % 2 == 0,
            i <= n / 2,
            out@.len() == i,
            hex_ascii(out@) == raw@.take(2 * i),
        decreases n / 2 - i,
    {
        let hi = digit_value(raw[2 * i]);
        let lo = digit_value(raw[2 * i + 1]);
        if hi.is_none() || lo.is_none() {
            proof {
                assert forall|b: Seq<u8>| #[trigger] hex_text(b) != text@ by {
                    lemma_hex_text_utf8(b);
                    if hex_text(b) == text@ {
                        lemma_hex_ascii_pair(b, i as int);
                    }
                }
            }
            return None;
        }
        let h: u8 = hi.unwrap();
        let l: u8 = lo.unwrap();
        proof {
            lemma_hex_ascii_push(out@, (h * 16 + l) as u8);
            assert(raw@.take(2 * i).push(raw@[2 * i]).push(raw@[2 * i + 1]) =~= raw@.take(
                2 * (i + 1),
            ));
        }
        out.push(h * 16 + l);
        i += 1;
    }
    proof {
        assert(raw@.take(2 * i) =~= raw@);
        lemma_hex_text_utf8(out@);
        lemma_utf8_injective(text@, hex_text(out@));
    }
    Some(out)
}

} // verus!
