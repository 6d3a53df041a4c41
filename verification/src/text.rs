//! Text on the wire is UTF-8.
//!
//! The view of a string is its sequence of characters; what travels is
//! `encode_utf8` of that view.  This module turns bytes back into strings and
//! collects the few facts about the encoding that the codec leans on.
//!
//! Turning bytes into a `String` is left to the standard library, and what
//! is said of that call here is believed, not proved.  It is the one place
//! in this crate where that is so.

use vstd::prelude::*;
use vstd::slice::slice_to_vec;
use vstd::utf8::*;

verus! {

/// Whether every byte is below `0x80`.
pub open spec fn is_ascii_bytes(bytes: Seq<u8>) -> bool {
    forall|i: int| 0 <= i < bytes.len() ==> #[trigger] bytes[i] < 0x80
}

/// The text that has one character per byte, with the byte's value.
pub open spec fn ascii_text(bytes: Seq<u8>) -> Seq<char> {
    Seq::new(bytes.len(), |i: int| bytes[i] as char)
}

/// No two texts have the same UTF-8 bytes.
pub proof fn lemma_utf8_injective(a: Seq<char>, b: Seq<char>)
    requires
        encode_utf8(a) == encode_utf8(b),
    ensures
        a == b,
{
    encode_utf8_decode_utf8(a);
    encode_utf8_decode_utf8(b);
}

/// A text takes at most four bytes to the character.
pub proof fn lemma_utf8_len_bound(text: Seq<char>)
    ensures
        encode_utf8(text).len() <= 4 * text.len(),
    decreases text.len(),
{
    if text.len() > 0 {
        lemma_utf8_len_bound(text.drop_first());
    }
}

/// ASCII bytes are the UTF-8 encoding of the text they spell.
pub proof fn lemma_ascii_utf8(bytes: Seq<u8>)
    requires
        is_ascii_bytes(bytes),
    ensures
        encode_utf8(ascii_text(bytes)) == bytes,
{
    let text = ascii_text(bytes);
    assert(is_ascii_chars(text)) by {
        assert forall|i: int| 0 <= i < text.len() implies '\0' <= #[trigger] text[i]
            <= '\u{7f}' by {
            assert(bytes[i] < 0x80);
        }
    }
    is_ascii_chars_encode_utf8(text);
    assert(encode_utf8(text) =~= bytes) by {
        assert forall|i: int| 0 <= i < bytes.len() implies encode_utf8(text)[i] == bytes[i] by {
            assert(text[i] as u8 == encode_utf8(text)[i]);
            assert(bytes[i] < 0x80);
        }
    }
}

/// `String::from_utf8` of the standard library.  It returns a string
/// exactly when the bytes are well-formed UTF-8, and the string it returns is
/// made of those bytes.
#[verifier::external_body]
pub(crate) fn string_from_utf8(bytes: Vec<u8>) -> (r: Option<String>)
    ensures
        r is Some <==> valid_utf8(bytes@),
        r matches Some(text) ==> encode_utf8(text@) == bytes@,
{
    match String::from_utf8(bytes) {
        Ok(text) => Some(text),
        Err(_) => None,
    }
}

/// The string whose UTF-8 encoding is `bytes`, or `None` when `bytes` is the
/// encoding of no text at all.
pub fn text_from_bytes(bytes: &[u8]) -> (r: Option<String>)
    ensures
        r matches Some(text) ==> encode_utf8(text@) == bytes@,
        r is None ==> forall|t: Seq<char>| #[trigger] encode_utf8(t) != bytes@,
{
    let r = string_from_utf8(slice_to_vec(bytes));
    proof {
        if r is None {
            assert forall|t: Seq<char>| #[trigger] encode_utf8(t) != bytes@ by {
                encode_utf8_valid_utf8(t);
            }
        }
    }
    r
}

} // verus!
