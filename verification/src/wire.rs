//! Fixed-width integers on the wire, most significant byte first.
//!
//! Every layout is given twice: as a function from a value to its bytes,
//! which is the definition, and as the function that reads the bytes back.
//! The lemmas say that the two undo each other, so no two values share a
//! layout and every byte string of the right length is the layout of exactly
//! one value.

use vstd::arithmetic::div_mod::lemma_fundamental_div_mod_converse;
use vstd::prelude::*;

verus! {

/// The four bytes of `x`, most significant first.
pub open spec fn u32_bytes(x: u32) -> Seq<u8> {
    seq![
        (x / 0x100_0000) as u8,
        (x / 0x1_0000 % 0x100) as u8,
        (x / 0x100 % 0x100) as u8,
        (x % 0x100) as u8,
    ]
}

/// The number whose four bytes are `b`.
pub open spec fn u32_value(b: Seq<u8>) -> u32
    recommends
        b.len() == 4,
{
    (b[0] * 0x100_0000 + b[1] * 0x1_0000 + b[2] * 0x100 + b[3]) as u32
}

/// The eight bytes of `x`, most significant first.
pub open spec fn u64_bytes(x: u64) -> Seq<u8> {
    u32_bytes((x / 0x1_0000_0000) as u32) + u32_bytes((x % 0x1_0000_0000) as u32)
}

/// The number whose eight bytes are `b`.
pub open spec fn u64_value(b: Seq<u8>) -> u64
    recommends
        b.len() == 8,
{
    (u32_value(b.subrange(0, 4)) * 0x1_0000_0000 + u32_value(b.subrange(4, 8))) as u64
}

/// The two's-complement pattern of `x`.
pub open spec fn i32_bits(x: i32) -> u32 {
    if x >= 0 {
        x as u32
    } else {
        (x + 0x1_0000_0000) as u32
    }
}

/// The signed number whose two's-complement pattern is `u`.
pub open spec fn i32_of_bits(u: u32) -> i32 {
    if u < 0x8000_0000 {
        u as i32
    } else {
        (u - 0x1_0000_0000) as i32
    }
}

/// The four bytes of a signed number: those of its two's-complement pattern.
pub open spec fn i32_bytes(x: i32) -> Seq<u8> {
    u32_bytes(i32_bits(x))
}

/// The signed number whose four bytes are `b`.
pub open spec fn i32_value(b: Seq<u8>) -> i32
    recommends
        b.len() == 4,
{
    i32_of_bits(u32_value(b))
}

/// The byte that stands for a flag: one for `true`, zero for `false`.
pub open spec fn bool_byte(flag: bool) -> u8 {
    if flag {
        1
    } else {
        0
    }
}

/// The digits of a four-digit number in base 256 can be read off it.
proof fn lemma_base_256_digits(d0: int, d1: int, d2: int, d3: int)
    requires
        0 <= d0 < 0x100,
        0 <= d1 < 0x100,
        0 <= d2 < 0x100,
        0 <= d3 < 0x100,
    ensures
        ({
            let v = d0 * 0x100_0000 + d1 * 0x1_0000 + d2 * 0x100 + d3;
            &&& 0 <= v < 0x1_0000_0000
            &&& v / 0x100_0000 == d0
            &&& v / 0x1_0000 % 0x100 == d1
            &&& v / 0x100 % 0x100 == d2
            &&& v % 0x100 == d3
        }),
{
    let v = d0 * 0x100_0000 + d1 * 0x1_0000 + d2 * 0x100 + d3;
    let top2 = d0 * 0x100 + d1;
    let top3 = top2 * 0x100 + d2;
    lemma_fundamental_div_mod_converse(v, 0x100_0000, d0, d1 * 0x1_0000 + d2 * 0x100 + d3);
    lemma_fundamental_div_mod_converse(v, 0x1_0000, top2, d2 * 0x100 + d3);
    lemma_fundamental_div_mod_converse(top2, 0x100, d0, d1);
    lemma_fundamental_div_mod_converse(v, 0x100, top3, d3);
    lemma_fundamental_div_mod_converse(top3, 0x100, top2, d2);
}

/// Reading the bytes of a `u32` gives the number back.
pub proof fn lemma_u32_value_of_bytes(x: u32)
    ensures
        u32_bytes(x).len() == 4,
        u32_value(u32_bytes(x)) == x,
{
    let low1 = x as int / 0x100;
    let low2 = low1 / 0x100;
    let low3 = low2 / 0x100;
    let d3 = x as int % 0x100;
    let d2 = low1 % 0x100;
    let d1 = low2 % 0x100;
    assert(x == low3 * 0x100_0000 + d1 * 0x1_0000 + d2 * 0x100 + d3);
    lemma_base_256_digits(low3, d1, d2, d3);
}

/// Four bytes are the layout of the number they read as.
pub proof fn lemma_u32_bytes_of_value(b: Seq<u8>)
    requires
        b.len() == 4,
    ensures
        u32_bytes(u32_value(b)) == b,
{
    lemma_base_256_digits(b[0] as int, b[1] as int, b[2] as int, b[3] as int);
    assert(u32_bytes(u32_value(b)) =~= b);
}

/// Reading the bytes of a `u64` gives the number back.
pub proof fn lemma_u64_value_of_bytes(x: u64)
    ensures
        u64_bytes(x).len() == 8,
        u64_value(u64_bytes(x)) == x,
{
    let hi = (x / 0x1_0000_0000) as u32;
    let lo = (x % 0x1_0000_0000) as u32;
    assert(x == hi * 0x1_0000_0000 + lo);
    lemma_u32_value_of_bytes(hi);
    lemma_u32_value_of_bytes(lo);
    assert(u64_bytes(x).subrange(0, 4) =~= u32_bytes(hi));
    assert(u64_bytes(x).subrange(4, 8) =~= u32_bytes(lo));
}

/// Eight bytes are the layout of the number they read as.
pub proof fn lemma_u64_bytes_of_value(b: Seq<u8>)
    requires
        b.len() == 8,
    ensures
        u64_bytes(u64_value(b)) == b,
{
    let hi = u32_value(b.subrange(0, 4));
    let lo = u32_value(b.subrange(4, 8));
    lemma_u32_bytes_of_value(b.subrange(0, 4));
    lemma_u32_bytes_of_value(b.subrange(4, 8));
    let x = u64_value(b);
    assert(x == hi * 0x1_0000_0000 + lo);
    lemma_fundamental_div_mod_converse(x as int, 0x1_0000_0000, hi as int, lo as int);
    assert(u64_bytes(x) =~= b);
}

/// A signed number and its two's-complement pattern determine each other.
pub proof fn lemma_i32_bits(x: i32, u: u32)
    ensures
        i32_of_bits(i32_bits(x)) == x,
        i32_bits(i32_of_bits(u)) == u,
{
}

/// Appends the layout of `x` to `out`.
pub fn put_u32(out: &mut Vec<u8>, x: u32)
    ensures
        final(out)@ == old(out)@ + u32_bytes(x),
{
    out.push((x / 0x100_0000) as u8);
    out.push((x / 0x1_0000 % 0x100) as u8);
    out.push((x / 0x100 % 0x100) as u8);
    out.push((x % 0x100) as u8);
    assert(out@ =~= old(out)@ + u32_bytes(x));
}

/// Reads the `u32` laid out at `at`.
pub fn get_u32(bytes: &[u8], at: usize) -> (x: u32)
    requires
        at + 4 <= bytes@.len(),
    ensures
        x == u32_value(bytes@.subrange(at as int, at + 4)),
{
    let b0: u32 = bytes[at] as u32;
    let b1: u32 = bytes[at + 1] as u32;
    let b2: u32 = bytes[at + 2] as u32;
    let b3: u32 = bytes[at + 3] as u32;
    b0 * 0x100_0000 + b1 * 0x1_0000 + b2 * 0x100 + b3
}

/// Appends the layout of `x` to `out`.
pub fn put_u64(out: &mut Vec<u8>, x: u64)
    ensures
        final(out)@ == old(out)@ + u64_bytes(x),
{
    put_u32(out, (x / 0x1_0000_0000) as u32);
    put_u32(out, (x % 0x1_0000_0000) as u32);
    assert(out@ =~= old(out)@ + u64_bytes(x));
}

/// Reads the `u64` laid out at `at`.
pub fn get_u64(bytes: &[u8], at: usize) -> (x: u64)
    requires
        at + 8 <= bytes@.len(),
    ensures
        x == u64_value(bytes@.subrange(at as int, at + 8)),
{
    assert(bytes@.len() == bytes.len());
    let hi: u64 = get_u32(bytes, at) as u64;
    let lo: u64 = get_u32(bytes, at + 4) as u64;
    proof {
        let field = bytes@.subrange(at as int, at + 8);
        assert(field.subrange(0, 4) =~= bytes@.subrange(at as int, at + 4));
        assert(field.subrange(4, 8) =~= bytes@.subrange(at + 4, at + 8));
    }
    hi * 0x1_0000_0000 + lo
}

/// The two's-complement pattern of `x`.
pub fn i32_to_bits(x: i32) -> (u: u32)
    ensures
        u == i32_bits(x),
{
    if x >= 0 {
        x as u32
    } else {
        (x as i64 + 0x1_0000_0000) as u32
    }
}

/// The signed number whose two's-complement pattern is `u`.
pub fn i32_from_bits(u: u32) -> (x: i32)
    ensures
        x == i32_of_bits(u),
{
    if u < 0x8000_0000 {
        u as i32
    } else {
        (u as i64 - 0x1_0000_0000) as i32
    }
}

/// Appends the layout of `x` to `out`.
pub fn put_i32(out: &mut Vec<u8>, x: i32)
    ensures
        final(out)@ == old(out)@ + i32_bytes(x),
{
    put_u32(out, i32_to_bits(x));
}

/// Reads the `i32` laid out at `at`.
pub fn get_i32(bytes: &[u8], at: usize) -> (x: i32)
    requires
        at + 4 <= bytes@.len(),
    ensures
        x == i32_value(bytes@.subrange(at as int, at + 4)),
{
    i32_from_bits(get_u32(bytes, at))
}

/// Appends `src` to `out`.
pub fn put_bytes(out: &mut Vec<u8>, src: &[u8])
    ensures
        final(out)@ == old(out)@ + src@,
{
    let mut i: usize = 0;
    assert(out@ =~= old(out)@ + src@.take(0));
    while i < src.len()
        invariant
            i <= src@.len(),
            out@ == old(out)@ + src@.take(i as int),
        decreases src@.len() - i,
    {
        assert(old(out)@ + src@.take(i as int).push(src@[i as int]) =~= old(out)@ + src@.take(
            i + 1,
        ));
        out.push(src[i]);
        i += 1;
    }
    assert(src@.take(i as int) =~= src@);
}

/// Whether two byte strings are the same.
pub fn bytes_equal(a: &[u8], b: &[u8]) -> (same: bool)
    ensures
        same == (a@ == b@),
{
    if a.len() != b.len() {
        return false;
    }
    let mut i: usize = 0;
    while i < a.len()
        invariant
            a@.len() == b@.len(),
            i <= a@.len(),
            a@.take(i as int) == b@.take(i as int),
        decreases a@.len() - i,
    {
        if a[i] != b[i] {
            return false;
        }
        assert(a@.take(i + 1) =~= a@.take(i as int).push(a@[i as int]));
        assert(b@.take(i + 1) =~= b@.take(i as int).push(b@[i as int]));
        i += 1;
    }
    assert(a@.take(i as int) =~= a@);
    assert(b@.take(i as int) =~= b@);
    true
}

/// Appends the byte that stands for `flag`.
pub fn put_bool(out: &mut Vec<u8>, flag: bool)
    ensures
        final(out)@ == old(out)@.push(bool_byte(flag)),
{
    out.push(if flag { 1 } else { 0 });
}

/// Reads a flag: `None` unless the byte is zero or one.
pub fn get_bool(byte: u8) -> (r: Option<bool>)
    ensures
        r matches Some(flag) ==> byte == bool_byte(flag),
        r is None ==> forall|flag: bool| byte != bool_byte(flag),
{
    if byte == 0 {
        Some(false)
    } else if byte == 1 {
        Some(true)
    } else {
        None
    }
}

} // verus!
