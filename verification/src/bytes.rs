//! Little-endian layout of the fixed-width integers used by the WZ format.

use vstd::prelude::*;

verus! {

/// The two bytes of `x`, least significant first.
pub open spec fn u16_le(x: u16) -> Seq<u8> {
    seq![(x & 0xff) as u8, ((x >> 8u16) & 0xff) as u16 as u8]
}

/// The value of two bytes read least significant first.
pub open spec fn u16_from_le(b0: u8, b1: u8) -> u16 {
    (b0 as u16) | ((b1 as u16) << 8u16)
}

/// The four bytes of `x`, least significant first.
pub open spec fn u32_le(x: u32) -> Seq<u8> {
    seq![
        (x & 0xff) as u8,
        ((x >> 8u32) & 0xff) as u8,
        ((x >> 16u32) & 0xff) as u8,
        ((x >> 24u32) & 0xff) as u8,
    ]
}

/// The value of four bytes read least significant first.
pub open spec fn u32_from_le(b0: u8, b1: u8, b2: u8, b3: u8) -> u32 {
    (b0 as u32) | ((b1 as u32) << 8u32) | ((b2 as u32) << 16u32) | ((b3 as u32) << 24u32)
}

/// The eight bytes of `x`, least significant first.
pub open spec fn u64_le(x: u64) -> Seq<u8> {
    u32_le((x & 0xffff_ffff) as u32) + u32_le((x >> 32u64) as u32)
}

/// The value of eight bytes read least significant first.
pub open spec fn u64_from_le(s: Seq<u8>) -> u64
    recommends
        s.len() == 8,
{
    (u32_from_le(s[0], s[1], s[2], s[3]) as u64) | ((u32_from_le(s[4], s[5], s[6], s[7]) as u64)
        << 32u64)
}

/// The value of the four bytes of `s` starting at `i`, least significant first.
pub open spec fn u32_at(s: Seq<u8>, i: int) -> u32 {
    u32_from_le(s[i], s[i + 1], s[i + 2], s[i + 3])
}

pub proof fn lemma_u16_le_roundtrip(x: u16)
    ensures
        u16_le(x).len() == 2,
        u16_from_le(u16_le(x)[0], u16_le(x)[1]) == x,
{
    assert(((x & 0xff) as u8 as u16) | (((x >> 8u16) & 0xff) as u16 as u8 as u16) << 8u16 == x)
        by (bit_vector);
}

pub proof fn lemma_u16_from_le_roundtrip(b0: u8, b1: u8)
    ensures
        u16_le(u16_from_le(b0, b1)) == seq![b0, b1],
{
    let x = u16_from_le(b0, b1);
    assert((x & 0xff) as u8 == b0 && ((x >> 8u16) & 0xff) as u16 as u8 == b1) by (bit_vector)
        requires
            x == (b0 as u16) | ((b1 as u16) << 8u16),
    ;
}

pub proof fn lemma_u32_le_roundtrip(x: u32)
    ensures
        u32_le(x).len() == 4,
        u32_at(u32_le(x), 0) == x,
{
    let s = u32_le(x);
    assert(u32_from_le(
        (x & 0xff) as u8,
        ((x >> 8u32) & 0xff) as u8,
        ((x >> 16u32) & 0xff) as u8,
        ((x >> 24u32) & 0xff) as u8,
    ) == x) by (bit_vector);
}

pub proof fn lemma_u32_from_le_roundtrip(b0: u8, b1: u8, b2: u8, b3: u8)
    ensures
        u32_le(u32_from_le(b0, b1, b2, b3)) == seq![b0, b1, b2, b3],
{
    let x = u32_from_le(b0, b1, b2, b3);
    assert((x & 0xff) as u8 == b0 && ((x >> 8u32) & 0xff) as u8 == b1 && ((x >> 16u32) & 0xff) as u8
        == b2 && ((x >> 24u32) & 0xff) as u8 == b3) by (bit_vector)
        requires
            x == (b0 as u32) | ((b1 as u32) << 8u32) | ((b2 as u32) << 16u32) | ((b3 as u32)
                << 24u32),
    ;
}

pub proof fn lemma_u64_le_roundtrip(x: u64)
    ensures
        u64_le(x).len() == 8,
        u64_from_le(u64_le(x)) == x,
{
    let lo = (x & 0xffff_ffff) as u32;
    let hi = (x >> 32u64) as u32;
    lemma_u32_le_roundtrip(lo);
    lemma_u32_le_roundtrip(hi);
    let s = u64_le(x);
    assert(u32_from_le(s[0], s[1], s[2], s[3]) == lo);
    assert(u32_from_le(s[4], s[5], s[6], s[7]) == hi);
    assert(((lo as u64) | ((hi as u64) << 32u64)) == x) by (bit_vector)
        requires
            lo == (x & 0xffff_ffff) as u32,
            hi == (x >> 32u64) as u32,
    ;
}

pub proof fn lemma_u64_from_le_roundtrip(s: Seq<u8>)
    requires
        s.len() == 8,
    ensures
        u64_le(u64_from_le(s)) == s,
{
    let lo = u32_from_le(s[0], s[1], s[2], s[3]);
    let hi = u32_from_le(s[4], s[5], s[6], s[7]);
    let x = u64_from_le(s);
    assert((x & 0xffff_ffff) as u32 == lo && (x >> 32u64) as u32 == hi) by (bit_vector)
        requires
            x == (lo as u64) | ((hi as u64) << 32u64),
    ;
    lemma_u32_from_le_roundtrip(s[0], s[1], s[2], s[3]);
    lemma_u32_from_le_roundtrip(s[4], s[5], s[6], s[7]);
    assert(u64_le(x) =~= s);
}

/// Appends the little-endian bytes of `x`.
pub fn push_u16_le(out: &mut Vec<u8>, x: u16)
    ensures
        final(out)@ == old(out)@ + u16_le(x),
{
    out.push((x & 0xff) as u8);
    out.push(((x >> 8u16) & 0xff) as u8);
    assert(final(out)@ =~= old(out)@ + u16_le(x));
}

/// Appends the little-endian bytes of `x`.
pub fn push_u32_le(out: &mut Vec<u8>, x: u32)
    ensures
        final(out)@ == old(out)@ + u32_le(x),
{
    out.push((x & 0xff) as u8);
    out.push(((x >> 8u32) & 0xff) as u8);
    out.push(((x >> 16u32) & 0xff) as u8);
    out.push(((x >> 24u32) & 0xff) as u8);
    assert(final(out)@ =~= old(out)@ + u32_le(x));
}

/// Appends the little-endian bytes of `x`.
pub fn push_u64_le(out: &mut Vec<u8>, x: u64)
    ensures
        final(out)@ == old(out)@ + u64_le(x),
{
    push_u32_le(out, (x & 0xffff_ffff) as u32);
    push_u32_le(out, (x >> 32u64) as u32);
    assert(final(out)@ =~= old(out)@ + u64_le(x));
}

/// Reads two little-endian bytes at `i`.
pub fn read_u16_le(s: &[u8], i: usize) -> (r: u16)
    requires
        i + 2 <= s@.len(),
    ensures
        r == u16_from_le(s@[i as int], s@[i + 1]),
{
    (s[i] as u16) | ((s[i + 1] as u16) << 8u16)
}

/// Reads four little-endian bytes at `i`.
pub fn read_u32_le(s: &[u8], i: usize) -> (r: u32)
    requires
        i + 4 <= s@.len(),
    ensures
        r == u32_at(s@, i as int),
{
    (s[i] as u32) | ((s[i + 1] as u32) << 8u32) | ((s[i + 2] as u32) << 16u32) | ((s[i + 3] as u32)
        << 24u32)
}

/// Reads eight little-endian bytes at `i`.
pub fn read_u64_le(s: &[u8], i: usize) -> (r: u64)
    requires
        i + 8 <= s@.len(),
    ensures
        r == u64_from_le(s@.subrange(i as int, i + 8)),
{
    let lo = read_u32_le(s, i);
    assert(s@.len() == s.len());
    let hi = read_u32_le(s, i + 4);
    (lo as u64) | ((hi as u64) << 32u64)
}


/// Two bytes read least significant first are `b0 + 256 * b1`, and as a signed 16-bit value
/// that number less 65536 when it is at least 32768.
pub proof fn lemma_u16_from_le_value(b0: u8, b1: u8)
    ensures
        u16_from_le(b0, b1) as int == b0 as int + 256 * b1 as int,
        (u16_from_le(b0, b1) as i16) as int == if b0 as int + 256 * b1 as int >= 0x8000 {
            b0 as int + 256 * b1 as int - 0x10000
        } else {
            b0 as int + 256 * b1 as int
        },
{
    let u = u16_from_le(b0, b1);
    assert(u as int == b0 as int + 256 * b1 as int && (u as i16) as int == if u >= 0x8000 {
        u - 0x10000
    } else {
        u as int
    }) by (bit_vector)
        requires
            u == (b0 as u16) | ((b1 as u16) << 8u16),
    ;
}

} // verus!
