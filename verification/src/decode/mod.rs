//! Decoding of the primitive values of the WZ format

pub mod decoder;
pub mod error;

pub use decoder::{SliceDecoder, Stream};
pub use error::{Error, ErrorCode};

use crate::bytes::{u16_from_le, u32_at, u64_from_le};
use crate::cipher::{key_byte, spec_crypt};
use crate::text::{string_from_utf16, string_from_utf8, utf16_decode};
use decoder::{spec_take, spec_u32, SpecResult};
use vstd::prelude::*;
use vstd::utf8::valid_utf8;

verus! {

/// `r` is what a decode that the spec `expected` describes returns, and `end` the position
/// after it: the value (by its view) and the end position on success, the error kind on
/// failure.
pub open spec fn decodes_as<T: View>(
    r: Result<T, Error>,
    expected: SpecResult<T::V>,
    end: int,
) -> bool {
    match expected {
        Ok((v, p)) => r matches Ok(x) && x@ == v && end == p,
        Err(c) => r matches Err(e) && e.spec_code() == c,
    }
}

/// The byte at `pos`.
pub open spec fn spec_u8(s: Stream, pos: int) -> SpecResult<u8> {
    if 0 <= pos && pos + 1 <= s.data.len() {
        Ok((s.data[pos], pos + 1))
    } else {
        Err(ErrorCode::Io)
    }
}

/// The signed byte at `pos`.
pub open spec fn spec_i8(s: Stream, pos: int) -> SpecResult<i8> {
    match spec_u8(s, pos) {
        Ok((b, p)) => Ok((b as i8, p)),
        Err(e) => Err(e),
    }
}

/// The unsigned 16-bit integer at `pos`.
pub open spec fn spec_u16(s: Stream, pos: int) -> SpecResult<u16> {
    if 0 <= pos && pos + 2 <= s.data.len() {
        Ok((u16_from_le(s.data[pos], s.data[pos + 1]), pos + 2))
    } else {
        Err(ErrorCode::Io)
    }
}

/// The signed 16-bit integer at `pos`.
pub open spec fn spec_i16(s: Stream, pos: int) -> SpecResult<i16> {
    match spec_u16(s, pos) {
        Ok((v, p)) => Ok((v as i16, p)),
        Err(e) => Err(e),
    }
}

/// The signed 32-bit integer at `pos`.
pub open spec fn spec_i32(s: Stream, pos: int) -> SpecResult<i32> {
    match spec_u32(s, pos) {
        Ok((v, p)) => Ok((v as i32, p)),
        Err(e) => Err(e),
    }
}

/// The unsigned 64-bit integer at `pos`.
pub open spec fn spec_u64(s: Stream, pos: int) -> SpecResult<u64> {
    if 0 <= pos && pos + 8 <= s.data.len() {
        Ok((u64_from_le(s.data.subrange(pos, pos + 8)), pos + 8))
    } else {
        Err(ErrorCode::Io)
    }
}

/// The signed 64-bit integer at `pos`.
pub open spec fn spec_i64(s: Stream, pos: int) -> SpecResult<i64> {
    match spec_u64(s, pos) {
        Ok((v, p)) => Ok((v as i64, p)),
        Err(e) => Err(e),
    }
}

/// The bits of the compressed 32-bit float at `pos`: a marker byte `0x80` is followed by
/// the float's four bytes; any other marker stands for zero.
pub open spec fn spec_f32_bits(s: Stream, pos: int) -> SpecResult<u32> {
    match spec_u8(s, pos) {
        Ok((tag, p)) => if tag == 0x80 {
            spec_u32(s, p)
        } else {
            Ok((0u32, p))
        },
        Err(e) => Err(e),
    }
}

/// The bits of the 64-bit float at `pos`.
pub open spec fn spec_f64_bits(s: Stream, pos: int) -> SpecResult<u64> {
    spec_u64(s, pos)
}

/// The mask XOR-ed with the `i`-th byte of a UTF-8 string.
pub open spec fn mask8(i: int) -> u8 {
    ((0xaa + i) % 256) as u8
}

/// The mask XOR-ed with the `i`-th code unit of a UTF-16 string.
pub open spec fn mask16(i: int) -> u16 {
    ((0xaaaa + i) % 65536) as u16
}

/// Bytes XOR-ed with the UTF-8 string mask.
pub open spec fn spec_mask_bytes(b: Seq<u8>) -> Seq<u8> {
    Seq::new(b.len(), |i: int| b[i] ^ mask8(i))
}

/// Pairs of bytes read as little-endian code units and XOR-ed with the UTF-16 string mask.
pub open spec fn spec_unmask_units(b: Seq<u8>) -> Seq<u16> {
    Seq::new(b.len() / 2, |i: int| u16_from_le(b[2 * i], b[2 * i + 1]) ^ mask16(i))
}

/// The length announced by a string's marker byte `check`, read at `pos` (the position after
/// the marker). The markers `i8::MIN` and `i8::MAX` are followed by a 32-bit length.
pub open spec fn spec_string_length(s: Stream, check: i8, pos: int) -> SpecResult<i32> {
    if check == i8::MIN || check == i8::MAX {
        spec_i32(s, pos)
    } else if check < 0 {
        Ok(((-check) as i32, pos))
    } else {
        Ok((check as i32, pos))
    }
}

/// The string at `pos`. A marker byte gives the length and the encoding (negative: masked
/// UTF-8 bytes, positive: masked UTF-16 code units); the body is decrypted with the key
/// stream and unmasked.
pub open spec fn spec_string(s: Stream, pos: int) -> SpecResult<Seq<char>> {
    match spec_i8(s, pos) {
        Err(e) => Err(e),
        Ok((check, p1)) => if check == 0 {
            Ok((Seq::empty(), p1))
        } else {
            match spec_string_length(s, check, p1) {
                Err(e) => Err(e),
                Ok((length, p2)) => if length <= 0 {
                    Err(ErrorCode::Length)
                } else if check < 0 {
                    match spec_take(s, p2, length as int) {
                        Err(e) => Err(e),
                        Ok((raw, p3)) => {
                            let b = spec_mask_bytes(spec_crypt(s.key, raw));
                            if valid_utf8(b) {
                                Ok((vstd::utf8::decode_utf8(b), p3))
                            } else {
                                Err(ErrorCode::StringEncoding)
                            }
                        },
                    }
                } else {
                    match spec_take(s, p2, 2 * length) {
                        Err(e) => Err(e),
                        Ok((raw, p3)) => match utf16_decode(
                            spec_unmask_units(spec_crypt(s.key, raw)),
                        ) {
                            Some(c) => Ok((c, p3)),
                            None => Err(ErrorCode::StringEncoding),
                        },
                    }
                },
            }
        },
    }
}

/// Decodes a byte
pub fn decode_u8(decoder: &mut SliceDecoder) -> (r: Result<u8, Error>)
    ensures
        final(decoder).stream() == old(decoder).stream(),
        decodes_as(r, spec_u8(old(decoder).stream(), old(decoder).pos()), final(decoder).pos()),
{
    match decoder.decode_bytes(1) {
        Ok(b) => Ok(b[0]),
        Err(e) => Err(e),
    }
}

/// Decodes a signed byte
pub fn decode_i8(decoder: &mut SliceDecoder) -> (r: Result<i8, Error>)
    ensures
        final(decoder).stream() == old(decoder).stream(),
        decodes_as(r, spec_i8(old(decoder).stream(), old(decoder).pos()), final(decoder).pos()),
{
    match decode_u8(decoder) {
        Ok(b) => Ok(b as i8),
        Err(e) => Err(e),
    }
}

/// Decodes a little-endian unsigned 16-bit integer
pub fn decode_u16(decoder: &mut SliceDecoder) -> (r: Result<u16, Error>)
    ensures
        final(decoder).stream() == old(decoder).stream(),
        decodes_as(r, spec_u16(old(decoder).stream(), old(decoder).pos()), final(decoder).pos()),
{
    match decoder.decode_bytes(2) {
        Ok(b) => Ok(crate::bytes::read_u16_le(b.as_slice(), 0)),
        Err(e) => Err(e),
    }
}

/// Decodes a little-endian signed 16-bit integer
pub fn decode_i16(decoder: &mut SliceDecoder) -> (r: Result<i16, Error>)
    ensures
        final(decoder).stream() == old(decoder).stream(),
        decodes_as(r, spec_i16(old(decoder).stream(), old(decoder).pos()), final(decoder).pos()),
{
    match decode_u16(decoder) {
        Ok(v) => Ok(v as i16),
        Err(e) => Err(e),
    }
}

/// Decodes a little-endian unsigned 32-bit integer
pub fn decode_u32(decoder: &mut SliceDecoder) -> (r: Result<u32, Error>)
    ensures
        final(decoder).stream() == old(decoder).stream(),
        decodes_as(r, spec_u32(old(decoder).stream(), old(decoder).pos()), final(decoder).pos()),
{
    decoder.decode_u32()
}

/// Decodes a little-endian signed 32-bit integer
pub fn decode_i32(decoder: &mut SliceDecoder) -> (r: Result<i32, Error>)
    ensures
        final(decoder).stream() == old(decoder).stream(),
        decodes_as(r, spec_i32(old(decoder).stream(), old(decoder).pos()), final(decoder).pos()),
{
    match decoder.decode_u32() {
        Ok(v) => Ok(v as i32),
        Err(e) => Err(e),
    }
}

/// Decodes a little-endian unsigned 64-bit integer
pub fn decode_u64(decoder: &mut SliceDecoder) -> (r: Result<u64, Error>)
    ensures
        final(decoder).stream() == old(decoder).stream(),
        decodes_as(r, spec_u64(old(decoder).stream(), old(decoder).pos()), final(decoder).pos()),
{
    match decoder.decode_bytes(8) {
        Ok(b) => {
            let v = crate::bytes::read_u64_le(b.as_slice(), 0);
            assert(b@.subrange(0, 8) =~= b@);
            Ok(v)
        },
        Err(e) => Err(e),
    }
}

/// Decodes a little-endian signed 64-bit integer
pub fn decode_i64(decoder: &mut SliceDecoder) -> (r: Result<i64, Error>)
    ensures
        final(decoder).stream() == old(decoder).stream(),
        decodes_as(r, spec_i64(old(decoder).stream(), old(decoder).pos()), final(decoder).pos()),
{
    match decode_u64(decoder) {
        Ok(v) => Ok(v as i64),
        Err(e) => Err(e),
    }
}

/// Decodes a compressed 32-bit float, returning its bits
pub fn decode_f32_bits(decoder: &mut SliceDecoder) -> (r: Result<u32, Error>)
    ensures
        final(decoder).stream() == old(decoder).stream(),
        decodes_as(
            r,
            spec_f32_bits(old(decoder).stream(), old(decoder).pos()),
            final(decoder).pos(),
        ),
{
    match decode_u8(decoder) {
        Ok(tag) => if tag == 0x80 {
            decoder.decode_u32()
        } else {
            Ok(0)
        },
        Err(e) => Err(e),
    }
}

/// Decodes a 64-bit float, returning its bits
pub fn decode_f64_bits(decoder: &mut SliceDecoder) -> (r: Result<u64, Error>)
    ensures
        final(decoder).stream() == old(decoder).stream(),
        decodes_as(
            r,
            spec_f64_bits(old(decoder).stream(), old(decoder).pos()),
            final(decoder).pos(),
        ),
{
    decode_u64(decoder)
}

/// Decode UTF-8 bytes
fn decode_utf8(decoder: &mut SliceDecoder, len: usize) -> (r: Result<Vec<u8>, Error>)
    ensures
        final(decoder).stream() == old(decoder).stream(),
        match spec_take(old(decoder).stream(), old(decoder).pos(), len as int) {
            Ok((raw, p)) => r matches Ok(v) && v@ == spec_mask_bytes(
                spec_crypt(old(decoder).stream().key, raw),
            ) && final(decoder).pos() == p,
            Err(c) => r matches Err(e) && e.spec_code() == c,
        },
{
    let mut buf = match decoder.decode_bytes(len) {
        Ok(b) => b,
        Err(e) => return Err(e),
    };
    decoder.decrypt_bytes(&mut buf);
    let ghost decrypted = buf@;
    let mut mask: u8 = 0xaa;
    let mut i: usize = 0;
    while i < buf.len()
        invariant
            buf@.len() == decrypted.len(),
            i <= buf@.len(),
            mask == mask8(i as int),
            forall|j: int| 0 <= j < i ==> buf@[j] == decrypted[j] ^ mask8(j),
            forall|j: int| i <= j < buf@.len() ==> buf@[j] == decrypted[j],
        decreases buf@.len() - i,
    {
        let b = buf[i] ^ mask;
        buf.set(i, b);
        mask = if mask == 255 {
            0
        } else {
            mask + 1
        };
        i = i + 1;
    }
    assert(buf@ =~= spec_mask_bytes(decrypted));
    Ok(buf)
}

/// Decode unicode bytes
fn decode_unicode(decoder: &mut SliceDecoder, len: usize) -> (r: Result<Vec<u16>, Error>)
    requires
        len <= i32::MAX,
    ensures
        final(decoder).stream() == old(decoder).stream(),
        match spec_take(old(decoder).stream(), old(decoder).pos(), 2 * len) {
            Ok((raw, p)) => r matches Ok(v) && v@ == spec_unmask_units(
                spec_crypt(old(decoder).stream().key, raw),
            ) && final(decoder).pos() == p,
            Err(c) => r matches Err(e) && e.spec_code() == c,
        },
{
    let mut buf = match decoder.decode_bytes(len * 2) {
        Ok(b) => b,
        Err(e) => return Err(e),
    };
    decoder.decrypt_bytes(&mut buf);
    let mut out: Vec<u16> = Vec::new();
    let mut mask: u16 = 0xaaaa;
    let mut i: usize = 0;
    assert(buf.len() == 2 * len);
    while i < len
        invariant
            buf@.len() == 2 * len,
            buf.len() == 2 * len,
            i <= len,
            out@.len() == i,
            mask == mask16(i as int),
            forall|j: int|
                0 <= j < i ==> out@[j] == u16_from_le(buf@[2 * j], buf@[2 * j + 1]) ^ mask16(j),
        decreases len - i,
    {
        let wchar = crate::bytes::read_u16_le(buf.as_slice(), 2 * i);
        out.push(wchar ^ mask);
        mask = if mask == 65535 {
            0
        } else {
            mask + 1
        };
        i = i + 1;
    }
    assert(out@ =~= spec_unmask_units(buf@));
    Ok(out)
}

/// Decodes a string
pub fn decode_string(decoder: &mut SliceDecoder) -> (r: Result<String, Error>)
    ensures
        final(decoder).stream() == old(decoder).stream(),
        decodes_as(r, spec_string(old(decoder).stream(), old(decoder).pos()), final(decoder).pos()),
{
    let check = match decode_i8(decoder) {
        Ok(c) => c,
        Err(e) => return Err(e),
    };
    if check == 0 {
        return Ok(String::new());
    }
    let length: i32 = if check == i8::MIN || check == i8::MAX {
        match decode_i32(decoder) {
            Ok(l) => l,
            Err(e) => return Err(e),
        }
    } else if check < 0 {
        -(check as i32)
    } else {
        check as i32
    };
    // Sanity check
    if length <= 0 {
        return Err(Error::length("negative length while decoding string"));
    }
    if check < 0 {
        // UTF-8
        let bytes = match decode_utf8(decoder, length as usize) {
            Ok(b) => b,
            Err(e) => return Err(e),
        };
        match string_from_utf8(bytes) {
            Some(s) => Ok(s),
            None => Err(Error::string_encoding("invalid utf-8 sequence")),
        }
    } else {
        // Unicode
        let units = match decode_unicode(decoder, length as usize) {
            Ok(u) => u,
            Err(e) => return Err(e),
        };
        match string_from_utf16(units.as_slice()) {
            Some(s) => Ok(s),
            None => Err(Error::string_encoding("invalid utf-16: lone surrogate found")),
        }
    }
}


/// The `i`-th byte of a UTF-8 string body is XOR-ed with `0xAA + i`, modulo 256: the mask
/// starts at 0xAA and grows by one a byte, wrapping from 0xFF to 0.
pub proof fn lemma_mask_bytes_formula(b: Seq<u8>)
    ensures
        spec_mask_bytes(b).len() == b.len(),
        forall|i: int|
            0 <= i < b.len() ==> #[trigger] spec_mask_bytes(b)[i] == b[i] ^ (((0xAA + i) % 256) as u8),
{
}

/// The `i`-th code unit of a UTF-16 string body is read from bytes `2i` and `2i + 1`, least
/// significant first, and XOR-ed with `0xAAAA + i`, modulo 65536.
pub proof fn lemma_unmask_units_formula(b: Seq<u8>)
    ensures
        spec_unmask_units(b).len() == b.len() / 2,
        forall|i: int|
            0 <= i < b.len() / 2 ==> #[trigger] spec_unmask_units(b)[i] == ((b[2 * i] as int + 256
                * b[2 * i + 1] as int) as u16) ^ (((0xAAAA + i) % 65536) as u16),
{
    assert forall|i: int| 0 <= i < b.len() / 2 implies #[trigger] spec_unmask_units(b)[i] == ((b[2
        * i] as int + 256 * b[2 * i + 1] as int) as u16) ^ (((0xAAAA + i) % 65536) as u16) by {
        crate::bytes::lemma_u16_from_le_value(b[2 * i], b[2 * i + 1]);
    }
}

/// A string whose marker is `-n` (for `n` from 1 to 127) is the `n` bytes after the marker,
/// each XOR-ed with the key stream and with `0xAA + i` (modulo 256) at index `i`, read as
/// UTF-8; reading ends after them. Bytes that are not UTF-8 are a string encoding error.
pub proof fn lemma_short_utf8_string(s: Stream, pos: int, n: int)
    requires
        1 <= n <= 127,
        0 <= pos,
        pos + 1 + n <= s.data.len(),
        s.data[pos] == (256 - n) as u8,
    ensures
        ({
            let b = Seq::new(
                n as nat,
                |i: int| s.data[pos + 1 + i] ^ key_byte(s.key, i) ^ (((0xAA + i) % 256) as u8),
            );
            spec_string(s, pos) == if valid_utf8(b) {
                Ok::<(Seq<char>, int), ErrorCode>((vstd::utf8::decode_utf8(b), pos + 1 + n))
            } else {
                Err::<(Seq<char>, int), ErrorCode>(ErrorCode::StringEncoding)
            }
        }),
{
    let d = s.data[pos];
    let nn = n as u8;
    assert(d == (256 - nn) as u8);
    assert((d as i8) as int == -(nn as int)) by (bit_vector)
        requires
            d == (256 - nn) as u8,
            1 <= nn <= 127,
    ;
    let raw = s.data.subrange(pos + 1, pos + 1 + n);
    let b = Seq::new(
        n as nat,
        |i: int| s.data[pos + 1 + i] ^ key_byte(s.key, i) ^ (((0xAA + i) % 256) as u8),
    );
    assert(spec_mask_bytes(spec_crypt(s.key, raw)) =~= b);
}

} // verus!
