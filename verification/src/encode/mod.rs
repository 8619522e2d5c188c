//! Encoding of the primitive values of the WZ format

pub mod encoder;
pub mod error;
pub mod size;

pub use encoder::{EncodeContext, Encoder, VecEncoder};
pub use error::{Error, ErrorCode};
pub use size::SizeHint;

use crate::bytes::{push_u16_le, u16_le, u32_le, u64_le};
use crate::cipher::spec_crypt;
use crate::decode::{mask16, mask8, spec_mask_bytes};
use crate::text::{encode_utf16_units, utf16_encode};
use vstd::prelude::*;
use vstd::utf8::{encode_utf8, is_ascii_chars};

verus! {

/// Trait for encoding objects
pub trait Encode: SizeHint {
    /// Type of error returned
    type Error;

    /// Whether encoding the value is free of arithmetic overflow.
    spec fn spec_encodable(&self) -> bool;

    /// The bytes that encoding writes when the encoder is at `position`, or `None` when the
    /// encoding fails (an offset stored past `u32::MAX`).
    spec fn spec_encode(&self, ctx: EncodeContext, position: int) -> Option<Seq<u8>>;

    /// Encodes objects
    fn encode<E: Encoder>(&self, encoder: &mut E) -> (r: Result<(), Self::Error>)
        requires
            self.spec_encodable(),
        ensures
            final(encoder).spec_context() == old(encoder).spec_context(),
            match self.spec_encode(
                old(encoder).spec_context(),
                old(encoder).spec_written().len() as int,
            ) {
                Some(b) => r is Ok && final(encoder).spec_written() == old(encoder).spec_written()
                    + b,
                None => r is Err,
            },
    ;
}

fn write_bytes<E: Encoder>(encoder: &mut E, bytes: Vec<u8>) -> (r: Result<(), Error>)
    ensures
        r is Ok,
        final(encoder).spec_written() == old(encoder).spec_written() + bytes@,
        final(encoder).spec_context() == old(encoder).spec_context(),
{
    encoder.encode_bytes(bytes.as_slice())
}

impl Encode for i8 {
    type Error = Error;

    open spec fn spec_encodable(&self) -> bool {
        true
    }

    open spec fn spec_encode(&self, ctx: EncodeContext, position: int) -> Option<Seq<u8>> {
        Some(seq![*self as u8])
    }

    fn encode<E: Encoder>(&self, encoder: &mut E) -> (r: Result<(), Self::Error>) {
        let mut v: Vec<u8> = Vec::new();
        v.push(*self as u8);
        assert(v@ =~= seq![*self as u8]);
        write_bytes(encoder, v)
    }
}

impl Encode for i16 {
    type Error = Error;

    open spec fn spec_encodable(&self) -> bool {
        true
    }

    open spec fn spec_encode(&self, ctx: EncodeContext, position: int) -> Option<Seq<u8>> {
        Some(u16_le(*self as u16))
    }

    fn encode<E: Encoder>(&self, encoder: &mut E) -> (r: Result<(), Self::Error>) {
        let mut v: Vec<u8> = Vec::new();
        push_u16_le(&mut v, *self as u16);
        assert(v@ =~= u16_le(*self as u16));
        write_bytes(encoder, v)
    }
}

impl Encode for i32 {
    type Error = Error;

    open spec fn spec_encodable(&self) -> bool {
        true
    }

    open spec fn spec_encode(&self, ctx: EncodeContext, position: int) -> Option<Seq<u8>> {
        Some(u32_le(*self as u32))
    }

    fn encode<E: Encoder>(&self, encoder: &mut E) -> (r: Result<(), Self::Error>) {
        let mut v: Vec<u8> = Vec::new();
        crate::bytes::push_u32_le(&mut v, *self as u32);
        assert(v@ =~= u32_le(*self as u32));
        write_bytes(encoder, v)
    }
}

impl Encode for i64 {
    type Error = Error;

    open spec fn spec_encodable(&self) -> bool {
        true
    }

    open spec fn spec_encode(&self, ctx: EncodeContext, position: int) -> Option<Seq<u8>> {
        Some(u64_le(*self as u64))
    }

    fn encode<E: Encoder>(&self, encoder: &mut E) -> (r: Result<(), Self::Error>) {
        let mut v: Vec<u8> = Vec::new();
        crate::bytes::push_u64_le(&mut v, *self as u64);
        assert(v@ =~= u64_le(*self as u64));
        write_bytes(encoder, v)
    }
}

impl Encode for u8 {
    type Error = Error;

    open spec fn spec_encodable(&self) -> bool {
        true
    }

    open spec fn spec_encode(&self, ctx: EncodeContext, position: int) -> Option<Seq<u8>> {
        Some(seq![*self])
    }

    fn encode<E: Encoder>(&self, encoder: &mut E) -> (r: Result<(), Self::Error>) {
        let mut v: Vec<u8> = Vec::new();
        v.push(*self);
        assert(v@ =~= seq![*self]);
        write_bytes(encoder, v)
    }
}

impl Encode for u16 {
    type Error = Error;

    open spec fn spec_encodable(&self) -> bool {
        true
    }

    open spec fn spec_encode(&self, ctx: EncodeContext, position: int) -> Option<Seq<u8>> {
        Some(u16_le(*self))
    }

    fn encode<E: Encoder>(&self, encoder: &mut E) -> (r: Result<(), Self::Error>) {
        let mut v: Vec<u8> = Vec::new();
        push_u16_le(&mut v, *self);
        assert(v@ =~= u16_le(*self));
        write_bytes(encoder, v)
    }
}

impl Encode for u32 {
    type Error = Error;

    open spec fn spec_encodable(&self) -> bool {
        true
    }

    open spec fn spec_encode(&self, ctx: EncodeContext, position: int) -> Option<Seq<u8>> {
        Some(u32_le(*self))
    }

    fn encode<E: Encoder>(&self, encoder: &mut E) -> (r: Result<(), Self::Error>) {
        let mut v: Vec<u8> = Vec::new();
        crate::bytes::push_u32_le(&mut v, *self);
        assert(v@ =~= u32_le(*self));
        write_bytes(encoder, v)
    }
}

impl Encode for u64 {
    type Error = Error;

    open spec fn spec_encodable(&self) -> bool {
        true
    }

    open spec fn spec_encode(&self, ctx: EncodeContext, position: int) -> Option<Seq<u8>> {
        Some(u64_le(*self))
    }

    fn encode<E: Encoder>(&self, encoder: &mut E) -> (r: Result<(), Self::Error>) {
        let mut v: Vec<u8> = Vec::new();
        crate::bytes::push_u64_le(&mut v, *self);
        assert(v@ =~= u64_le(*self));
        write_bytes(encoder, v)
    }
}

/// UTF-16 code units XOR-ed with the string mask, each written little-endian.
pub open spec fn spec_mask_units(units: Seq<u16>) -> Seq<u8> {
    Seq::new(2 * units.len(), |i: int| u16_le(units[i / 2] ^ mask16(i / 2))[i % 2])
}

/// Whether encoding a string can be done without overflow: the negated length of an ASCII
/// string must fit in 32 bits.
pub open spec fn str_encodable(chars: Seq<char>) -> bool {
    !(is_ascii_chars(chars) && (encode_utf8(chars).len() as i32) == i32::MIN)
}

/// The marker (and length) written before a string's body.
pub open spec fn spec_str_header(chars: Seq<char>) -> Seq<u8> {
    if is_ascii_chars(chars) {
        let length = encode_utf8(chars).len() as i32;
        if length > 127 {
            seq![0x80u8] + u32_le(length as u32)
        } else {
            seq![(-(length as int)) as i8 as u8]
        }
    } else {
        let length = utf16_encode(chars).len() as i32;
        if length >= 127 {
            seq![0x7fu8] + u32_le(length as u32)
        } else {
            seq![length as i8 as u8]
        }
    }
}

/// The encoded bytes of a string: a zero byte for the empty string; otherwise a marker and
/// length, then the masked body (UTF-8 for ASCII strings, UTF-16 otherwise) XOR-ed with the
/// key stream.
pub open spec fn spec_str_bytes(key: Seq<u8>, chars: Seq<char>) -> Seq<u8> {
    if encode_utf8(chars).len() == 0 {
        seq![0u8]
    } else if is_ascii_chars(chars) {
        spec_str_header(chars) + spec_crypt(key, spec_mask_bytes(encode_utf8(chars)))
    } else {
        spec_str_header(chars) + spec_crypt(key, spec_mask_units(utf16_encode(chars)))
    }
}

/// Encode UTF-8 bytes
fn encode_utf8_bytes<E: Encoder>(encoder: &mut E, bytes: &[u8]) -> (r: Result<(), Error>)
    ensures
        r is Ok,
        final(encoder).spec_written() == old(encoder).spec_written() + spec_crypt(
            old(encoder).spec_context().key,
            spec_mask_bytes(bytes@),
        ),
        final(encoder).spec_context() == old(encoder).spec_context(),
{
    let mut mask: u8 = 0xaa;
    let mut buf: Vec<u8> = Vec::new();
    let mut i: usize = 0;
    while i < bytes.len()
        invariant
            i <= bytes@.len(),
            buf@.len() == i,
            mask == mask8(i as int),
            forall|j: int| 0 <= j < i ==> buf@[j] == bytes@[j] ^ mask8(j),
        decreases bytes@.len() - i,
    {
        buf.push(bytes[i] ^ mask);
        mask = if mask == 255 {
            0
        } else {
            mask + 1
        };
        i = i + 1;
    }
    assert(buf@ =~= spec_mask_bytes(bytes@));
    encoder.encrypt_bytes(&mut buf);
    write_bytes(encoder, buf)
}

/// Encode unicode bytes
fn encode_unicode<E: Encoder>(encoder: &mut E, units: &[u16]) -> (r: Result<(), Error>)
    ensures
        r is Ok,
        final(encoder).spec_written() == old(encoder).spec_written() + spec_crypt(
            old(encoder).spec_context().key,
            spec_mask_units(units@),
        ),
        final(encoder).spec_context() == old(encoder).spec_context(),
{
    let mut mask: u16 = 0xaaaa;
    let mut buf: Vec<u8> = Vec::new();
    let mut i: usize = 0;
    while i < units.len()
        invariant
            i <= units@.len(),
            mask == mask16(i as int),
            buf@ =~= spec_mask_units(units@.subrange(0, i as int)),
        decreases units@.len() - i,
    {
        let wchar = units[i] ^ mask;
        let ghost before = buf@;
        push_u16_le(&mut buf, wchar);
        assert(buf@ =~= spec_mask_units(units@.subrange(0, i + 1))) by {
            let s = units@.subrange(0, i + 1);
            assert forall|k: int| 0 <= k < 2 * s.len() implies #[trigger] buf@[k]
                == spec_mask_units(s)[k] by {
                if k < 2 * i {
                    assert(units@.subrange(0, i as int)[k / 2] == s[k / 2]);
                }
            }
        }
        mask = if mask == 65535 {
            0
        } else {
            mask + 1
        };
        i = i + 1;
    }
    assert(units@.subrange(0, units@.len() as int) =~= units@);
    encoder.encrypt_bytes(&mut buf);
    write_bytes(encoder, buf)
}

impl<'a> Encode for &'a str {
    type Error = Error;

    open spec fn spec_encodable(&self) -> bool {
        str_encodable(self@)
    }

    open spec fn spec_encode(&self, ctx: EncodeContext, position: int) -> Option<Seq<u8>> {
        Some(spec_str_bytes(ctx.key, self@))
    }

    fn encode<E: Encoder>(&self, encoder: &mut E) -> (r: Result<(), Self::Error>) {
        let bytes = self.as_bytes();
        // If length is 0 just write 0 and be done with it
        if bytes.len() == 0 {
            return 0u8.encode(encoder);
        }
        let ghost start = encoder.spec_written();
        // If everything is ASCII, encode as UTF-8, else Unicode
        if self.is_ascii() {
            let length = bytes.len() as i32;
            // Write the length
            // length CAN equal i8::MAX here as the 2s compliment is not i8::MIN
            if length > 127 {
                assert(i8::MIN as u8 == 0x80u8) by (bit_vector);
                let _ = i8::MIN.encode(encoder);
                let _ = length.encode(encoder);
                assert(encoder.spec_written() =~= start + spec_str_header(self@));
            } else {
                let _ = ((-length) as i8).encode(encoder);
                assert(encoder.spec_written() =~= start + spec_str_header(self@));
            }
            // Write the string
            let ghost mid = encoder.spec_written();
            let r = encode_utf8_bytes(encoder, bytes);
            assert(encoder.spec_written() =~= start + spec_str_bytes(
                encoder.spec_context().key,
                self@,
            ));
            r
        } else {
            let units = encode_utf16_units(self);
            let length = units.len() as i32;
            // Write the length
            // If lenth is equal to i8::MAX it will be treated as a long-length marker
            if length >= 127 {
                let _ = i8::MAX.encode(encoder);
                let _ = length.encode(encoder);
                assert(encoder.spec_written() =~= start + spec_str_header(self@));
            } else {
                let _ = (length as i8).encode(encoder);
                assert(encoder.spec_written() =~= start + spec_str_header(self@));
            }
            // Write the string
            let r = encode_unicode(encoder, units.as_slice());
            assert(encoder.spec_written() =~= start + spec_str_bytes(
                encoder.spec_context().key,
                self@,
            ));
            r
        }
    }
}

impl Encode for String {
    type Error = Error;

    open spec fn spec_encodable(&self) -> bool {
        str_encodable(self@)
    }

    open spec fn spec_encode(&self, ctx: EncodeContext, position: int) -> Option<Seq<u8>> {
        Some(spec_str_bytes(ctx.key, self@))
    }

    fn encode<E: Encoder>(&self, encoder: &mut E) -> (r: Result<(), Self::Error>) {
        let s = self.as_str();
        assert(s@ == self@);
        assert(str_encodable(s@));
        assert(s.spec_encodable());
        s.encode(encoder)
    }
}

} // verus!
