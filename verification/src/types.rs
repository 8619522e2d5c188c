//! Compressed integers and raw float bits.
//!
//! WZ archives store most integers compressed: a signed byte holds values in `-127..=127`,
//! and the marker `i8::MIN` announces that the full-width integer follows.

use crate::bytes::{u32_le, u64_le};
use crate::decode::decoder::{spec_u32, SpecResult};
use crate::decode::{
    decode_i32, decode_i64, decode_i8, decodes_as, spec_i32, spec_i64, spec_i8, Error,
    SliceDecoder, Stream,
};
use crate::encode::{EncodeContext, Encode, Encoder, SizeHint};
use vstd::prelude::*;

verus! {

/// Compressed 32-bit integer
#[derive(Debug, Clone, Copy, PartialOrd, PartialEq, Ord, Eq, Hash, Structural)]
pub struct Int32(pub i32);

/// Compressed 64-bit integer
#[derive(Debug, Clone, Copy, PartialOrd, PartialEq, Ord, Eq, Hash, Structural)]
pub struct Int64(pub i64);

/// Compressed integer of the WZ file types
pub type WzInt = Int32;

/// Compressed long integer of the WZ file types
pub type WzLong = Int64;

impl View for Int32 {
    type V = i32;

    open spec fn view(&self) -> i32 {
        self.0
    }
}

impl View for Int64 {
    type V = i64;

    open spec fn view(&self) -> i64 {
        self.0
    }
}

/// Whether `v` needs the long form (marker plus full-width value).
pub open spec fn needs_long_form(v: int) -> bool {
    v > 127 || v <= -128
}

/// The number of bytes of a compressed integer.
pub open spec fn spec_int_size(v: int, width: int) -> int {
    if needs_long_form(v) {
        1 + width
    } else {
        1
    }
}

/// The compressed 32-bit integer at `pos`.
pub open spec fn spec_int32(s: Stream, pos: int) -> SpecResult<i32> {
    match spec_i8(s, pos) {
        Ok((check, p)) => if check == i8::MIN {
            spec_i32(s, p)
        } else {
            Ok((check as i32, p))
        },
        Err(e) => Err(e),
    }
}

/// The compressed 64-bit integer at `pos`.
pub open spec fn spec_int64(s: Stream, pos: int) -> SpecResult<i64> {
    match spec_i8(s, pos) {
        Ok((check, p)) => if check == i8::MIN {
            spec_i64(s, p)
        } else {
            Ok((check as i64, p))
        },
        Err(e) => Err(e),
    }
}

/// The encoded bytes of a compressed 32-bit integer.
pub open spec fn spec_int32_bytes(v: i32) -> Seq<u8> {
    if needs_long_form(v as int) {
        seq![0x80u8] + u32_le(v as u32)
    } else {
        seq![v as i8 as u8]
    }
}

/// The encoded bytes of a compressed 64-bit integer.
pub open spec fn spec_int64_bytes(v: i64) -> Seq<u8> {
    if needs_long_form(v as int) {
        seq![0x80u8] + u64_le(v as u64)
    } else {
        seq![v as i8 as u8]
    }
}

impl Int32 {
    /// Returns the integer
    pub fn value(self) -> (r: i32)
        ensures
            r == self@,
    {
        self.0
    }

    /// Returns true if the integer is negative
    pub fn is_negative(&self) -> (r: bool)
        ensures
            r == (self@ < 0),
    {
        self.0 < 0
    }

    /// Decodes a compressed integer
    pub fn decode(decoder: &mut SliceDecoder) -> (r: Result<Int32, Error>)
        ensures
            final(decoder).stream() == old(decoder).stream(),
            decodes_as(
                r,
                spec_int32(old(decoder).stream(), old(decoder).pos()),
                final(decoder).pos(),
            ),
    {
        let check = match decode_i8(decoder) {
            Ok(c) => c,
            Err(e) => return Err(e),
        };
        if check == i8::MIN {
            match decode_i32(decoder) {
                Ok(v) => Ok(Int32(v)),
                Err(e) => Err(e),
            }
        } else {
            Ok(Int32(check as i32))
        }
    }
}

impl Int64 {
    /// Returns the integer
    pub fn value(self) -> (r: i64)
        ensures
            r == self@,
    {
        self.0
    }

    /// Returns true if the integer is negative
    pub fn is_negative(&self) -> (r: bool)
        ensures
            r == (self@ < 0),
    {
        self.0 < 0
    }

    /// Decodes a compressed long integer
    pub fn decode(decoder: &mut SliceDecoder) -> (r: Result<Int64, Error>)
        ensures
            final(decoder).stream() == old(decoder).stream(),
            decodes_as(
                r,
                spec_int64(old(decoder).stream(), old(decoder).pos()),
                final(decoder).pos(),
            ),
    {
        let check = match decode_i8(decoder) {
            Ok(c) => c,
            Err(e) => return Err(e),
        };
        if check == i8::MIN {
            match decode_i64(decoder) {
                Ok(v) => Ok(Int64(v)),
                Err(e) => Err(e),
            }
        } else {
            Ok(Int64(check as i64))
        }
    }
}

impl SizeHint for Int32 {
    open spec fn spec_size_hint(&self) -> int {
        spec_int_size(self@ as int, 4)
    }

    fn size_hint(&self) -> (r: u64) {
        if self.0 > 127 || self.0 <= -128 {
            5
        } else {
            1
        }
    }
}

impl SizeHint for Int64 {
    open spec fn spec_size_hint(&self) -> int {
        spec_int_size(self@ as int, 8)
    }

    fn size_hint(&self) -> (r: u64) {
        if self.0 > 127 || self.0 <= -128 {
            9
        } else {
            1
        }
    }
}

impl Encode for Int32 {
    type Error = crate::encode::Error;

    open spec fn spec_encodable(&self) -> bool {
        true
    }

    open spec fn spec_encode(&self, ctx: EncodeContext, position: int) -> Option<Seq<u8>> {
        Some(spec_int32_bytes(self@))
    }

    fn encode<E: Encoder>(&self, encoder: &mut E) -> (r: Result<(), Self::Error>) {
        if self.0 > 127 || self.0 <= -128 {
            assert(i8::MIN as u8 == 0x80u8) by (bit_vector);
            let _ = i8::MIN.encode(encoder);
            self.0.encode(encoder)
        } else {
            (self.0 as i8).encode(encoder)
        }
    }
}

impl Encode for Int64 {
    type Error = crate::encode::Error;

    open spec fn spec_encodable(&self) -> bool {
        true
    }

    open spec fn spec_encode(&self, ctx: EncodeContext, position: int) -> Option<Seq<u8>> {
        Some(spec_int64_bytes(self@))
    }

    fn encode<E: Encoder>(&self, encoder: &mut E) -> (r: Result<(), Self::Error>) {
        if self.0 > 127 || self.0 <= -128 {
            assert(i8::MIN as u8 == 0x80u8) by (bit_vector);
            let _ = i8::MIN.encode(encoder);
            self.0.encode(encoder)
        } else {
            (self.0 as i8).encode(encoder)
        }
    }
}

impl From<i32> for Int32 {
    fn from(v: i32) -> (r: Self) {
        Int32(v)
    }
}

impl vstd::std_specs::convert::FromSpecImpl<i32> for Int32 {
    open spec fn obeys_from_spec() -> bool {
        true
    }

    open spec fn from_spec(v: i32) -> Self {
        Int32(v)
    }
}

impl From<u32> for Int32 {
    fn from(v: u32) -> (r: Self) {
        Int32(v as i32)
    }
}

impl vstd::std_specs::convert::FromSpecImpl<u32> for Int32 {
    open spec fn obeys_from_spec() -> bool {
        true
    }

    open spec fn from_spec(v: u32) -> Self {
        Int32(v as i32)
    }
}

impl From<u64> for Int32 {
    fn from(v: u64) -> (r: Self) {
        Int32(v as i32)
    }
}

impl vstd::std_specs::convert::FromSpecImpl<u64> for Int32 {
    open spec fn obeys_from_spec() -> bool {
        true
    }

    open spec fn from_spec(v: u64) -> Self {
        Int32(v as i32)
    }
}

impl From<usize> for Int32 {
    fn from(v: usize) -> (r: Self) {
        Int32(v as i32)
    }
}

impl vstd::std_specs::convert::FromSpecImpl<usize> for Int32 {
    open spec fn obeys_from_spec() -> bool {
        true
    }

    open spec fn from_spec(v: usize) -> Self {
        Int32(v as i32)
    }
}

impl From<i64> for Int64 {
    fn from(v: i64) -> (r: Self) {
        Int64(v)
    }
}

impl vstd::std_specs::convert::FromSpecImpl<i64> for Int64 {
    open spec fn obeys_from_spec() -> bool {
        true
    }

    open spec fn from_spec(v: i64) -> Self {
        Int64(v)
    }
}

/// The bits of a 32-bit float (stored compressed: zero takes one byte).
#[derive(Debug, Clone, Copy, PartialEq, Eq, Hash, Structural)]
pub struct F32Bits(pub u32);

/// The bits of a 64-bit float.
#[derive(Debug, Clone, Copy, PartialEq, Eq, Hash, Structural)]
pub struct F64Bits(pub u64);

impl View for F32Bits {
    type V = u32;

    open spec fn view(&self) -> u32 {
        self.0
    }
}

impl View for F64Bits {
    type V = u64;

    open spec fn view(&self) -> u64 {
        self.0
    }
}

/// Whether the float with bits `bits` equals zero (positive or negative zero).
pub open spec fn is_float_zero(bits: u32) -> bool {
    bits == 0 || bits == 0x8000_0000
}

impl SizeHint for F32Bits {
    open spec fn spec_size_hint(&self) -> int {
        if is_float_zero(self.0) {
            1
        } else {
            5
        }
    }

    fn size_hint(&self) -> (r: u64) {
        if self.0 == 0 || self.0 == 0x8000_0000 {
            1
        } else {
            5
        }
    }
}

impl SizeHint for F64Bits {
    open spec fn spec_size_hint(&self) -> int {
        8
    }

    fn size_hint(&self) -> (r: u64) {
        8
    }
}

impl Encode for F32Bits {
    type Error = crate::encode::Error;

    open spec fn spec_encodable(&self) -> bool {
        true
    }

    open spec fn spec_encode(&self, ctx: EncodeContext, position: int) -> Option<Seq<u8>> {
        if is_float_zero(self.0) {
            Some(seq![0u8])
        } else {
            Some(seq![0x80u8] + u32_le(self.0))
        }
    }

    fn encode<E: Encoder>(&self, encoder: &mut E) -> (r: Result<(), Self::Error>) {
        if self.0 == 0 || self.0 == 0x8000_0000 {
            0u8.encode(encoder)
        } else {
            let _ = 0x80u8.encode(encoder);
            self.0.encode(encoder)
        }
    }
}

impl Encode for F64Bits {
    type Error = crate::encode::Error;

    open spec fn spec_encodable(&self) -> bool {
        true
    }

    open spec fn spec_encode(&self, ctx: EncodeContext, position: int) -> Option<Seq<u8>> {
        Some(u64_le(self.0))
    }

    fn encode<E: Encoder>(&self, encoder: &mut E) -> (r: Result<(), Self::Error>) {
        self.0.encode(encoder)
    }
}

} // verus!
