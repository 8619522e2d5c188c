//! WZ canvas property, as read from an image

use crate::bytes::u32_at;
use crate::decode::decoder::spec_take;
use crate::decode::{decode_u8, spec_u8, SliceDecoder, Stream};
use crate::error::{fails_as, DecodeError, Error, Failure};
use crate::types::{spec_int32, Int32};
use vstd::prelude::*;

verus! {

/// A canvas: its size, pixel format, magnification level and compressed pixel data
#[derive(Debug, PartialEq)]
pub struct WzCanvas {
    width: i32,
    height: i32,
    format: i32,
    mag_level: u8,
    data: Vec<u8>,
}

/// A canvas as plain values
pub struct WzCanvasView {
    /// Width
    pub width: i32,
    /// Height
    pub height: i32,
    /// Format
    pub format: i32,
    /// Magnification level
    pub mag_level: u8,
    /// Compressed data
    pub data: Seq<u8>,
}

impl View for WzCanvas {
    type V = WzCanvasView;

    closed spec fn view(&self) -> WzCanvasView {
        WzCanvasView {
            width: self.width,
            height: self.height,
            format: self.format,
            mag_level: self.mag_level,
            data: self.data@,
        }
    }
}

/// The little-endian 32-bit signed value at `pos`.
pub open spec fn spec_word(s: Stream, pos: int) -> Result<(i32, int), Failure> {
    match spec_take(s, pos, 4) {
        Err(c) => Err(Failure::Read(c)),
        Ok((b, p)) => Ok((u32_at(b, 0) as i32, p)),
    }
}

/// The canvas at `pos`: width, height and format (compressed integers), magnification
/// level, a word that must be zero, the data length plus one (which must be positive), then
/// the data.
pub open spec fn spec_wz_canvas(s: Stream, pos: int) -> Result<(WzCanvasView, int), Failure> {
    match spec_int32(s, pos) {
        Err(c) => Err(Failure::Read(c)),
        Ok((width, p1)) => match spec_int32(s, p1) {
            Err(c) => Err(Failure::Read(c)),
            Ok((height, p2)) => match spec_int32(s, p2) {
                Err(c) => Err(Failure::Read(c)),
                Ok((format, p3)) => match spec_u8(s, p3) {
                    Err(c) => Err(Failure::Read(c)),
                    Ok((mag_level, p4)) => match spec_word(s, p4) {
                        Err(f) => Err(f),
                        Ok((zero, p5)) => if zero != 0 {
                            Err(Failure::Decode(DecodeError::Length(zero)))
                        } else {
                            match spec_word(s, p5) {
                                Err(f) => Err(f),
                                Ok((len, p6)) => if len <= 0 {
                                    Err(Failure::Decode(DecodeError::Length(len)))
                                } else {
                                    match spec_take(s, p6, len - 1) {
                                        Err(c) => Err(Failure::Read(c)),
                                        Ok((data, p7)) => Ok(
                                            (
                                                WzCanvasView {
                                                    width,
                                                    height,
                                                    format,
                                                    mag_level,
                                                    data,
                                                },
                                                p7,
                                            ),
                                        ),
                                    }
                                },
                            }
                        },
                    },
                },
            },
        },
    }
}

/// Reads a little-endian 32-bit signed value
fn decode_word(decoder: &mut SliceDecoder) -> (r: Result<i32, Error>)
    ensures
        final(decoder).stream() == old(decoder).stream(),
        match spec_word(old(decoder).stream(), old(decoder).pos()) {
            Ok((v, p)) => r == Ok::<i32, Error>(v) && final(decoder).pos() == p,
            Err(f) => r matches Err(e) && fails_as(e, f),
        },
{
    match decoder.decode_bytes(4) {
        Ok(b) => Ok(crate::bytes::read_u32_le(b.as_slice(), 0) as i32),
        Err(e) => Err(Error::from_read(e)),
    }
}

impl WzCanvas {
    /// Reads a canvas. A nonzero check word, or a data length that is not positive, is
    /// reported as an invalid length holding that value.
    pub fn from_reader(offset: u64, decoder: &mut SliceDecoder) -> (r: Result<Self, Error>)
        ensures
            final(decoder).stream() == old(decoder).stream(),
            match spec_wz_canvas(old(decoder).stream(), old(decoder).pos()) {
                Ok((v, p)) => r matches Ok(x) && x@ == v && final(decoder).pos() == p,
                Err(f) => r matches Err(e) && fails_as(e, f),
            },
    {
        let width = match Int32::decode(decoder) {
            Ok(v) => v.0,
            Err(e) => return Err(Error::from_read(e)),
        };
        let height = match Int32::decode(decoder) {
            Ok(v) => v.0,
            Err(e) => return Err(Error::from_read(e)),
        };
        let format = match Int32::decode(decoder) {
            Ok(v) => v.0,
            Err(e) => return Err(Error::from_read(e)),
        };
        let mag_level = match decode_u8(decoder) {
            Ok(v) => v,
            Err(e) => return Err(Error::from_read(e)),
        };
        let zero = match decode_word(decoder) {
            Ok(v) => v,
            Err(e) => return Err(e),
        };
        if zero != 0 {
            return Err(Error::decode(DecodeError::Length(zero)));
        }
        let len = match decode_word(decoder) {
            Ok(v) => v,
            Err(e) => return Err(e),
        };
        if len <= 0 {
            return Err(Error::decode(DecodeError::Length(len)));
        }
        let len = (len - 1) as usize;
        let data = match decoder.decode_bytes(len) {
            Ok(b) => b,
            Err(e) => return Err(Error::from_read(e)),
        };
        Ok(WzCanvas { width, height, format, mag_level, data })
    }
}

} // verus!
