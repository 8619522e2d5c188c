//! WZ Image Canvas, as it is stored

use crate::cipher::spec_crypt;
use crate::decode::decoder::spec_take;
use crate::decode::{decode_i32, decode_u8, spec_i32, spec_u8, SliceDecoder, Stream};
use crate::error::{fails_as, CanvasError, DecodeError, Error, Failure};
use crate::file::image::raw::content::ContentRefView;
use crate::file::image::raw::property::{spec_property, Property};
use crate::types::{spec_int32, Int32};
use vstd::prelude::*;

verus! {

/// The pixel format of a canvas: the format number and the second format byte that is added
/// to it (stored as a compressed integer and a byte).
#[derive(Debug, Clone, Copy, PartialEq, Eq)]
pub struct CanvasFormat {
    /// Format number
    pub format: Int32,
    /// Second format byte
    pub format2: u8,
}

impl CanvasFormat {
    /// Decodes the format number and the second format byte
    pub fn decode(decoder: &mut SliceDecoder) -> (r: Result<Self, Error>)
        ensures
            final(decoder).stream() == old(decoder).stream(),
            match spec_canvas_format(old(decoder).stream(), old(decoder).pos()) {
                Ok((v, p)) => r matches Ok(x) && (x.format@, x.format2) == v && final(decoder).pos()
                    == p,
                Err(f) => r matches Err(e) && fails_as(e, f),
            },
    {
        let format = match Int32::decode(decoder) {
            Ok(v) => v,
            Err(e) => return Err(Error::from_read(e)),
        };
        let format2 = match decode_u8(decoder) {
            Ok(v) => v,
            Err(e) => return Err(Error::from_read(e)),
        };
        Ok(CanvasFormat { format, format2 })
    }
}

/// The canvas format at `pos`: a compressed integer and a byte.
pub open spec fn spec_canvas_format(s: Stream, pos: int) -> Result<((i32, u8), int), Failure> {
    match spec_int32(s, pos) {
        Err(c) => Err(Failure::Read(c)),
        Ok((f, p1)) => match spec_u8(s, p1) {
            Err(c) => Err(Failure::Read(c)),
            Ok((f2, p2)) => Ok(((f, f2), p2)),
        },
    }
}

/// A canvas as it is stored: its size, its format, its (compressed) pixel data and the
/// property list it may carry
#[derive(Debug)]
pub struct Canvas {
    width: Int32,
    height: Int32,
    format: CanvasFormat,
    data: Vec<u8>,
    property: Option<Property>,
}

/// A stored canvas as plain values
pub struct CanvasView {
    /// Width
    pub width: i32,
    /// Height
    pub height: i32,
    /// Format number and second format byte
    pub format: (i32, u8),
    /// Compressed pixel data, decrypted
    pub data: Seq<u8>,
    /// The entries of the property list, if there is one
    pub property: Option<Seq<ContentRefView>>,
}

impl View for Canvas {
    type V = CanvasView;

    closed spec fn view(&self) -> CanvasView {
        CanvasView {
            width: self.width@,
            height: self.height@,
            format: (self.format.format@, self.format.format2),
            data: self.data@,
            property: match self.property {
                Some(p) => Some(p@),
                None => None,
            },
        }
    }
}

/// Whether `d` starts with a zlib header: 0x78, then 0x01, 0x5e, 0x9c or 0xda.
pub open spec fn is_zlib_header(d: Seq<u8>) -> bool {
    d.len() >= 2 && d[0] == 0x78 && (d[1] == 0x01 || d[1] == 0x5e || d[1] == 0x9c || d[1] == 0xda)
}

/// The optional property list of a canvas at `pos`: a byte that is skipped, then a flag;
/// with the flag 1 the property list follows.
pub open spec fn spec_canvas_property(s: Stream, pos: int) -> Result<
    (Option<Seq<ContentRefView>>, int),
    Failure,
> {
    match spec_u8(s, pos) {
        Err(c) => Err(Failure::Read(c)),
        Ok((_, p1)) => match spec_u8(s, p1) {
            Err(c) => Err(Failure::Read(c)),
            Ok((flag, p2)) => if flag == 1 {
                match spec_property(s, p2) {
                    Err(f) => Err(f),
                    Ok((props, p3)) => Ok((Some(props), p3)),
                }
            } else {
                Ok((None, p2))
            },
        },
    }
}

/// The data of a canvas at `pos`: a word that is skipped, the data length plus one (which
/// must be positive), a byte that is skipped, then the data; data that does not start with
/// a zlib header is decrypted with the key stream.
pub open spec fn spec_canvas_data(s: Stream, pos: int) -> Result<(Seq<u8>, int), Failure> {
    match spec_i32(s, pos) {
        Err(c) => Err(Failure::Read(c)),
        Ok((_, p1)) => match spec_i32(s, p1) {
            Err(c) => Err(Failure::Read(c)),
            Ok((length, p2)) => if length <= 0 {
                Err(Failure::Decode(DecodeError::Length(length)))
            } else {
                match spec_u8(s, p2) {
                    Err(c) => Err(Failure::Read(c)),
                    Ok((_, p3)) => match spec_take(s, p3, length - 1) {
                        Err(c) => Err(Failure::Read(c)),
                        Ok((d, p4)) => Ok(
                            (
                                if is_zlib_header(d) {
                                    d
                                } else {
                                    spec_crypt(s.key, d)
                                },
                                p4,
                            ),
                        ),
                    },
                }
            },
        },
    }
}

/// The canvas at `pos`: its optional property list, its width and height (compressed
/// integers, each at most 0x10000), its format, then its data.
pub open spec fn spec_raw_canvas(s: Stream, pos: int) -> Result<(CanvasView, int), Failure> {
    match spec_canvas_property(s, pos) {
        Err(f) => Err(f),
        Ok((property, p1)) => match spec_int32(s, p1) {
            Err(c) => Err(Failure::Read(c)),
            Ok((width, p2)) => match spec_int32(s, p2) {
                Err(c) => Err(Failure::Read(c)),
                Ok((height, p3)) => if width > 0x10000 || height > 0x10000 {
                    Err(Failure::Canvas(CanvasError::TooBig(width as u32, height as u32)))
                } else {
                    match spec_canvas_format(s, p3) {
                        Err(f) => Err(f),
                        Ok((format, p4)) => match spec_canvas_data(s, p4) {
                            Err(f) => Err(f),
                            Ok((data, p5)) => Ok(
                                (CanvasView { width, height, format, data, property }, p5),
                            ),
                        },
                    }
                },
            },
        },
    }
}

impl Canvas {
    /// Returns the width
    pub fn width(&self) -> (r: Int32)
        ensures
            r@ == self@.width,
    {
        self.width
    }

    /// Returns the height
    pub fn height(&self) -> (r: Int32)
        ensures
            r@ == self@.height,
    {
        self.height
    }

    /// Returns the format
    pub fn format(&self) -> (r: CanvasFormat)
        ensures
            (r.format@, r.format2) == self@.format,
    {
        self.format
    }

    /// Returns the data
    pub fn data(&self) -> (r: &[u8])
        ensures
            r@ == self@.data,
    {
        self.data.as_slice()
    }

    /// Returns the property
    pub fn property(&self) -> (r: &Option<Property>)
        ensures
            match r {
                Some(p) => self@.property == Some(p@),
                None => self@.property is None,
            },
    {
        &self.property
    }

    /// Decodes the optional property list
    fn decode_property(decoder: &mut SliceDecoder) -> (r: Result<Option<Property>, Error>)
        ensures
            final(decoder).stream() == old(decoder).stream(),
            match spec_canvas_property(old(decoder).stream(), old(decoder).pos()) {
                Ok((v, p)) => final(decoder).pos() == p && match r {
                    Ok(Some(x)) => v == Some(x@),
                    Ok(None) => v is None,
                    Err(_) => false,
                },
                Err(f) => r matches Err(e) && fails_as(e, f),
            },
    {
        match decode_u8(decoder) {
            Ok(_) => {},
            Err(e) => return Err(Error::from_read(e)),
        }
        let flag = match decode_u8(decoder) {
            Ok(v) => v,
            Err(e) => return Err(Error::from_read(e)),
        };
        if flag == 1 {
            match Property::decode(decoder) {
                Ok(p) => Ok(Some(p)),
                Err(e) => Err(e),
            }
        } else {
            Ok(None)
        }
    }

    /// Decodes the data, decrypting it when it does not start with a zlib header
    fn decode_data(decoder: &mut SliceDecoder) -> (r: Result<Vec<u8>, Error>)
        ensures
            final(decoder).stream() == old(decoder).stream(),
            match spec_canvas_data(old(decoder).stream(), old(decoder).pos()) {
                Ok((v, p)) => r matches Ok(x) && x@ == v && final(decoder).pos() == p,
                Err(f) => r matches Err(e) && fails_as(e, f),
            },
    {
        match decode_i32(decoder) {
            Ok(_) => {},
            Err(e) => return Err(Error::from_read(e)),
        }
        let length = match decode_i32(decoder) {
            Ok(v) => v,
            Err(e) => return Err(Error::from_read(e)),
        };
        if length <= 0 {
            return Err(Error::decode(DecodeError::Length(length)));
        }
        let length = (length - 1) as usize;
        match decode_u8(decoder) {
            Ok(_) => {},
            Err(e) => return Err(Error::from_read(e)),
        }
        let mut data = match decoder.decode_bytes(length) {
            Ok(d) => d,
            Err(e) => return Err(Error::from_read(e)),
        };
        // Check if the compressed data is encrypted
        let zlib = data.len() >= 2 && data[0] == 0x78 && (data[1] == 0x01 || data[1] == 0x5e
            || data[1] == 0x9c || data[1] == 0xda);
        if !zlib {
            decoder.decrypt_bytes(&mut data);
        }
        Ok(data)
    }

    /// Decodes a canvas
    pub fn decode(decoder: &mut SliceDecoder) -> (r: Result<Self, Error>)
        ensures
            final(decoder).stream() == old(decoder).stream(),
            match spec_raw_canvas(old(decoder).stream(), old(decoder).pos()) {
                Ok((v, p)) => r matches Ok(x) && x@ == v && final(decoder).pos() == p,
                Err(f) => r matches Err(e) && fails_as(e, f),
            },
    {
        let property = match Self::decode_property(decoder) {
            Ok(p) => p,
            Err(e) => return Err(e),
        };
        let width = match Int32::decode(decoder) {
            Ok(v) => v,
            Err(e) => return Err(Error::from_read(e)),
        };
        let height = match Int32::decode(decoder) {
            Ok(v) => v,
            Err(e) => return Err(Error::from_read(e)),
        };
        if width.0 > 0x10000 || height.0 > 0x10000 {
            return Err(Error::canvas(CanvasError::TooBig(width.0 as u32, height.0 as u32)));
        }
        let format = match CanvasFormat::decode(decoder) {
            Ok(f) => f,
            Err(e) => return Err(e),
        };
        let data = match Self::decode_data(decoder) {
            Ok(d) => d,
            Err(e) => return Err(e),
        };
        Ok(Self { width, height, format, data, property })
    }
}

} // verus!
