//! Parsed Canvas type

pub mod conversions;
pub mod dxt;
pub mod squish;

use crate::error::CanvasError;
use crate::types::Int32;
use conversions::{from_bgra4444, from_rgb565, spec_bgra4444_pixels, spec_rgb565_pixels};
use inflate::inflate_bytes_zlib;
use vstd::prelude::*;

verus! {

/// An RGBA image as plain values: its width, its height and its pixels, four bytes each,
/// row by row (the buffer may hold more bytes than the pixels).
#[derive(Debug, PartialEq, Eq)]
pub struct RgbaBuffer {
    /// Width in pixels
    pub width: u32,
    /// Height in pixels
    pub height: u32,
    /// The pixel bytes
    pub data: Vec<u8>,
}

/// Whether `buf` holds the pixels of a `width` by `height` RGBA image: the byte count, four
/// per pixel, must be a `usize` and at most the length of `buf`.
pub open spec fn rgba_from_raw(width: u32, height: u32, buf: Seq<u8>) -> Option<()> {
    if 4 * width * height <= usize::MAX && 4 * width * height <= buf.len() {
        Some(())
    } else {
        None
    }
}

impl RgbaBuffer {
    /// Makes an image of `buf`, if it holds the pixels of a `width` by `height` image
    pub fn from_raw(width: u32, height: u32, buf: Vec<u8>) -> (r: Option<Self>)
        ensures
            match rgba_from_raw(width, height, buf@) {
                Some(()) => r matches Some(img) && img.width == width && img.height == height
                    && img.data@ == buf@,
                None => r is None,
            },
    {
        let w = width as u128;
        let h = height as u128;
        assert(w * h <= 0xffff_ffff * 0xffff_ffff) by (nonlinear_arith)
            requires
                w <= 0xffff_ffff,
                h <= 0xffff_ffff,
        ;
        let len: u128 = 4 * (w * h);
        assert(len == 4 * width * height) by (nonlinear_arith)
            requires
                len == 4 * (w * h),
                w == width,
                h == height,
        ;
        if len <= usize::MAX as u128 && len <= buf.len() as u128 {
            Some(RgbaBuffer { width, height, data: buf })
        } else {
            None
        }
    }
}

/// The result of inflating the zlib stream `data`: the bytes, or the message of what is
/// wrong with the stream.
pub uninterp spec fn zlib_inflate(data: Seq<u8>) -> Result<Seq<u8>, Seq<char>>;

/// `inflate::inflate_bytes_zlib`: the inflated bytes of the zlib stream `data`, or the
/// message of the error. Which of the two comes back, and what it holds, is named by
/// `zlib_inflate`; the inflate algorithm itself is not stated here.
#[verifier::external_body]
fn inflate_zlib(data: &[u8]) -> (r: Result<Vec<u8>, String>)
    ensures
        match zlib_inflate(data@) {
            Ok(b) => r matches Ok(v) && v@ == b,
            Err(m) => r matches Err(s) && s@ == m,
        },
{
    inflate_bytes_zlib(data)
}

/// A canvas: an image stored zlib-compressed in one of a few pixel formats
#[derive(Debug, PartialEq, Eq)]
pub struct Canvas {
    width: Int32,
    height: Int32,
    format: Int32,
    data: Vec<u8>,
}

/// The pixels of a canvas whose inflated data is `data`, in the pixel format `format`: 1 is
/// BGRA4444 (two bytes a pixel), 2 is RGBA already, 513 is RGB565 (two bytes a pixel).
pub open spec fn spec_image(width: u32, height: u32, format: i32, data: Seq<u8>) -> Result<
    (u32, u32, Seq<u8>),
    CanvasError,
> {
    let pixels = if format == 1 {
        spec_bgra4444_pixels(data)
    } else if format == 513 {
        spec_rgb565_pixels(data)
    } else {
        data
    };
    if format != 1 && format != 2 && format != 513 {
        Err(CanvasError::EncodingFormat(Int32(format)))
    } else if (format == 1 || format == 513) && data.len() % 2 != 0 {
        Err(CanvasError::SizeMismatch(width, height, data.len() as usize))
    } else {
        match rgba_from_raw(width, height, pixels) {
            Some(()) => Ok((width, height, pixels)),
            None => Err(CanvasError::SizeMismatch(width, height, data.len() as usize)),
        }
    }
}

impl Canvas {
    /// Creates a canvas; its format is the sum of the two format fields
    pub fn new(width: Int32, height: Int32, format: Int32, format2: u8, data: Vec<u8>) -> (r: Self)
        requires
            format@ + format2 <= i32::MAX,
        ensures
            r.spec_width() == width,
            r.spec_height() == height,
            r.spec_format()@ == format@ + format2,
            r.spec_data() == data@,
    {
        Self { width, height, format: Int32(format.0 + format2 as i32), data }
    }

    /// The width
    pub closed spec fn spec_width(&self) -> Int32 {
        self.width
    }

    /// The height
    pub closed spec fn spec_height(&self) -> Int32 {
        self.height
    }

    /// The format
    pub closed spec fn spec_format(&self) -> Int32 {
        self.format
    }

    /// The compressed pixel data
    pub closed spec fn spec_data(&self) -> Seq<u8> {
        self.data@
    }

    /// Returns the width
    pub fn width(&self) -> (r: Int32)
        ensures
            r == self.spec_width(),
    {
        self.width
    }

    /// Returns the height
    pub fn height(&self) -> (r: Int32)
        ensures
            r == self.spec_height(),
    {
        self.height
    }

    /// Returns the format
    pub fn format(&self) -> (r: Int32)
        ensures
            r == self.spec_format(),
    {
        self.format
    }

    /// Returns the compressed data
    pub fn data(&self) -> (r: &[u8])
        ensures
            r@ == self.spec_data(),
    {
        self.data.as_slice()
    }

    /// Inflates the pixel data
    pub fn decompressed_data(&self) -> (r: Result<Vec<u8>, CanvasError>)
        ensures
            match zlib_inflate(self.spec_data()) {
                Ok(b) => r matches Ok(v) && v@ == b,
                Err(m) => r matches Err(CanvasError::Inflate(s)) && s@ == m,
            },
    {
        match inflate_zlib(self.data.as_slice()) {
            Ok(d) => Ok(d),
            Err(e) => Err(CanvasError::Inflate(e)),
        }
    }

    /// The image: the inflated data converted to RGBA pixels
    pub fn image_buffer(&self) -> (r: Result<RgbaBuffer, CanvasError>)
        ensures
            match zlib_inflate(self.spec_data()) {
                Err(m) => r matches Err(CanvasError::Inflate(s)) && s@ == m,
                Ok(b) => match spec_image(
                    self.spec_width()@ as u32,
                    self.spec_height()@ as u32,
                    self.spec_format()@,
                    b,
                ) {
                    Ok((w, h, p)) => r matches Ok(img) && img.width == w && img.height == h
                        && img.data@ == p,
                    Err(e) => r == Err::<RgbaBuffer, CanvasError>(e),
                },
            },
    {
        encode_image(self)
    }
}

/// Converts the inflated data of a canvas into RGBA pixels
fn encode_image(canvas: &Canvas) -> (r: Result<RgbaBuffer, CanvasError>)
    ensures
        match zlib_inflate(canvas.spec_data()) {
            Err(m) => r matches Err(CanvasError::Inflate(s)) && s@ == m,
            Ok(b) => match spec_image(
                canvas.spec_width()@ as u32,
                canvas.spec_height()@ as u32,
                canvas.spec_format()@,
                b,
            ) {
                Ok((w, h, p)) => r matches Ok(img) && img.width == w && img.height == h
                    && img.data@ == p,
                Err(e) => r == Err::<RgbaBuffer, CanvasError>(e),
            },
        },
{
    let width = canvas.width.0 as u32;
    let height = canvas.height.0 as u32;
    let data = match canvas.decompressed_data() {
        Ok(d) => d,
        Err(e) => return Err(e),
    };
    let format = canvas.format.0;
    if format == 1 || format == 513 {
        if data.len() % 2 != 0 {
            return Err(CanvasError::SizeMismatch(width, height, data.len()));
        }
        if format == 1 {
            from_bgra4444(width, height, data)
        } else {
            from_rgb565(width, height, data)
        }
    } else if format == 2 {
        let data_len = data.len();
        match RgbaBuffer::from_raw(width, height, data) {
            Some(img) => Ok(img),
            None => Err(CanvasError::SizeMismatch(width, height, data_len)),
        }
    } else {
        Err(CanvasError::EncodingFormat(Int32(format)))
    }
}

} // verus!
