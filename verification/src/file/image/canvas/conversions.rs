//! Compressed RGBA Pixel Type

use crate::error::CanvasError;
use crate::file::image::canvas::{rgba_from_raw, RgbaBuffer};
use image::imageops::FilterType;
use image::{DynamicImage, RgbaImage};
use vstd::prelude::*;

verus! {

/// Largest value of a 4-bit channel
pub const MAX_BGRA4444_SIZE: u8 = 15;

/// Largest value of the 5-bit red and blue channels
pub const MAX_RGB565_RB: u8 = 31;

/// Largest value of the 6-bit green channel
pub const MAX_RGB565_G: u8 = 63;

/// `src_val` scaled from `0..=src_max` to `0..=dst_max`, rounding down.
pub open spec fn spec_ratio(src_val: u8, src_max: u8, dst_max: u8) -> u8 {
    ((src_val * dst_max) / (src_max as int)) as u8
}

/// Scales `src_val` from `0..=src_max` to `0..=dst_max`, rounding down
pub fn ratio(src_val: u8, src_max: u8, dst_max: u8) -> (r: u8)
    requires
        src_max > 0,
        src_val <= src_max,
    ensures
        r == spec_ratio(src_val, src_max, dst_max),
{
    assert(src_val as usize * dst_max as usize <= 255 * 255) by (nonlinear_arith)
        requires
            src_val <= 255,
            dst_max <= 255,
    ;
    assert((src_val as int * dst_max as int) / (src_max as int) <= dst_max as int) by (
    nonlinear_arith)
        requires
            src_val <= src_max,
            src_max > 0,
    ;
    ((src_val as usize * dst_max as usize) / src_max as usize) as u8
}

/// The four channels of a BGRA4444 pixel (blue in the top nibble, alpha in the bottom one),
/// as alpha, red, green and blue scaled to 8 bits.
pub open spec fn spec_split4444(pixel: u16) -> Seq<u8> {
    seq![
        spec_ratio((pixel & 0xf) as u8, 15, 255),
        spec_ratio(((pixel >> 4u16) & 0xf) as u8, 15, 255),
        spec_ratio(((pixel >> 8u16) & 0xf) as u8, 15, 255),
        spec_ratio((pixel >> 12u16) as u8, 15, 255),
    ]
}

/// Splits a BGRA4444 pixel into alpha, red, green and blue, each scaled to 8 bits
pub fn split4444(pixel: u16) -> (r: [u8; 4])
    ensures
        r@ == spec_split4444(pixel),
{
    let b = (pixel >> 12u16) as u8;
    let g = ((pixel >> 8u16) & 0xf) as u8;
    let rr = ((pixel >> 4u16) & 0xf) as u8;
    let a = (pixel & 0xf) as u8;
    assert(pixel >> 12u16 <= 15 && (pixel >> 8u16) & 0xf <= 15 && (pixel >> 4u16) & 0xf <= 15
        && pixel & 0xf <= 15) by (bit_vector);
    let r = [
        ratio(a, MAX_BGRA4444_SIZE, u8::MAX),
        ratio(rr, MAX_BGRA4444_SIZE, u8::MAX),
        ratio(g, MAX_BGRA4444_SIZE, u8::MAX),
        ratio(b, MAX_BGRA4444_SIZE, u8::MAX),
    ];
    assert(r@ =~= spec_split4444(pixel));
    r
}

/// The BGRA4444 pixel of 8-bit channels, each scaled down to 4 bits.
pub open spec fn spec_join4444(a: u8, r: u8, g: u8, b: u8) -> u16 {
    let a4 = spec_ratio(a, 255, 15) as u16;
    let r4 = spec_ratio(r, 255, 15) as u16;
    let g4 = spec_ratio(g, 255, 15) as u16;
    let b4 = spec_ratio(b, 255, 15) as u16;
    (b4 << 12u16) | (g4 << 8u16) | (r4 << 4u16) | a4
}

/// Joins 8-bit alpha, red, green and blue into a BGRA4444 pixel
pub fn join4444(a: u8, r: u8, g: u8, b: u8) -> (p: u16)
    ensures
        p == spec_join4444(a, r, g, b),
{
    let a = ratio(a, u8::MAX, MAX_BGRA4444_SIZE);
    let r = ratio(r, u8::MAX, MAX_BGRA4444_SIZE);
    let g = ratio(g, u8::MAX, MAX_BGRA4444_SIZE);
    let b = ratio(b, u8::MAX, MAX_BGRA4444_SIZE);
    let (a, r, g, b) = (a as u16, r as u16, g as u16, b as u16);
    assert(b <= 15 && g <= 15 && r <= 15 && a <= 15);
    let p = ((b << 12u16) & 0xf000) | ((g << 8u16) & 0x0f00) | ((r << 4u16) & 0x00f0) | (a
        & 0x000f);
    assert(p == (b << 12u16) | (g << 8u16) | (r << 4u16) | a) by (bit_vector)
        requires
            b <= 15 && g <= 15 && r <= 15 && a <= 15,
            p == ((b << 12u16) & 0xf000) | ((g << 8u16) & 0x0f00) | ((r << 4u16) & 0x00f0) | (a
                & 0x000f),
    ;
    p
}

/// Joining the channels that a split gives back gives the pixel back.
pub proof fn lemma_join4444_split4444(pixel: u16)
    ensures
        ({
            let c = spec_split4444(pixel);
            spec_join4444(c[0], c[1], c[2], c[3]) == pixel
        }),
{
    let a = pixel & 0xf;
    let r = (pixel >> 4u16) & 0xf;
    let g = (pixel >> 8u16) & 0xf;
    let b = pixel >> 12u16;
    assert(a <= 15 && r <= 15 && g <= 15 && b <= 15) by (bit_vector)
        requires
            a == pixel & 0xf,
            r == (pixel >> 4u16) & 0xf,
            g == (pixel >> 8u16) & 0xf,
            b == pixel >> 12u16,
    ;
    lemma_ratio_nibble(a as u8);
    lemma_ratio_nibble(r as u8);
    lemma_ratio_nibble(g as u8);
    lemma_ratio_nibble(b as u8);
    assert(pixel == (b << 12u16) | (g << 8u16) | (r << 4u16) | a) by (bit_vector)
        requires
            a == pixel & 0xf,
            r == (pixel >> 4u16) & 0xf,
            g == (pixel >> 8u16) & 0xf,
            b == pixel >> 12u16,
    ;
}

/// A 4-bit value scaled to 8 bits and back is the value.
pub proof fn lemma_ratio_nibble(x: u8)
    requires
        x <= 15,
    ensures
        spec_ratio(x, 15, 255) == x * 17,
        spec_ratio(spec_ratio(x, 15, 255), 255, 15) == x,
{
    assert((x * 255) / 15 == x * 17) by (nonlinear_arith)
        requires
            x <= 15,
    ;
    assert(((x * 17) * 15) / 255 == x) by (nonlinear_arith)
        requires
            x <= 15,
    ;
}

/// The three channels of an RGB565 pixel (red in the top 5 bits, blue in the bottom 5), each
/// scaled to 8 bits.
pub open spec fn spec_split565(pixel: u16) -> Seq<u8> {
    seq![
        spec_ratio((pixel >> 11u16) as u8, 31, 255),
        spec_ratio(((pixel >> 5u16) & 0x3f) as u8, 63, 255),
        spec_ratio((pixel & 0x1f) as u8, 31, 255),
    ]
}

/// Splits an RGB565 pixel into red, green and blue, each scaled to 8 bits
pub fn split565(pixel: u16) -> (r: [u8; 3])
    ensures
        r@ == spec_split565(pixel),
{
    let b = (pixel & 0x1f) as u8;
    let g = ((pixel >> 5u16) & 0x3f) as u8;
    let rr = (pixel >> 11u16) as u8;
    assert(pixel & 0x1f <= 31 && (pixel >> 5u16) & 0x3f <= 63 && pixel >> 11u16 <= 31) by (
    bit_vector);
    let r = [
        ratio(rr, MAX_RGB565_RB, u8::MAX),
        ratio(g, MAX_RGB565_G, u8::MAX),
        ratio(b, MAX_RGB565_RB, u8::MAX),
    ];
    assert(r@ =~= spec_split565(pixel));
    r
}

/// The RGB565 pixel of 8-bit channels: red and blue scaled down to 5 bits, green to 6, red
/// in the top bits and blue in the bottom ones.
pub open spec fn spec_join565(r: u8, g: u8, b: u8) -> u16 {
    let r5 = spec_ratio(r, 255, 31) as u16;
    let g6 = spec_ratio(g, 255, 63) as u16;
    let b5 = spec_ratio(b, 255, 31) as u16;
    (r5 << 11u16) | (g6 << 5u16) | b5
}

/// Joins 8-bit red, green and blue into an RGB565 pixel
pub fn join565(r: u8, g: u8, b: u8) -> (p: u16)
    ensures
        p == spec_join565(r, g, b),
{
    let r = ratio(r, u8::MAX, MAX_RGB565_RB) as u16;
    let g = ratio(g, u8::MAX, MAX_RGB565_G) as u16;
    let b = ratio(b, u8::MAX, MAX_RGB565_RB) as u16;
    (r << 11u16) | (g << 5u16) | b
}

/// An 8-bit value scaled down to `m` and back up is at most the value, and short of it by
/// less than one step of `255 / m`.
proof fn lemma_ratio_down_up(x: u8, m: u8)
    requires
        0 < m <= 255,
    ensures
        spec_ratio(spec_ratio(x, 255, m), m, 255) <= x,
        x < spec_ratio(spec_ratio(x, 255, m), m, 255) + 255int / (m as int) + 2,
{
    let y = (x as int * m as int) / 255;
    assert(0 <= y <= m) by (nonlinear_arith)
        requires
            y == (x as int * m as int) / 255,
            0 < m <= 255,
            0 <= x <= 255,
    ;
    assert(spec_ratio(x, 255, m) == y);
    let back = (y * 255) / (m as int);
    assert(0 <= back <= 255) by (nonlinear_arith)
        requires
            back == (y * 255) / (m as int),
            0 <= y <= m,
            0 < m,
    ;
    assert(spec_ratio(y as u8, m, 255) == back);
    assert(back <= x && x < back + 255int / (m as int) + 2) by (nonlinear_arith)
        requires
            y == (x as int * m as int) / 255,
            back == (y * 255) / (m as int),
            0 < m <= 255,
            0 <= x <= 255,
            0 <= y,
    ;
}

/// Converting 8-bit channels to an RGB565 pixel and back gives each channel back up to
/// rounding: red and blue at most 8 lower, green at most 4 lower.
pub proof fn lemma_split565_join565(r: u8, g: u8, b: u8)
    ensures
        ({
            let c = spec_split565(spec_join565(r, g, b));
            &&& c[0] <= r < c[0] + 10
            &&& c[1] <= g < c[1] + 6
            &&& c[2] <= b < c[2] + 10
        }),
{
    lemma_ratio_down_up(r, 31);
    lemma_ratio_down_up(g, 63);
    lemma_ratio_down_up(b, 31);
    let r5 = spec_ratio(r, 255, 31) as u16;
    let g6 = spec_ratio(g, 255, 63) as u16;
    let b5 = spec_ratio(b, 255, 31) as u16;
    assert(r5 <= 31 && g6 <= 63 && b5 <= 31) by (nonlinear_arith)
        requires
            r5 == ((r as int * 31) / 255) as u8 as u16,
            g6 == ((g as int * 63) / 255) as u8 as u16,
            b5 == ((b as int * 31) / 255) as u8 as u16,
            0 <= r <= 255,
            0 <= g <= 255,
            0 <= b <= 255,
    ;
    let p = (r5 << 11u16) | (g6 << 5u16) | b5;
    assert((p >> 11u16) == r5 && ((p >> 5u16) & 0x3f) == g6 && (p & 0x1f) == b5) by (bit_vector)
        requires
            r5 <= 31 && g6 <= 63 && b5 <= 31,
            p == (r5 << 11u16) | (g6 << 5u16) | b5,
    ;
}

/// The little-endian 16-bit value of bytes `i` and `i + 1` of `data`.
pub open spec fn u16_at(data: Seq<u8>, i: int) -> u16 {
    (data[i] as u16) | ((data[i + 1] as u16) << 8u16)
}

/// Each BGRA4444 pixel of `data` (two bytes each) as four RGBA bytes.
pub open spec fn spec_bgra4444_pixels(data: Seq<u8>) -> Seq<u8> {
    Seq::new(data.len() / 2 * 4, |i: int| spec_split4444(u16_at(data, (i / 4) * 2))[i % 4])
}

/// Each RGB565 pixel of `data` (two bytes each) as four RGBA bytes, alpha being 255.
pub open spec fn spec_rgb565_pixels(data: Seq<u8>) -> Seq<u8> {
    Seq::new(
        data.len() / 2 * 4,
        |i: int|
            if i % 4 == 3 {
                255u8
            } else {
                spec_split565(u16_at(data, (i / 4) * 2))[i % 4]
            },
    )
}

/// Converts each 2-byte pixel of `data` with `split` into 4 bytes (`rgb565` chooses RGB565,
/// else BGRA4444).
fn convert_pixels(data: &[u8], rgb565: bool) -> (r: Vec<u8>)
    requires
        data@.len() % 2 == 0,
    ensures
        r@ == if rgb565 {
            spec_rgb565_pixels(data@)
        } else {
            spec_bgra4444_pixels(data@)
        },
{
    let ghost want = if rgb565 {
        spec_rgb565_pixels(data@)
    } else {
        spec_bgra4444_pixels(data@)
    };
    let mut out: Vec<u8> = Vec::new();
    let mut i: usize = 0;
    while i < data.len()
        invariant
            data@.len() % 2 == 0,
            i % 2 == 0,
            i <= data@.len(),
            want == if rgb565 {
                spec_rgb565_pixels(data@)
            } else {
                spec_bgra4444_pixels(data@)
            },
            want.len() == data@.len() / 2 * 4,
            out@.len() == i / 2 * 4,
            forall|k: int| 0 <= k < out@.len() ==> out@[k] == want[k],
        decreases data@.len() - i,
    {
        let pixel = (data[i] as u16) | ((data[i + 1] as u16) << 8u16);
        assert(pixel == u16_at(data@, i as int));
        let ghost base = out@.len();
        if rgb565 {
            let c = split565(pixel);
            out.push(c[0]);
            out.push(c[1]);
            out.push(c[2]);
            out.push(255u8);
        } else {
            let c = split4444(pixel);
            out.push(c[0]);
            out.push(c[1]);
            out.push(c[2]);
            out.push(c[3]);
        }
        assert forall|k: int| base <= k < base + 4 implies out@[k] == want[k] by {
            assert(k / 4 == i as int / 2);
            assert((k / 4) * 2 == i);
        }
        i = i + 2;
    }
    assert(out@ =~= want);
    out
}

/// DirectX DXGI_FORMAT_B4G4R4A4
pub fn from_bgra4444(width: u32, height: u32, data: Vec<u8>) -> (r: Result<RgbaBuffer, CanvasError>)
    requires
        data@.len() % 2 == 0,
    ensures
        match rgba_from_raw(width, height, spec_bgra4444_pixels(data@)) {
            Some(()) => r matches Ok(img) && img.width == width && img.height == height
                && img.data@ == spec_bgra4444_pixels(data@),
            None => r matches Err(CanvasError::SizeMismatch(w, h, l)) && w == width && h
                == height && l == data@.len(),
        },
{
    let pixels = convert_pixels(data.as_slice(), false);
    match RgbaBuffer::from_raw(width, height, pixels) {
        Some(img) => Ok(img),
        None => Err(CanvasError::SizeMismatch(width, height, data.len())),
    }
}

/// The BGRA4444 bytes of RGBA pixels: each 4 bytes joined into one little-endian pixel.
pub open spec fn spec_to_bgra4444(raw: Seq<u8>) -> Seq<u8> {
    Seq::new(
        raw.len() / 4 * 2,
        |i: int|
            {
                let k = (i / 2) * 4;
                let p = spec_join4444(raw[k], raw[k + 1], raw[k + 2], raw[k + 3]);
                if i % 2 == 0 {
                    (p & 0xff) as u8
                } else {
                    (p >> 8u16) as u8
                }
            },
    )
}

/// The RGB565 bytes of RGBA pixels: each pixel joined (alpha dropped) into one little-endian
/// pixel.
pub open spec fn spec_to_rgb565(raw: Seq<u8>) -> Seq<u8> {
    Seq::new(
        raw.len() / 4 * 2,
        |i: int|
            {
                let k = (i / 2) * 4;
                let p = spec_join565(raw[k], raw[k + 1], raw[k + 2]);
                if i % 2 == 0 {
                    (p & 0xff) as u8
                } else {
                    (p >> 8u16) as u8
                }
            },
    )
}

/// Joins each 4 bytes of `raw` into a 2-byte pixel (`rgb565` chooses RGB565, else
/// BGRA4444).
fn join_pixels(raw: &[u8], rgb565: bool) -> (r: Vec<u8>)
    requires
        raw@.len() % 4 == 0,
    ensures
        r@ == if rgb565 {
            spec_to_rgb565(raw@)
        } else {
            spec_to_bgra4444(raw@)
        },
{
    let ghost want = if rgb565 {
        spec_to_rgb565(raw@)
    } else {
        spec_to_bgra4444(raw@)
    };
    let mut out: Vec<u8> = Vec::new();
    let mut i: usize = 0;
    while i < raw.len()
        invariant
            raw@.len() % 4 == 0,
            i % 4 == 0,
            i <= raw@.len(),
            want == if rgb565 {
                spec_to_rgb565(raw@)
            } else {
                spec_to_bgra4444(raw@)
            },
            want.len() == raw@.len() / 4 * 2,
            out@.len() == i / 4 * 2,
            forall|k: int| 0 <= k < out@.len() ==> out@[k] == want[k],
        decreases raw@.len() - i,
    {
        let p = if rgb565 {
            join565(raw[i], raw[i + 1], raw[i + 2])
        } else {
            join4444(raw[i], raw[i + 1], raw[i + 2], raw[i + 3])
        };
        let ghost base = out@.len();
        out.push((p & 0xff) as u8);
        out.push((p >> 8u16) as u8);
        assert forall|k: int| base <= k < base + 2 implies out@[k] == want[k] by {
            assert((k / 2) * 4 == i);
        }
        i = i + 4;
    }
    assert(out@ =~= want);
    out
}

/// DirectX DXGI_FORMAT_B4G4R4A4
pub fn to_bgra4444(img: &RgbaBuffer) -> (r: (u32, u32, Vec<u8>))
    requires
        img.data@.len() % 4 == 0,
    ensures
        r.0 == img.width,
        r.1 == img.height,
        r.2@ == spec_to_bgra4444(img.data@),
{
    (img.width, img.height, join_pixels(img.data.as_slice(), false))
}

/// DirectX DXGI_FORMAT_B5G6R5
pub fn from_rgb565(width: u32, height: u32, data: Vec<u8>) -> (r: Result<RgbaBuffer, CanvasError>)
    requires
        data@.len() % 2 == 0,
    ensures
        match rgba_from_raw(width, height, spec_rgb565_pixels(data@)) {
            Some(()) => r matches Ok(img) && img.width == width && img.height == height
                && img.data@ == spec_rgb565_pixels(data@),
            None => r matches Err(CanvasError::SizeMismatch(w, h, l)) && w == width && h
                == height && l == data@.len(),
        },
{
    let pixels = convert_pixels(data.as_slice(), true);
    match RgbaBuffer::from_raw(width, height, pixels) {
        Some(img) => Ok(img),
        None => Err(CanvasError::SizeMismatch(width, height, data.len())),
    }
}

/// DirectX DXGI_FORMAT_B5G6R5
pub fn to_rgb565(img: &RgbaBuffer) -> (r: (u32, u32, Vec<u8>))
    requires
        img.data@.len() % 4 == 0,
    ensures
        r.0 == img.width,
        r.1 == img.height,
        r.2@ == spec_to_rgb565(img.data@),
{
    (img.width, img.height, join_pixels(img.data.as_slice(), true))
}


/// The RGBA image that resizing the `width` by `height` image `rgba` to fit `nwidth` by
/// `nheight` with nearest-pixel sampling gives: its width, its height and its pixel bytes.
pub uninterp spec fn resized_nearest(
    rgba: Seq<u8>,
    width: u32,
    height: u32,
    nwidth: u32,
    nheight: u32,
) -> (u32, u32, Seq<u8>);

/// Calls `image::DynamicImage::resize` with `FilterType::Nearest` on the RGBA image of the
/// `width` by `height` pixels `rgba`: it keeps the aspect ratio and scales to the largest
/// size within `nwidth` by `nheight`. The result is named by `resized_nearest`; the sampling
/// itself is not stated here.
#[verifier::external_body]
fn resize_nearest(rgba: Vec<u8>, width: u32, height: u32, nwidth: u32, nheight: u32) -> (r: (
    u32,
    u32,
    Vec<u8>,
))
    requires
        rgba_from_raw(width, height, rgba@) is Some,
    ensures
        (r.0, r.1, r.2@) == resized_nearest(rgba@, width, height, nwidth, nheight),
{
    let img = RgbaImage::from_raw(width, height, rgba).unwrap();
    let out = DynamicImage::ImageRgba8(img).resize(nwidth, nheight, FilterType::Nearest).into_rgba8();
    let (w, h) = out.dimensions();
    (w, h, out.into_raw())
}

/// This format just blows up an RGB565 image 16x: the pixels are those of a `width / 16` by
/// `height / 16` RGB565 image, resized to `width` by `height`
pub fn expand_rgb565(width: u32, height: u32, data: Vec<u8>) -> (r: Result<RgbaBuffer, CanvasError>)
    requires
        data@.len() % 2 == 0,
    ensures
        match rgba_from_raw(width / 16, height / 16, spec_rgb565_pixels(data@)) {
            Some(()) => r matches Ok(img) && (img.width, img.height, img.data@) == resized_nearest(
                spec_rgb565_pixels(data@),
                width / 16,
                height / 16,
                width,
                height,
            ),
            None => r matches Err(CanvasError::SizeMismatch(w, h, l)) && w == width / 16 && h
                == height / 16 && l == data@.len(),
        },
{
    let img = match from_rgb565(width / 16, height / 16, data) {
        Ok(i) => i,
        Err(e) => return Err(e),
    };
    let (w, h, d) = resize_nearest(img.data, img.width, img.height, width, height);
    Ok(RgbaBuffer { width: w, height: h, data: d })
}

} // verus!
