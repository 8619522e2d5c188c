//! BC* Compressed Images

use crate::error::CanvasError;
use crate::file::image::canvas::{rgba_from_raw, RgbaBuffer};
use squish::{Format, Params};
use vstd::prelude::*;

verus! {

/// The bytes that a `width` by `height` image takes compressed in BC3: 16 for each 4x4
/// block, partial blocks counting whole.
pub open spec fn bc3_size(width: int, height: int) -> int {
    ((width + 3) / 4) * ((height + 3) / 4) * 16
}

/// The RGBA pixels of the BC3 data `data` of a `width` by `height` image.
pub uninterp spec fn bc3_decompressed(data: Seq<u8>, width: usize, height: usize) -> Seq<u8>;

/// The BC3 data that the RGBA pixels `rgba` of a `width` by `height` image compress into,
/// with the default parameters.
pub uninterp spec fn bc3_compressed(rgba: Seq<u8>, width: usize, height: usize) -> Seq<u8>;

/// `squish::Format::Bc3.decompress` into `output`, a zeroed buffer of four bytes a pixel: it
/// writes every pixel of the image, reading a whole block for each 4x4 block.
#[verifier::external_body]
fn bc3_decompress(data: &[u8], width: usize, height: usize, output: &mut Vec<u8>)
    requires
        width + 3 <= usize::MAX,
        height + 3 <= usize::MAX,
        old(output)@ == Seq::new((4 * width * height) as nat, |i: int| 0u8),
        bc3_size(width as int, height as int) <= data@.len(),
    ensures
        final(output)@ == bc3_decompressed(data@, width, height),
        final(output)@.len() == 4 * width * height,
{
    Format::Bc3.decompress(data, width, height, output.as_mut_slice());
}

/// `squish::Format::Bc3.compress` with the default parameters into `output`, a zeroed buffer
/// of the size that `compressed_size` gives, which it fills block by block.
#[verifier::external_body]
fn bc3_compress(rgba: &[u8], width: usize, height: usize, output: &mut Vec<u8>)
    requires
        width + 3 <= usize::MAX,
        height + 3 <= usize::MAX,
        old(output)@ == Seq::new(bc3_size(width as int, height as int) as nat, |i: int| 0u8),
        4 * width * height <= rgba@.len(),
    ensures
        final(output)@ == bc3_compressed(rgba@, width, height),
        final(output)@.len() == bc3_size(width as int, height as int),
{
    Format::Bc3.compress(rgba, width, height, Params::default(), output.as_mut_slice());
}

/// `n` zero bytes.
fn zeroed(n: usize) -> (r: Vec<u8>)
    ensures
        r@ == Seq::new(n as nat, |i: int| 0u8),
{
    let mut v: Vec<u8> = Vec::new();
    let mut i: usize = 0;
    while i < n
        invariant
            i <= n,
            v@ == Seq::new(i as nat, |k: int| 0u8),
        decreases n - i,
    {
        v.push(0u8);
        i = i + 1;
        assert(v@ =~= Seq::new(i as nat, |k: int| 0u8));
    }
    v
}

/// Decompresses BC3 data into an image
fn from_bc(width: usize, height: usize, data: Vec<u8>) -> (r: Result<RgbaBuffer, CanvasError>)
    requires
        width + 3 <= usize::MAX,
        height + 3 <= usize::MAX,
        width <= u32::MAX,
        height <= u32::MAX,
        4 * width * height <= usize::MAX,
        bc3_size(width as int, height as int) <= data@.len(),
    ensures
        r matches Ok(img) && img.width == width && img.height == height && img.data@
            == bc3_decompressed(data@, width, height),
{
    assert(width * height <= 4 * width * height <= usize::MAX) by (nonlinear_arith)
        requires
            4 * width * height <= usize::MAX,
    ;
    let pixels = width * height;
    assert(pixels * 4 == 4 * width * height) by (nonlinear_arith)
        requires
            pixels == width * height,
    ;
    let mut output = zeroed(pixels * 4);
    bc3_decompress(data.as_slice(), width, height, &mut output);
    match RgbaBuffer::from_raw(width as u32, height as u32, output) {
        Some(img) => Ok(img),
        None => Err(CanvasError::SizeMismatch(width as u32, height as u32, data.len())),
    }
}

/// Compresses the pixels of an image into BC3 data
fn to_bc(width: usize, height: usize, data: Vec<u8>) -> (r: (u32, u32, Vec<u8>))
    requires
        width + 3 <= usize::MAX,
        height + 3 <= usize::MAX,
        width <= u32::MAX,
        height <= u32::MAX,
        bc3_size(width as int, height as int) <= usize::MAX,
        4 * width * height <= data@.len(),
    ensures
        r.0 == width,
        r.1 == height,
        r.2@ == bc3_compressed(data@, width, height),
{
    let size = ((width + 3) / 4) * ((height + 3) / 4) * 16;
    let mut output = zeroed(size);
    bc3_compress(data.as_slice(), width, height, &mut output);
    (width as u32, height as u32, output)
}

/// DirectX DXGI_FORMAT_BC3
pub fn from_bc3(width: u32, height: u32, data: Vec<u8>) -> (r: Result<RgbaBuffer, CanvasError>)
    requires
        width % 4 == 0,
        height % 4 == 0,
        data@.len() % 16 == 0,
        width + 3 <= usize::MAX,
        height + 3 <= usize::MAX,
        4 * width * height <= usize::MAX,
        bc3_size(width as int, height as int) <= data@.len(),
    ensures
        r matches Ok(img) && img.width == width && img.height == height && img.data@
            == bc3_decompressed(data@, width as usize, height as usize),
{
    from_bc(width as usize, height as usize, data)
}

/// DirectX DXGI_FORMAT_BC3
pub fn to_bc3(img: RgbaBuffer) -> (r: (u32, u32, Vec<u8>))
    requires
        img.width % 4 == 0,
        img.height % 4 == 0,
        img.width + 3 <= usize::MAX,
        img.height + 3 <= usize::MAX,
        bc3_size(img.width as int, img.height as int) <= usize::MAX,
        4 * img.width * img.height <= img.data@.len(),
    ensures
        r.0 == img.width,
        r.1 == img.height,
        r.2@ == bc3_compressed(img.data@, img.width as usize, img.height as usize),
{
    let width = img.width;
    let height = img.height;
    to_bc(width as usize, height as usize, img.data)
}

} // verus!
