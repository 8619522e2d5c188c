//! DXT* Compressed Images

use crate::error::CanvasError;
use crate::file::image::canvas::conversions::{
    lemma_ratio_nibble, ratio, spec_ratio, spec_split565, split565, u16_at,
};
use crate::file::image::canvas::RgbaBuffer;
use vstd::prelude::*;

verus! {

/// Largest value of a 4-bit alpha
pub const MAX_44_SIZE: u8 = 15;

/// The two 4-bit values of a byte (low nibble first), each scaled to 8 bits.
pub open spec fn spec_split44(byte: u8) -> Seq<u8> {
    seq![spec_ratio(byte & 0xf, 15, 255), spec_ratio(byte >> 4u8, 15, 255)]
}

/// Splits a byte into its two 4-bit values, low nibble first, each scaled to 8 bits
pub fn split44(byte: u8) -> (r: [u8; 2])
    ensures
        r@ == spec_split44(byte),
{
    assert(byte & 0xf <= 15) by (bit_vector);
    assert(byte >> 4u8 <= 15) by (bit_vector);
    let r = [ratio(byte & 0xf, MAX_44_SIZE, u8::MAX), ratio(byte >> 4u8, MAX_44_SIZE, u8::MAX)];
    assert(r@ =~= spec_split44(byte));
    r
}

/// The byte holding `a` and `b`, each scaled down to 4 bits, `b` in the high nibble.
pub open spec fn spec_join44(a: u8, b: u8) -> u8 {
    (spec_ratio(b, 255, 15) << 4u8) | spec_ratio(a, 255, 15)
}

/// Joins two 8-bit values into a byte of two 4-bit values, the second one high
pub fn join44(a: u8, b: u8) -> (r: u8)
    ensures
        r == spec_join44(a, b),
{
    (ratio(b, u8::MAX, MAX_44_SIZE) << 4u8) | ratio(a, u8::MAX, MAX_44_SIZE)
}

/// Joining the two values that a split gives back gives the byte back.
pub proof fn lemma_join44_split44(byte: u8)
    ensures
        spec_join44(spec_split44(byte)[0], spec_split44(byte)[1]) == byte,
{
    let lo = byte & 0xf;
    let hi = byte >> 4u8;
    assert(lo <= 15 && hi <= 15) by (bit_vector)
        requires
            lo == byte & 0xf,
            hi == byte >> 4u8,
    ;
    lemma_ratio_nibble(lo);
    lemma_ratio_nibble(hi);
    assert(byte == (hi << 4u8) | lo) by (bit_vector)
        requires
            lo == byte & 0xf,
            hi == byte >> 4u8,
    ;
}

/// The four 2-bit values of a byte, lowest first.
pub open spec fn spec_split2222(byte: u8) -> Seq<u8> {
    seq![byte & 0x3, (byte >> 2u8) & 0x3, (byte >> 4u8) & 0x3, (byte >> 6u8) & 0x3]
}

/// Splits a byte into its four 2-bit values, lowest first
pub fn split2222(byte: u8) -> (r: [u8; 4])
    ensures
        r@ == spec_split2222(byte),
{
    let r = [byte & 0x3, (byte >> 2u8) & 0x3, (byte >> 4u8) & 0x3, (byte >> 6u8) & 0x3];
    assert(r@ =~= spec_split2222(byte));
    r
}

/// The byte whose four 2-bit values are the low bits of `a`, `b`, `c` and `d`, lowest first.
pub open spec fn spec_join2222(a: u8, b: u8, c: u8, d: u8) -> u8 {
    ((d << 6u8) & 0xc0) | ((c << 4u8) & 0x30) | ((b << 2u8) & 0xc) | (a & 0x3)
}

/// Joins four 2-bit values into a byte, the first one lowest
pub fn join2222(a: u8, b: u8, c: u8, d: u8) -> (r: u8)
    ensures
        r == spec_join2222(a, b, c, d),
{
    ((d << 6u8) & 0xc0) | ((c << 4u8) & 0x30) | ((b << 2u8) & 0xc) | (a & 0x3)
}

/// Joining the four values that a split gives back gives the byte back.
pub proof fn lemma_join2222_split2222(byte: u8)
    ensures
        ({
            let v = spec_split2222(byte);
            spec_join2222(v[0], v[1], v[2], v[3]) == byte
        }),
{
    assert(((((byte >> 6u8) & 0x3) << 6u8) & 0xc0) | ((((byte >> 4u8) & 0x3) << 4u8) & 0x30) | (
    (((byte >> 2u8) & 0x3) << 2u8) & 0xc) | ((byte & 0x3) & 0x3) == byte) by (bit_vector);
}

/// Splitting the byte that a join gives back gives the low two bits of each value.
pub proof fn lemma_split2222_join2222(a: u8, b: u8, c: u8, d: u8)
    ensures
        spec_split2222(spec_join2222(a, b, c, d)) == seq![a & 0x3, b & 0x3, c & 0x3, d & 0x3],
{
    let j = spec_join2222(a, b, c, d);
    assert(j & 0x3 == a & 0x3 && (j >> 2u8) & 0x3 == b & 0x3 && (j >> 4u8) & 0x3 == c & 0x3 && (j
        >> 6u8) & 0x3 == d & 0x3) by (bit_vector)
        requires
            j == ((d << 6u8) & 0xc0) | ((c << 4u8) & 0x30) | ((b << 2u8) & 0xc) | (a & 0x3),
    ;
    assert(spec_split2222(j) =~= seq![a & 0x3, b & 0x3, c & 0x3, d & 0x3]);
}

/// The mix of two channel values: `(wa * a + wb * b) / (wa + wb)`, rounding down.
pub open spec fn mix(a: u8, b: u8, wa: int, wb: int) -> u8 {
    ((wa * a + wb * b) / (wa + wb)) as u8
}

/// The four colors of a DXT color block: its two RGB565 endpoints, then two colors between
/// them (a third and two thirds of the way) when the first endpoint is the greater, else
/// their midpoint and black.
pub open spec fn spec_expand_colors(u0: u16, u1: u16) -> Seq<Seq<u8>> {
    let c0 = spec_split565(u0);
    let c1 = spec_split565(u1);
    if u0 > u1 {
        seq![
            c0,
            c1,
            Seq::new(3, |i: int| mix(c0[i], c1[i], 2, 1)),
            Seq::new(3, |i: int| mix(c0[i], c1[i], 1, 2)),
        ]
    } else {
        seq![c0, c1, Seq::new(3, |i: int| mix(c0[i], c1[i], 1, 1)), seq![0u8, 0u8, 0u8]]
    }
}

/// Mixes two colors channel by channel
fn mix_colors(c0: [u8; 3], c1: [u8; 3], wa: usize, wb: usize) -> (r: [u8; 3])
    requires
        1 <= wa <= 2,
        1 <= wb <= 2,
    ensures
        r@ == Seq::new(3, |i: int| mix(c0@[i], c1@[i], wa as int, wb as int)),
{
    let mut r = [0u8; 3];
    let mut i: usize = 0;
    while i < 3
        invariant
            i <= 3,
            1 <= wa <= 2,
            1 <= wb <= 2,
            forall|k: int| 0 <= k < i ==> r@[k] == mix(c0@[k], c1@[k], wa as int, wb as int),
        decreases 3 - i,
    {
        let a = c0[i] as usize;
        let b = c1[i] as usize;
        assert(wa * a <= 510 && wb * b <= 510) by (nonlinear_arith)
            requires
                a <= 255,
                b <= 255,
                1 <= wa <= 2,
                1 <= wb <= 2,
        ;
        assert((wa * a + wb * b) / (wa + wb) <= 255) by (nonlinear_arith)
            requires
                a <= 255,
                b <= 255,
                1 <= wa <= 2,
                1 <= wb <= 2,
        ;
        r[i] = ((wa * a + wb * b) / (wa + wb)) as u8;
        i = i + 1;
    }
    assert(r@ =~= Seq::new(3, |i: int| mix(c0@[i], c1@[i], wa as int, wb as int)));
    r
}

/// Expands the two RGB565 endpoints of a DXT color block into its four colors
pub fn expand_colors(u0: u16, u1: u16) -> (r: [[u8; 3]; 4])
    ensures
        r@.len() == 4,
        forall|i: int| 0 <= i < 4 ==> #[trigger] r@[i]@ == spec_expand_colors(u0, u1)[i],
{
    let c0 = split565(u0);
    let c1 = split565(u1);
    if u0 > u1 {
        let c2 = mix_colors(c0, c1, 2, 1);
        let c3 = mix_colors(c0, c1, 1, 2);
        [c0, c1, c2, c3]
    } else {
        let c2 = mix_colors(c0, c1, 1, 1);
        let c3 = [0u8, 0u8, 0u8];
        assert(c3@ =~= seq![0u8, 0u8, 0u8]);
        [c0, c1, c2, c3]
    }
}

/// The RGBA pixel at (`x`, `y`) of the DXT3 data `data` of an image `width` pixels wide. Each
/// 4x4 block takes 16 bytes: eight bytes of 4-bit alphas, the two RGB565 endpoints of its
/// colors, then four bytes of 2-bit color indices; a pixel takes the color its index picks and
/// its own alpha.
pub open spec fn dxt3_pixel(data: Seq<u8>, width: int, x: int, y: int) -> Seq<u8> {
    let off = (x - x % 4) * 4 + (y - y % 4) * width;
    let idx = (y % 4) * 4 + x % 4;
    let alpha = spec_split44(data[off + idx / 2])[idx % 2];
    let ci = spec_split2222(data[off + 12 + idx / 4])[idx % 4];
    let color = spec_expand_colors(u16_at(data, off + 8), u16_at(data, off + 10))[ci as int];
    seq![color[0], color[1], color[2], alpha]
}

/// The first `n` pixels of a DXT3 image `width` pixels wide, row by row, four bytes each.
pub open spec fn dxt3_pixels(data: Seq<u8>, width: int, n: int) -> Seq<u8>
    decreases n,
{
    if n <= 0 {
        Seq::empty()
    } else {
        dxt3_pixels(data, width, n - 1) + dxt3_pixel(data, width, (n - 1) % width, (n - 1) / width)
    }
}

/// DXT3 (DirectX DXGI_FORMAT_BC2): blocks of 4x4 pixels, each with explicit 4-bit alpha and
/// colors interpolated between two RGB565 end points
pub fn from_dxt3(width: u32, height: u32, data: Vec<u8>) -> (r: Result<RgbaBuffer, CanvasError>)
    requires
        width % 4 == 0,
        height % 4 == 0,
        data@.len() % 16 == 0,
        width * height <= data@.len(),
        4 * width * height <= usize::MAX,
    ensures
        r matches Ok(img) && img.width == width && img.height == height && img.data@
            == dxt3_pixels(data@, width as int, width * height),
{
    let w = width as usize;
    let h = height as usize;
    let mut out: Vec<u8> = Vec::new();
    let mut y: usize = 0;
    while y < h
        invariant
            w == width,
            h == height,
            w % 4 == 0,
            h % 4 == 0,
            w * h <= data@.len(),
            4 * w * h <= usize::MAX,
            y <= h,
            out@ == dxt3_pixels(data@, w as int, y * w),
        decreases h - y,
    {
        let mut x: usize = 0;
        assert(y * w + w <= w * h) by (nonlinear_arith)
            requires
                y < h,
        ;
        while x < w
            invariant
                w == width,
                h == height,
                w % 4 == 0,
                h % 4 == 0,
                w * h <= data@.len(),
                4 * w * h <= usize::MAX,
                y < h,
                x <= w,
                y * w + w <= w * h,
                out@ == dxt3_pixels(data@, w as int, y * w + x),
            decreases w - x,
        {
            let px = dxt3_at(&data, w, h, x, y);
            let ghost n = y * w + x;
            let ghost before = out@;
            out.push(px[0]);
            out.push(px[1]);
            out.push(px[2]);
            out.push(px[3]);
            proof {
                vstd::arithmetic::div_mod::lemma_fundamental_div_mod_converse(
                    n as int,
                    w as int,
                    y as int,
                    x as int,
                );
                assert(n as int == y * w + x);
                assert(dxt3_pixel(data@, w as int, x as int, y as int) =~= px@);
                assert(out@ =~= before + dxt3_pixel(data@, w as int, (n as int) % (w as int), (n as int) / (w as int)));
            }
            x = x + 1;
        }
        assert((y + 1) * w == y * w + w) by (nonlinear_arith);
        y = y + 1;
    }
    assert(h * w == w * h) by (nonlinear_arith);
    Ok(RgbaBuffer { width, height, data: out })
}

/// The pixel at (`x`, `y`) of the DXT3 data of an image `w` by `h` pixels
#[verifier::spinoff_prover]
#[verifier::rlimit(40)]
fn dxt3_at(data: &Vec<u8>, w: usize, h: usize, x: usize, y: usize) -> (r: [u8; 4])
    requires
        w % 4 == 0,
        h % 4 == 0,
        w * h <= data@.len(),
        x < w,
        y < h,
    ensures
        r@ == dxt3_pixel(data@, w as int, x as int, y as int),
{
    let bx = x - x % 4;
    let by = y - y % 4;
    assert(bx + 4 <= w && by + 4 <= h);
    assert(bx * 4 + by * w + 16 <= w * h && 0 <= bx * 4 && 0 <= by * w) by (nonlinear_arith)
        requires
            bx + 4 <= w,
            by + 4 <= h,
    ;
    let len = data.len();
    assert(bx * 4 + by * w + 16 <= len);
    let off = bx * 4 + by * w;
    let idx = (y % 4) * 4 + x % 4;
    assert(idx < 16);
    let alpha = split44(data[off + idx / 2])[idx % 2];
    let b4 = data[off + 12 + idx / 4];
    let ci = split2222(b4)[idx % 4];
    assert(spec_split2222(b4)[(idx % 4) as int] < 4) by {
        assert(b4 & 0x3 < 4 && (b4 >> 2u8) & 0x3 < 4 && (b4 >> 4u8) & 0x3 < 4 && (b4 >> 6u8)
            & 0x3 < 4) by (bit_vector);
    }
    let u0 = (data[off + 8] as u16) | ((data[off + 9] as u16) << 8u16);
    let u1 = (data[off + 10] as u16) | ((data[off + 11] as u16) << 8u16);
    assert(u0 == u16_at(data@, off + 8) && u1 == u16_at(data@, off + 10));
    let colors = expand_colors(u0, u1);
    let c = colors[ci as usize];
    let r = [c[0], c[1], c[2], alpha];
    assert(off == (x - x % 4) * 4 + (y - y % 4) * w);
    assert(r@ =~= dxt3_pixel(data@, w as int, x as int, y as int));
    r
}


/// The 8-bit channel `c` (0 red, 1 green, 2 blue) of the RGB565 color `u`: red is the top five
/// bits, green the middle six and blue the low five, each scaled from its largest value to 255,
/// rounding down.
pub open spec fn rgb565_channel(u: u16, c: int) -> int {
    if c == 0 {
        (u / 0x800) as int * 255 / 31
    } else if c == 1 {
        (u / 0x20 % 0x40) as int * 255 / 63
    } else {
        (u % 0x20) as int * 255 / 31
    }
}

/// The four colors of a DXT color block with endpoints `u0` and `u1`: the two endpoints; then,
/// when `u0 > u1`, the colors a third (`(2 * c0 + c1) / 3`) and two thirds (`(c0 + 2 * c1) / 3`)
/// of the way from the first to the second; otherwise their midpoint (`(c0 + c1) / 2`) and
/// black. Every division rounds down.
pub proof fn lemma_expand_colors_law(u0: u16, u1: u16)
    ensures
        ({
            let cs = spec_expand_colors(u0, u1);
            &&& cs.len() == 4
            &&& forall|k: int| 0 <= k < 4 ==> #[trigger] cs[k].len() == 3
            &&& forall|c: int|
                #![trigger rgb565_channel(u0, c)]
                0 <= c < 3 ==> {
                    let a = rgb565_channel(u0, c);
                    let b = rgb565_channel(u1, c);
                    &&& cs[0][c] as int == a
                    &&& cs[1][c] as int == b
                    &&& u0 > u1 ==> cs[2][c] as int == (2 * a + b) / 3 && cs[3][c] as int == (a + 2
                        * b) / 3
                    &&& u0 <= u1 ==> cs[2][c] as int == (a + b) / 2 && cs[3][c] == 0
                }
        }),
{
    assert forall|u: u16, c: int| 0 <= c < 3 implies #[trigger] spec_split565(u)[c] as int
        == rgb565_channel(u, c) by {
        lemma_split565_channels(u);
    }
    let c0 = spec_split565(u0);
    let c1 = spec_split565(u1);
    assert forall|c: int| 0 <= c < 3 implies 0 <= #[trigger] c0[c] <= 255 && 0 <= c1[c] <= 255 by {}
}

/// The channels of an RGB565 color, scaled to 8 bits.
pub proof fn lemma_split565_channels(u: u16)
    ensures
        spec_split565(u).len() == 3,
        forall|c: int| 0 <= c < 3 ==> #[trigger] spec_split565(u)[c] as int == rgb565_channel(u, c),
{
    let r = u >> 11u16;
    let g = (u >> 5u16) & 0x3f;
    let b = u & 0x1f;
    assert(r == u / 0x800 && g == u / 0x20 % 0x40 && b == u % 0x20 && r <= 31 && g <= 63 && b
        <= 31) by (bit_vector)
        requires
            r == u >> 11u16,
            g == (u >> 5u16) & 0x3f,
            b == u & 0x1f,
    ;
    assert((r as int * 255 / 31) <= 255) by (nonlinear_arith)
        requires
            r <= 31,
    ;
    assert((g as int * 255 / 63) <= 255) by (nonlinear_arith)
        requires
            g <= 63,
    ;
    assert((b as int * 255 / 31) <= 255) by (nonlinear_arith)
        requires
            b <= 31,
    ;
}

} // verus!
