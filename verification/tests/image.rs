use wz::error::CanvasError;
use wz::file::image::canvas::conversions::{
    expand_rgb565, join4444, join565, ratio, split4444, split565, to_bgra4444, to_rgb565,
};
use wz::file::image::canvas::dxt::{from_dxt3, join2222, join44, split2222, split44};
use wz::file::image::canvas::squish::{from_bc3, to_bc3};
use wz::file::image::canvas::{Canvas, RgbaBuffer};
use wz::types::Int32;

/// zlib stream of "Hello, zlib!"
const HELLO_ZLIB: [u8; 20] = [
    120, 156, 243, 72, 205, 201, 201, 215, 81, 168, 202, 201, 76, 82, 4, 0, 27, 101, 4, 19,
];

/// zlib stream of the bytes 0x12 0x34 0x56 0x78
const PIXELS_ZLIB: [u8; 12] = [120, 156, 19, 50, 9, 171, 0, 0, 2, 12, 1, 21];

#[test]
fn ratio_scales_down_and_up() {
    assert_eq!(ratio(15, 15, 255), 255);
    assert_eq!(ratio(1, 15, 255), 17);
    assert_eq!(ratio(255, 255, 15), 15);
    assert_eq!(ratio(16, 255, 15), 0);
    assert_eq!(ratio(31, 31, 255), 255);
}

#[test]
fn split_join_4444() {
    assert_eq!(split4444(0x3412), [34, 17, 68, 51]);
    assert_eq!(join4444(34, 17, 68, 51), 0x3412);
    for p in [0u16, 0xffff, 0x1234, 0xabcd, 0x0f0f] {
        let [a, r, g, b] = split4444(p);
        assert_eq!(join4444(a, r, g, b), p);
    }
}

#[test]
fn split_join_565() {
    assert_eq!(split565(0xffff), [255, 255, 255]);
    assert_eq!(split565(0x0000), [0, 0, 0]);
    assert_eq!(split565(0xf800), [255, 0, 0]);
    // joining scales each 8-bit channel down to 5, 6 and 5 bits
    assert_eq!(join565(255, 255, 255), 0xffff);
    assert_eq!(join565(0, 0, 255), 0x001f);
    assert_eq!(join565(255, 0, 0), 0xf800);
    assert_eq!(join565(0, 255, 0), 0x07e0);
    for v in 0..=255u8 {
        let back = split565(join565(v, v, v));
        let (v, r, g, b) = (v as u16, back[0] as u16, back[1] as u16, back[2] as u16);
        assert!(r <= v && v < r + 10);
        assert!(g <= v && v < g + 6);
        assert!(b <= v && v < b + 10);
    }
}

#[test]
fn rgb565_of_pure_blue() {
    let img = RgbaBuffer::from_raw(1, 1, vec![0, 0, 255, 255]).unwrap();
    assert_eq!(to_rgb565(&img), (1, 1, vec![0x1f, 0x00]));
}

#[test]
fn split_join_44_and_2222() {
    assert_eq!(split44(0xa5), [85, 170]);
    assert_eq!(join44(85, 170), 0xa5);
    for b in [0u8, 0xff, 0x12, 0xf0] {
        let [x, y] = split44(b);
        assert_eq!(join44(x, y), b);
        let [p, q, r, s] = split2222(b);
        assert_eq!(join2222(p, q, r, s), b);
    }
    assert_eq!(join2222(1, 2, 3, 0), 0b00_11_10_01);
    assert_eq!(split2222(0b00_11_10_01), [1, 2, 3, 0]);
}

#[test]
fn canvas_inflates_data() {
    let canvas = Canvas::new(Int32(1), Int32(1), Int32(2), 0, HELLO_ZLIB.to_vec());
    assert_eq!(canvas.decompressed_data().unwrap(), b"Hello, zlib!".to_vec());
}

#[test]
fn canvas_bad_zlib_is_inflate_error() {
    let canvas = Canvas::new(Int32(1), Int32(1), Int32(2), 0, vec![1, 2, 3]);
    match canvas.decompressed_data() {
        Err(CanvasError::Inflate(_)) => {}
        other => panic!("unexpected {:?}", other),
    }
}

#[test]
fn canvas_bgra4444_image_round_trip() {
    let canvas = Canvas::new(Int32(1), Int32(2), Int32(1), 0, PIXELS_ZLIB.to_vec());
    let img = canvas.image_buffer().unwrap();
    assert_eq!(img.width, 1);
    assert_eq!(img.height, 2);
    assert_eq!(img.data.len(), 8);
    let (w, h, data) = to_bgra4444(&img);
    assert_eq!((w, h), (1, 2));
    assert_eq!(data, vec![0x12, 0x34, 0x56, 0x78]);
}

#[test]
fn canvas_rgb565_image() {
    let canvas = Canvas::new(Int32(2), Int32(1), Int32(513), 0, PIXELS_ZLIB.to_vec());
    let img = canvas.image_buffer().unwrap();
    assert_eq!((img.width, img.height), (2, 1));
    assert_eq!(img.data.len(), 8);
    let (_, _, data) = to_rgb565(&img);
    assert_eq!(data.len(), 4);
}

#[test]
fn canvas_size_mismatch() {
    let canvas = Canvas::new(Int32(3), Int32(3), Int32(1), 0, PIXELS_ZLIB.to_vec());
    match canvas.image_buffer() {
        Err(CanvasError::SizeMismatch(3, 3, 4)) => {}
        other => panic!("unexpected {:?}", other),
    }
}

#[test]
fn canvas_unknown_format() {
    let canvas = Canvas::new(Int32(1), Int32(1), Int32(7), 0, PIXELS_ZLIB.to_vec());
    assert!(matches!(
        canvas.image_buffer(),
        Err(CanvasError::EncodingFormat(_))
    ));
}

#[test]
fn rgba_buffer_from_raw_checks_length() {
    assert!(RgbaBuffer::from_raw(2, 2, vec![0; 16]).is_some());
    assert!(RgbaBuffer::from_raw(2, 2, vec![0; 15]).is_none());
}

#[test]
fn bc3_round_trip_of_flat_block() {
    let img = RgbaBuffer::from_raw(4, 4, vec![255; 64]).unwrap();
    let (w, h, data) = to_bc3(img);
    assert_eq!((w, h), (4, 4));
    assert_eq!(data.len(), 16);
    let back = from_bc3(4, 4, data).unwrap();
    assert_eq!(back.data, vec![255; 64]);
}

#[test]
fn dxt3_block_decodes() {
    let mut data = vec![0x10u8, 0x32, 0x54, 0x76, 0x98, 0xba, 0xdc, 0xfe];
    data.extend_from_slice(&[0x00, 0xf8, 0x1f, 0x00]);
    data.extend_from_slice(&[0xe4, 0xe4, 0xe4, 0xe4]);
    let img = from_dxt3(4, 4, data).unwrap();
    assert_eq!((img.width, img.height), (4, 4));
    assert_eq!(img.data.len(), 64);
    assert_eq!(
        &img.data[0..16],
        &[255, 0, 0, 0, 0, 0, 255, 17, 170, 0, 85, 34, 85, 0, 170, 51]
    );
    assert_eq!(
        &img.data[16..32],
        &[255, 0, 0, 68, 0, 0, 255, 85, 170, 0, 85, 102, 85, 0, 170, 119]
    );
}

#[test]
fn rgb565_expands_sixteen_times() {
    let img = expand_rgb565(32, 16, vec![0x1f, 0x00, 0x00, 0xf8]).unwrap();
    assert_eq!((img.width, img.height), (32, 16));
    assert_eq!(img.data.len(), 32 * 16 * 4);
    assert_eq!(&img.data[0..4], &[0, 0, 255, 255]);
    let right = (16 * 4) as usize;
    assert_eq!(&img.data[right..right + 4], &[255, 0, 0, 255]);
    match expand_rgb565(32, 16, vec![0x1f, 0x00]) {
        Err(CanvasError::SizeMismatch(2, 1, 2)) => {}
        other => panic!("unexpected {:?}", other),
    }
}
