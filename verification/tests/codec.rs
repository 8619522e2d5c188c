use wz::archive::Offset;
use wz::bytes::{push_u16_le, push_u32_le, push_u64_le, read_u16_le, read_u32_le, read_u64_le};
use wz::cipher::{checksum, KeyStream};
use wz::decode::{decode_string, decode_u8, ErrorCode as DecodeCode, SliceDecoder};
use wz::encode::{Encode, SizeHint, VecEncoder};
use wz::error::{DecodeError, ImageError};
use wz::types::{Int32, Int64};

fn encoded<T: Encode>(value: &T) -> Vec<u8> {
    let mut encoder = VecEncoder::unencrypted(60, 0);
    assert!(value.encode(&mut encoder).is_ok());
    encoder.into_vec()
}

#[test]
fn int32_short_and_long_forms() {
    assert_eq!(encoded(&Int32(5)), vec![5]);
    assert_eq!(encoded(&Int32(-127)), vec![0x81]);
    assert_eq!(encoded(&Int32(127)), vec![127]);
    assert_eq!(encoded(&Int32(128)), vec![0x80, 128, 0, 0, 0]);
    assert_eq!(encoded(&Int32(-128)), vec![0x80, 0x80, 0xff, 0xff, 0xff]);
    assert_eq!(encoded(&Int32(200)), vec![0x80, 200, 0, 0, 0]);
}

#[test]
fn int32_round_trip() {
    for v in [0, 1, -1, 126, 127, 128, -127, -128, -129, i32::MAX, i32::MIN, 123456] {
        let bytes = encoded(&Int32(v));
        let mut decoder = SliceDecoder::unencrypted(60, 0, &bytes);
        assert_eq!(Int32::decode(&mut decoder).unwrap(), Int32(v));
    }
}

#[test]
fn int64_round_trip() {
    for v in [0i64, 127, 128, -128, i64::MAX, i64::MIN, 1 << 40] {
        let bytes = encoded(&Int64(v));
        let mut decoder = SliceDecoder::unencrypted(60, 0, &bytes);
        assert_eq!(Int64::decode(&mut decoder).unwrap(), Int64(v));
    }
}

#[test]
fn string_round_trip() {
    for s in ["", "A", "hello.img", "Package file", "한글", "mixed é text"] {
        let bytes = encoded(&String::from(s));
        let mut decoder = SliceDecoder::unencrypted(60, 0, &bytes);
        assert_eq!(decode_string(&mut decoder).unwrap(), s);
    }
}

#[test]
fn ascii_string_is_masked() {
    // length -1, then 'A' masked with 0xAA
    assert_eq!(encoded(&String::from("A")), vec![0xff, 0x41 ^ 0xaa]);
    assert_eq!(encoded(&String::new()), vec![0]);
}

#[test]
fn truncated_string_is_error() {
    let bytes = vec![0xfb, 1, 2];
    let mut decoder = SliceDecoder::unencrypted(60, 0, &bytes);
    let err = decode_string(&mut decoder).unwrap_err();
    assert_eq!(err.code(), DecodeCode::Io);
}

#[test]
fn empty_stream_is_error() {
    let bytes: Vec<u8> = Vec::new();
    let mut decoder = SliceDecoder::unencrypted(60, 0, &bytes);
    assert!(decode_u8(&mut decoder).is_err());
}

#[test]
fn offset_encode_decode_round_trip() {
    let (_, version_checksum) = checksum(83);
    for (offset, position) in [(62u32, 70u32), (1000, 90), (123456, 4000), (0, 62)] {
        let stored = Offset(offset).encode_with(position, 60, version_checksum);
        let back = Offset::decode_with(stored, position, 60, version_checksum);
        assert_eq!(back, Offset(offset));
    }
}

#[test]
fn version_checksum_known_value() {
    // The v83 archives carry this version hash in their header.
    let (hash, _) = checksum(83);
    assert_eq!(hash, 172);
}

#[test]
fn crypt_twice_is_identity() {
    let key = KeyStream::new(vec![0x13, 0x52, 0x2a]);
    let plain = vec![10u8, 20, 30, 40, 50];
    let mut data = plain.clone();
    key.crypt(&mut data);
    assert_eq!(&data[0..3], &[10 ^ 0x13, 20 ^ 0x52, 30 ^ 0x2a]);
    key.crypt(&mut data);
    assert_eq!(data, plain);
}

#[test]
fn dummy_key_leaves_data() {
    let key = KeyStream::dummy();
    let mut data = vec![1u8, 2, 3];
    key.crypt(&mut data);
    assert_eq!(data, vec![1, 2, 3]);
}

#[test]
fn little_endian_helpers() {
    let mut out = Vec::new();
    push_u16_le(&mut out, 0x1234);
    push_u32_le(&mut out, 0xdeadbeef);
    push_u64_le(&mut out, 0x0102030405060708);
    assert_eq!(&out[0..2], &[0x34, 0x12]);
    assert_eq!(read_u16_le(&out, 0), 0x1234);
    assert_eq!(read_u32_le(&out, 2), 0xdeadbeef);
    assert_eq!(read_u64_le(&out, 6), 0x0102030405060708);
}

#[test]
fn error_texts_hold_numbers() {
    assert_eq!(DecodeError::length(-42).to_string(), "invalid length: -42");
    assert_eq!(DecodeError::offset(6480).to_string(), "invalid offset: 6480");
    assert_eq!(DecodeError::tag(0x0a).to_string(), "invalid tag: 0x0a");
    assert_eq!(DecodeError::tag(0xff).to_string(), "invalid tag: 0xff");
    assert_eq!(ImageError::UolType(200).to_string(), "Unknown UOL type: `200`");
}

#[test]
fn string_size_hint_is_encoded_length() {
    for s in ["", "a", "Map", "\u{e9}", "caf\u{e9}", "\u{1f600}x"] {
        let mut encoder = VecEncoder::unencrypted(60, 0);
        s.encode(&mut encoder).unwrap();
        assert_eq!(s.size_hint(), encoder.as_slice().len() as u64);
    }
    assert_eq!("\u{e9}".size_hint(), 3);
    let long: String = std::iter::repeat('\u{e9}').take(200).collect();
    let mut encoder = VecEncoder::unencrypted(60, 0);
    long.encode(&mut encoder).unwrap();
    assert_eq!(long.size_hint(), encoder.as_slice().len() as u64);
    assert_eq!(long.size_hint(), 405);
}
