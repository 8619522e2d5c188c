use wz::archive::{Header, Offset};
use wz::cipher::checksum;
use wz::decode::SliceDecoder;
use wz::encode::VecEncoder;
use wz::file::content::Content;
use wz::cipher::KeyStream;
use wz::encode::{Encode, Encoder};
use wz::file::image::raw::{Canvas as RawCanvas, CanvasFormat, ContentRef, Object, Property};
use wz::file::image::sound::Sound;
use wz::file::image::{Image, Node};
use wz::file::image::uol::{UolObject, UolString};
use wz::file::image::vector::Vector;
use wz::file::metadata::Metadata;
use wz::types::{F32Bits, Int32};

#[test]
fn file_image_entry_decodes() {
    let stored = Offset(100).encode_with(5, 60, 0);
    let mut bytes = vec![4u8, 0xff, b'a' ^ 0xaa, 5, 7];
    bytes.extend_from_slice(&stored.to_le_bytes());
    let mut decoder = SliceDecoder::unencrypted(60, 0, &bytes);
    match Content::decode(&mut decoder).unwrap() {
        Content::Image(name, params) => {
            assert_eq!(name, "a");
            assert_eq!(params.size(), Int32(5));
            assert_eq!(params.checksum(), Int32(7));
            assert_eq!(params.offset(), Offset(100));
        }
        other => panic!("unexpected {:?}", other),
    }
}

#[test]
fn file_entry_with_bad_tag_fails() {
    let bytes = vec![9u8, 0, 0, 0];
    let mut decoder = SliceDecoder::unencrypted(60, 0, &bytes);
    assert!(Content::decode(&mut decoder).is_err());
}

#[test]
fn vector_round_trip() {
    let v = Vector::new(Int32(3), Int32(-200));
    let mut encoder = VecEncoder::unencrypted(60, 0);
    v.encode(&mut encoder).unwrap();
    let bytes = encoder.into_vec();
    assert_eq!(bytes.len() as u32, v.size_hint());
    let mut decoder = SliceDecoder::unencrypted(60, 0, &bytes);
    assert_eq!(Vector::decode(&mut decoder).unwrap(), v);
}

#[test]
fn uol_round_trip() {
    let uol = UolString::from_string(String::from("../a/b"));
    let mut encoder = VecEncoder::unencrypted(60, 0);
    uol.encode(&mut encoder).unwrap();
    let bytes = encoder.into_vec();
    assert_eq!(bytes.len() as u32, uol.size_hint());
    let mut decoder = SliceDecoder::unencrypted(60, 0, &bytes);
    let back = UolString::decode(&mut decoder).unwrap();
    assert_eq!(back.into_wz_string(), "../a/b");

    // An object is written with two leading bytes, and read back with one.
    let obj = UolObject::from_string(String::from("x"));
    let mut encoder = VecEncoder::unencrypted(60, 0);
    obj.encode(&mut encoder).unwrap();
    let bytes = encoder.into_vec();
    assert_eq!(bytes.len() as u32, obj.size_hint());
    assert_eq!(&bytes[0..2], &[0u8, 0x73]);
    let mut decoder = SliceDecoder::unencrypted(60, 0, &bytes[1..]);
    assert_eq!(UolObject::decode(&mut decoder).unwrap().into_wz_string(), "x");
}

#[test]
fn sound_round_trip() {
    // 51 bytes of static header, then the length of the format spec and the spec
    let mut header = vec![7u8; 51];
    header.extend_from_slice(&[2, 9, 9]);
    let sound = Sound::new(Int32(1000), header.clone(), vec![1, 2, 3]);
    let mut encoder = VecEncoder::unencrypted(60, 0);
    sound.encode(&mut encoder).unwrap();
    let bytes = encoder.into_vec();
    assert_eq!(bytes.len() as u32, sound.size_hint());
    let mut decoder = SliceDecoder::unencrypted(60, 0, &bytes);
    let back = Sound::decode(&mut decoder).unwrap();
    assert_eq!(back.duration(), Int32(1000));
    assert_eq!(back.header(), &header[..]);
    assert_eq!(back.data(), &[1u8, 2, 3][..]);
}

#[test]
fn metadata_matches_header() {
    let metadata = Metadata::new(83);
    let mut encoder = VecEncoder::unencrypted(60, 0);
    metadata.encode(&mut encoder).unwrap();
    let bytes = encoder.into_vec();
    let mut header_bytes = Vec::new();
    Header::new(83).to_write(&mut header_bytes).unwrap();
    assert_eq!(bytes, header_bytes);
    assert_eq!(Metadata::from_reader(&bytes).unwrap(), metadata);
    assert_eq!(metadata.absolute_position, 60);
}

#[test]
fn metadata_possible_versions() {
    let (hash, version_checksum) = checksum(83);
    let versions = Metadata::possible_versions(hash);
    assert!(versions.contains(&(83, version_checksum)));
    assert!(versions.iter().all(|(v, _)| checksum(*v).0 == hash));
}

#[test]
fn metadata_short_input_fails() {
    assert!(Metadata::from_reader(&[b'P', b'K']).is_err());
}

fn entry_name(c: &str) -> Vec<u8> {
    vec![0u8, 0xff, c.as_bytes()[0] ^ 0xaa]
}

fn sample_property_bytes() -> Vec<u8> {
    let mut bytes = vec![0u8, 0, 4];
    bytes.extend(entry_name("a"));
    bytes.extend([3u8, 5]);
    bytes.extend(entry_name("b"));
    bytes.extend([2u8, 0x34, 0x12]);
    bytes.extend(entry_name("c"));
    bytes.push(4);
    bytes.push(0x80);
    bytes.extend(1.5f32.to_bits().to_le_bytes());
    bytes.extend(entry_name("d"));
    bytes.extend([9u8, 3, 0, 0, 0, 1, 2, 3]);
    bytes
}

#[test]
fn property_entries_decode() {
    let bytes = sample_property_bytes();
    let mut decoder = SliceDecoder::unencrypted(60, 0, &bytes);
    let property = Property::decode(&mut decoder).unwrap();
    assert_eq!(decoder.position().unwrap(), 34);
    assert_eq!(property.num_contents(), 4);
    let contents = property.contents();
    match &contents[0] {
        ContentRef::Int { name, value } => {
            assert!(*name == UolString::from_string(String::from("a")));
            assert_eq!(*value, Int32(5));
        }
        _ => panic!("expected an int"),
    }
    match &contents[1] {
        ContentRef::Short { value, .. } => assert_eq!(*value, 0x1234),
        _ => panic!("expected a short"),
    }
    match &contents[2] {
        ContentRef::Float { value, .. } => assert_eq!(f32::from_bits(value.0), 1.5),
        _ => panic!("expected a float"),
    }
    match &contents[3] {
        ContentRef::Object { size, offset, .. } => {
            assert_eq!(*size, 3);
            assert_eq!(*offset, Offset(31));
        }
        _ => panic!("expected an object"),
    }
}

#[test]
fn property_entry_with_unknown_type_fails() {
    let mut bytes = entry_name("a");
    bytes.push(7);
    let mut decoder = SliceDecoder::unencrypted(60, 0, &bytes);
    let err = ContentRef::decode(&mut decoder).err().unwrap();
    assert_eq!(err.to_string(), "Unknown Property type: `7`");
}

#[test]
fn property_with_negative_count_fails() {
    let bytes = vec![0u8, 0, 0xff];
    let mut decoder = SliceDecoder::unencrypted(60, 0, &bytes);
    let err = Property::decode(&mut decoder).err().unwrap();
    assert_eq!(err.to_string(), "invalid length: -1");
}

#[test]
fn property_encodes_entries_without_types() {
    let bytes = sample_property_bytes();
    let mut decoder = SliceDecoder::unencrypted(60, 0, &bytes);
    let property = Property::decode(&mut decoder).unwrap();
    let mut encoder = VecEncoder::unencrypted(60, 0);
    property.encode(&mut encoder).unwrap();
    let mut expected = vec![4u8];
    expected.extend(entry_name("a"));
    expected.push(5);
    expected.extend(entry_name("b"));
    expected.extend([0x34u8, 0x12]);
    expected.extend(entry_name("c"));
    expected.push(0x80);
    expected.extend(1.5f32.to_bits().to_le_bytes());
    expected.extend(entry_name("d"));
    expected.extend([3u8, 0, 0, 0]);
    assert_eq!(encoder.into_vec(), expected);
    let sizes: Vec<u32> = property.contents().iter().map(|c| c.size_hint()).collect();
    assert_eq!(sizes, vec![4, 5, 8, 6]);
    let zero = ContentRef::Float {
        name: UolString::from_string(String::from("z")),
        value: F32Bits(0),
    };
    assert_eq!(zero.size_hint(), 4);
}

#[test]
fn directory_records_children() {
    let mut d = wz::directory::WzDirectory::new("Map");
    assert!(d.is_dir());
    assert_eq!(d.name(), "Map");
    assert_eq!(d.len(), 0);
    assert_eq!(d.size(), None);
    assert_eq!(d.offset(), None);
    d.add_child(1, 10);
    d.add_child(2, 5);
    assert_eq!(d.len(), 2);
    assert_eq!(d.size(), Some(15));
    let e = wz::directory::WzDirectory::with_offset("Sub", 40);
    assert_eq!(e.offset(), Some(40));
}

fn named_object(name: &str) -> Vec<u8> {
    let mut encoder = VecEncoder::unencrypted(60, 0);
    encoder.encode_bytes(&[0x73]).unwrap();
    String::from(name).encode(&mut encoder).unwrap();
    encoder.into_vec()
}

fn canvas_body(width: i32, data: &[u8]) -> Vec<u8> {
    let mut encoder = VecEncoder::unencrypted(60, 0);
    encoder.encode_bytes(&[0, 0]).unwrap();
    Int32(width).encode(&mut encoder).unwrap();
    Int32(1).encode(&mut encoder).unwrap();
    Int32(513).encode(&mut encoder).unwrap();
    encoder.encode_bytes(&[0]).unwrap();
    0i32.encode(&mut encoder).unwrap();
    (data.len() as i32 + 1).encode(&mut encoder).unwrap();
    encoder.encode_bytes(&[0]).unwrap();
    encoder.encode_bytes(data).unwrap();
    encoder.into_vec()
}

#[test]
fn object_vector_decodes() {
    let mut bytes = named_object("Shape2D#Vector2D");
    bytes.extend([3u8, 0xfe]);
    let mut decoder = SliceDecoder::unencrypted(60, 0, &bytes);
    match Object::decode(&mut decoder).unwrap() {
        Object::Vector(v) => assert_eq!(v, Vector::new(Int32(3), Int32(-2))),
        other => panic!("unexpected {:?}", other),
    }
    assert_eq!(decoder.position().unwrap() as usize, bytes.len());
}

#[test]
fn object_with_unknown_type_fails() {
    let bytes = named_object("Foo");
    let mut decoder = SliceDecoder::unencrypted(60, 0, &bytes);
    let err = Object::decode(&mut decoder).err().unwrap();
    assert_eq!(err.to_string(), "Unknown Object type: `Foo`");
    let bytes = vec![0x42u8];
    let mut decoder = SliceDecoder::unencrypted(60, 0, &bytes);
    let err = Object::decode(&mut decoder).err().unwrap();
    assert_eq!(err.to_string(), "Unknown UOL type: `66`");
}

#[test]
fn object_canvas_decodes() {
    let mut bytes = named_object("Canvas");
    bytes.extend(canvas_body(2, &[0x78, 0x9c, 5]));
    let mut decoder = SliceDecoder::unencrypted(60, 0, &bytes);
    match Object::decode(&mut decoder).unwrap() {
        Object::Canvas(c) => {
            assert_eq!(c.width(), Int32(2));
            assert_eq!(c.height(), Int32(1));
            assert_eq!(c.format(), CanvasFormat { format: Int32(513), format2: 0 });
            assert_eq!(c.data(), &[0x78, 0x9c, 5]);
            assert!(c.property().is_none());
        }
        other => panic!("unexpected {:?}", other),
    }
}

#[test]
fn canvas_data_without_zlib_header_is_decrypted() {
    let bytes = canvas_body(2, &[0x10, 0x20]);
    let key = KeyStream::new(vec![1, 2]);
    let mut decoder = SliceDecoder::new(60, 0, &bytes, key);
    let canvas = RawCanvas::decode(&mut decoder).unwrap();
    assert_eq!(canvas.data(), &[0x11, 0x22]);
}

#[test]
fn canvas_too_big_fails() {
    let bytes = canvas_body(0x10001, &[0x78, 0x9c]);
    let mut decoder = SliceDecoder::unencrypted(60, 0, &bytes);
    let err = RawCanvas::decode(&mut decoder).err().unwrap();
    assert_eq!(err.to_string(), "canvas is too big: { Width(65537), Height(1) }");
}

fn uol_bytes(name: &str) -> Vec<u8> {
    let mut encoder = VecEncoder::unencrypted(60, 0);
    UolString::from_string(String::from(name)).encode(&mut encoder).unwrap();
    encoder.into_vec()
}

fn vector_object(x: i32, y: i32) -> Vec<u8> {
    let mut bytes = named_object("Shape2D#Vector2D");
    bytes.extend(Int32(x).encode_to_vec());
    bytes.extend(Int32(y).encode_to_vec());
    bytes
}

trait EncodeToVec {
    fn encode_to_vec(&self) -> Vec<u8>;
}

impl EncodeToVec for Int32 {
    fn encode_to_vec(&self) -> Vec<u8> {
        let mut encoder = VecEncoder::unencrypted(60, 0);
        self.encode(&mut encoder).unwrap();
        encoder.into_vec()
    }
}

fn object_entry(name: &str, object: &[u8]) -> Vec<u8> {
    let mut bytes = uol_bytes(name);
    bytes.push(9);
    bytes.extend((object.len() as u32).to_le_bytes());
    bytes.extend_from_slice(object);
    bytes
}

#[test]
fn image_parses_into_nodes() {
    let mut bytes = named_object("Property");
    bytes.extend([0u8, 0, 3]);
    bytes.extend(uol_bytes("a"));
    bytes.extend([3u8, 5]);
    bytes.extend(object_entry("sub", &vector_object(1, 2)));
    let mut convex = named_object("Shape2D#Convex2D");
    convex.push(2);
    convex.extend(vector_object(3, 4));
    convex.extend(vector_object(5, 6));
    bytes.extend(object_entry("c", &convex));
    let mut decoder = SliceDecoder::unencrypted(60, 0, &bytes);
    let image = Image::parse("img", &mut decoder).unwrap();
    let map = image.map();
    assert_eq!(image.len(), 6);
    let names: Vec<(&str, Option<usize>)> =
        map.iter().map(|(n, p, _)| (n.as_str(), *p)).collect();
    assert_eq!(
        names,
        vec![
            ("img", None),
            ("a", Some(0)),
            ("sub", Some(0)),
            ("c", Some(0)),
            ("0", Some(3)),
            ("1", Some(3)),
        ]
    );
    assert!(matches!(map[0].2, Node::Property));
    assert!(matches!(map[1].2, Node::Int(Int32(5))));
    assert!(matches!(&map[2].2, Node::Vector(v) if *v == Vector::new(Int32(1), Int32(2))));
    assert!(matches!(map[3].2, Node::Convex));
    assert!(matches!(&map[5].2, Node::Vector(v) if *v == Vector::new(Int32(5), Int32(6))));
}

#[test]
fn image_root_must_be_a_property() {
    let bytes = vector_object(1, 2);
    let mut decoder = SliceDecoder::unencrypted(60, 0, &bytes);
    let err = Image::parse("img", &mut decoder).err().unwrap();
    assert_eq!(err.to_string(), "The root of the image is not a property");
}

#[test]
fn read_errors_keep_their_message() {
    let bytes: Vec<u8> = vec![];
    let mut decoder = SliceDecoder::unencrypted(60, 0, &bytes);
    let err = Sound::decode(&mut decoder).err().unwrap();
    assert_eq!(err.to_string(), "io: failed to fill whole buffer");
}
