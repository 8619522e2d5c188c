use wz::archive::builder::Image;
use wz::archive::{Builder, ContentType, ErrorCode, Header, Offset, Reader, Writer};
use wz::cipher::{checksum, KeyStream};
use wz::types::Int32;

struct MemImage {
    name: String,
    bytes: Vec<u8>,
    checksum: i32,
}

impl Image for MemImage {
    fn name(&self) -> &str {
        self.name.as_str()
    }

    fn size(&self) -> u64 {
        self.bytes.len() as u64
    }

    fn checksum(&self) -> i32 {
        self.checksum
    }

    fn to_bytes(&self) -> Result<Vec<u8>, String> {
        Ok(self.bytes.clone())
    }
}

/// An image whose bytes cannot be read
struct BrokenImage;

impl Image for BrokenImage {
    fn name(&self) -> &str {
        "broken.img"
    }

    fn size(&self) -> u64 {
        3
    }

    fn checksum(&self) -> i32 {
        0
    }

    fn to_bytes(&self) -> Result<Vec<u8>, String> {
        Err(String::from("gone"))
    }
}

fn image(name: &str, bytes: Vec<u8>, checksum: i32) -> MemImage {
    MemImage {
        name: name.to_string(),
        bytes,
        checksum,
    }
}

fn sample_builder() -> Builder<MemImage> {
    let mut builder: Builder<MemImage> = Builder::new();
    let root = builder.root();
    let map = builder.add_package(root, "Map").unwrap();
    builder
        .add_image(map, image("a.img", vec![1, 2, 3, 4, 5], 7))
        .unwrap();
    let sub = builder.add_package(map, "Sub").unwrap();
    builder
        .add_image(sub, image("b.img", vec![9, 8, 7], -2))
        .unwrap();
    builder
        .add_image(root, image("top.img", vec![42], 100))
        .unwrap();
    builder
}

fn write_sample(version: u16) -> Vec<u8> {
    let mut writer = Writer::unencrypted(version);
    sample_builder().write(&mut writer).unwrap();
    writer.as_slice().to_vec()
}

#[test]
fn written_archive_reads_back() {
    let bytes = write_sample(83);
    let reader = Reader::unencrypted_as_version(bytes, 83).unwrap();
    let archive = reader.parse().unwrap();

    let a = archive.get("Map/a.img").unwrap();
    assert_eq!(a.name(), "a.img");
    assert_eq!(a.size, Int32(5));
    assert_eq!(a.checksum, Int32(7));
    let mut out = Vec::new();
    reader.copy_to(&mut out, a.offset, a.size).unwrap();
    assert_eq!(out, vec![1, 2, 3, 4, 5]);

    let b = archive.get("Map/Sub/b.img").unwrap();
    assert_eq!(b.size, Int32(3));
    assert_eq!(b.checksum, Int32(-2));
    let mut out = Vec::new();
    reader.copy_to(&mut out, b.offset, b.size).unwrap();
    assert_eq!(out, vec![9, 8, 7]);

    let top = archive.get("/top.img").unwrap();
    assert_eq!(top.checksum, Int32(100));
    let mut out = Vec::new();
    reader.copy_to(&mut out, top.offset, top.size).unwrap();
    assert_eq!(out, vec![42]);

    assert!(archive.get("Map/missing.img").is_none());
    assert!(archive.get_node("Map/Sub").is_some());
}

#[test]
fn written_archive_bruteforces_version() {
    let bytes = write_sample(95);
    let reader = Reader::unencrypted(bytes).unwrap();
    let archive = reader.parse().unwrap();
    assert!(archive.get("Map/Sub/b.img").is_some());
}

#[test]
fn build_matches_written_offsets() {
    let built = sample_builder().build(83).unwrap();
    let bytes = write_sample(83);
    let reader = Reader::unencrypted_as_version(bytes, 83).unwrap();
    let parsed = reader.parse().unwrap();
    for path in ["Map/a.img", "Map/Sub/b.img", "top.img", "Map", "Map/Sub"] {
        assert_eq!(built.get(path), parsed.get(path));
    }
    assert_eq!(built.header.size, reader.header().size);
}

#[test]
fn iter_lists_depth_first() {
    let archive = sample_builder().build(83).unwrap();
    let names: Vec<(String, String)> = archive
        .iter()
        .into_iter()
        .map(|(path, c)| (path, c.name().to_string()))
        .collect();
    assert_eq!(
        names,
        vec![
            (String::from(""), String::from("")),
            (String::from(""), String::from("Map")),
            (String::from("/Map"), String::from("a.img")),
            (String::from("/Map"), String::from("Sub")),
            (String::from("/Map/Sub"), String::from("b.img")),
            (String::from(""), String::from("top.img")),
        ]
    );
}

#[test]
fn for_each_visits_with_package_paths() {
    let mut archive = sample_builder().build(83).unwrap();
    archive.for_each(|path, content| {
        let name = format!("{}|{}", path, content.name());
        content.content_type = match &content.content_type {
            ContentType::Package(_) => ContentType::Package(name),
            ContentType::Image(_) => ContentType::Image(name),
        };
    });
    let names: Vec<String> = archive
        .iter()
        .into_iter()
        .map(|(_, c)| c.name().to_string())
        .collect();
    assert_eq!(
        names,
        vec![
            String::from("|"),
            String::from("|Map"),
            String::from("/|Map|a.img"),
            String::from("/|Map|Sub"),
            String::from("/|Map//|Map|Sub|b.img"),
            String::from("|top.img"),
        ]
    );
}

/// An image that claims a size without holding the bytes
struct ClaimedImage(u64);

impl Image for ClaimedImage {
    fn name(&self) -> &str {
        "claimed.img"
    }

    fn size(&self) -> u64 {
        self.0
    }

    fn checksum(&self) -> i32 {
        0
    }

    fn to_bytes(&self) -> Result<Vec<u8>, String> {
        Ok(Vec::new())
    }
}

#[test]
fn builder_refuses_too_large() {
    let mut builder: Builder<ClaimedImage> = Builder::new();
    let root = builder.root();
    builder.add_image(root, ClaimedImage(0x7fff_ff00)).unwrap();
    let err = builder.add_image(root, ClaimedImage(0x1000)).unwrap_err();
    assert_eq!(err.code(), ErrorCode::Encode);
    // The builder is left as it was: the first image alone.
    let archive = builder.build(83).unwrap();
    let names: Vec<String> = archive
        .iter()
        .into_iter()
        .map(|(_, c)| c.name().to_string())
        .collect();
    assert_eq!(names, vec![String::from(""), String::from("claimed.img")]);
}

#[test]
fn writer_copies_short_image_and_fails() {
    let mut builder: Builder<ClaimedImage> = Builder::new();
    let root = builder.root();
    builder.add_image(root, ClaimedImage(4)).unwrap();
    let mut writer = Writer::unencrypted(83);
    let err = builder.write(&mut writer).unwrap_err();
    assert_eq!(err.code(), ErrorCode::Io);
}

#[test]
fn writer_reports_unreadable_image() {
    let mut builder: Builder<BrokenImage> = Builder::new();
    let root = builder.root();
    builder.add_image(root, BrokenImage).unwrap();
    let mut writer = Writer::unencrypted(83);
    let err = builder.write(&mut writer).unwrap_err();
    assert_eq!(err.code(), ErrorCode::Io);
}

#[test]
fn reader_rejects_wrong_version() {
    let bytes = write_sample(83);
    let err = Reader::unencrypted_as_version(bytes, 84).unwrap_err();
    assert_eq!(err.code(), ErrorCode::Version);
}

#[test]
fn reader_rejects_bad_identifier() {
    let mut bytes = write_sample(83);
    bytes[0] = b'X';
    let err = Reader::unencrypted_as_version(bytes, 83).unwrap_err();
    assert_eq!(err.code(), ErrorCode::Header);
}

#[test]
fn copy_past_end_is_io_error() {
    let bytes = write_sample(83);
    let len = bytes.len() as u32;
    let reader = Reader::unencrypted_as_version(bytes, 83).unwrap();
    let mut out = Vec::new();
    let err = reader
        .copy_to(&mut out, Offset(len - 2), Int32(5))
        .unwrap_err();
    assert_eq!(err.code(), ErrorCode::Io);
    assert_eq!(out.len(), 2);
}

#[test]
fn encrypted_archive_reads_back() {
    let key = KeyStream::new(vec![0x13, 0x52, 0x2a, 0x5b, 0x08, 0x02, 0x10, 0x60, 0x06, 0x02]);
    let mut writer = Writer::new(key, 83);
    sample_builder().write(&mut writer).unwrap();
    let bytes = writer.as_slice().to_vec();
    let key = KeyStream::new(vec![0x13, 0x52, 0x2a, 0x5b, 0x08, 0x02, 0x10, 0x60, 0x06, 0x02]);
    let reader = Reader::as_version(bytes, 83, key).unwrap();
    let archive = reader.parse().unwrap();
    let b = archive.get("Map/Sub/b.img").unwrap();
    assert_eq!(b.name(), "b.img");
}

#[test]
fn header_round_trip() {
    let header = Header::new(83);
    let mut bytes = Vec::new();
    header.to_write(&mut bytes).unwrap();
    assert_eq!(bytes.len(), 62);
    assert_eq!(&bytes[0..4], b"PKG1");
    let back = Header::from_read(&bytes).unwrap();
    assert_eq!(back, header);
    assert_eq!(back.content_start, 60);
    assert_eq!(back.description, "Package file v1.0 Copyright 2002 Wizet, ZMS");
}

#[test]
fn header_hash_matches_checksum() {
    let header = Header::new(83);
    let (hash, version_checksum) = checksum(83);
    assert_eq!(header.version_hash, hash);
    assert!(Header::possible_versions(hash).contains(&version_checksum));
}

#[test]
fn builder_root_is_top_package() {
    let builder: Builder<MemImage> = Builder::new();
    assert_eq!(builder.root(), 0);
    let archive = builder.build(83).unwrap();
    let root = archive.get("").unwrap();
    assert_eq!(root.name(), "");
    assert_eq!(root.offset, Offset(62));
}

#[test]
fn subtree_copies_package_and_contents() {
    let archive = sample_builder().build(83).unwrap();
    let tree = archive.get_subtree("Map").unwrap();
    let names: Vec<String> = tree
        .iter()
        .into_iter()
        .map(|(_, c)| c.name().to_string())
        .collect();
    assert_eq!(
        names,
        vec![
            String::from("Map"),
            String::from("a.img"),
            String::from("Sub"),
            String::from("b.img"),
        ]
    );
    assert_eq!(tree.get("Sub/b.img"), archive.get("Map/Sub/b.img"));
    assert_eq!(tree.get("a.img"), archive.get("Map/a.img"));
    assert!(tree.get("top.img").is_none());
    assert!(archive.get_subtree("Map/missing").is_none());
    let leaf = archive.get_subtree("top.img").unwrap();
    assert_eq!(leaf.iter().len(), 1);
}

#[test]
fn non_ascii_names_read_back() {
    let mut builder: Builder<MemImage> = Builder::new();
    let root = builder.root();
    let pkg = builder.add_package(root, "Caf\u{e9}").unwrap();
    builder
        .add_image(pkg, image("\u{e9}t\u{e9}.img", vec![1, 2, 3], 6))
        .unwrap();
    let mut writer = Writer::unencrypted(83);
    builder.write(&mut writer).unwrap();
    let bytes = writer.as_slice().to_vec();
    let reader = Reader::unencrypted_as_version(bytes, 83).unwrap();
    let archive = reader.parse().unwrap();
    let img = archive.get("Caf\u{e9}/\u{e9}t\u{e9}.img").unwrap();
    let mut out = Vec::new();
    reader.copy_to(&mut out, img.offset, img.size).unwrap();
    assert_eq!(out, vec![1, 2, 3]);
}

#[test]
fn content_type_decodes_at_position() {
    let bytes = vec![3u8, 0xff, b'a' ^ 0xaa, 0, 0, 0];
    let mut decoder = wz::decode::SliceDecoder::unencrypted(60, 0, &bytes);
    decoder.seek(4).unwrap();
    let ct = ContentType::decode_at(&mut decoder, 0).unwrap();
    assert_eq!(ct, ContentType::Package(String::from("a")));
    assert_eq!(decoder.position().unwrap(), 4);
}
