//! WZ Content Enumeration

use crate::archive::offset::Offset;
use crate::decode::decoder::spec_take;
use crate::decode::{decode_i32, decode_string, decode_u8, spec_i32, spec_string, spec_u8, SliceDecoder, Stream};
use crate::encode::size::spec_str_size_hint;
use crate::encode::SizeHint;
use crate::error::{fails_as, DecodeError, Error, Failure};
use crate::file::package::content::spec_params;
use crate::types::{spec_int_size, Int32};
use vstd::prelude::*;

verus! {

/// The kinds of content, by tag: 1 unknown, 2 a reference, 3 a package, 4 an image
#[derive(Debug, Clone, Copy, PartialEq, Eq)]
pub enum ContentType {
    /// Tag 1
    Unknown,
    /// Tag 2
    Referencce,
    /// Tag 3
    Package,
    /// Tag 4
    Image,
}

/// A reference to content described elsewhere
#[derive(Debug, PartialEq, Eq)]
pub struct ContentReference {
    /// The type of content referenced
    pub content_type: ContentType,
    /// Size of the `Content`
    pub size: Int32,
    /// Checksum of the `Content` -- basically ignored
    pub checksum: Int32,
    /// Position of the `Content` in the WZ file
    pub offset: Offset,
}

/// Info describing the known `Content`
#[derive(Debug, PartialEq, Eq)]
pub struct ContentInfo {
    /// Size of the `Content`
    pub size: Int32,
    /// Checksum of the `Content` -- basically ignored
    pub checksum: Int32,
    /// Position of the `Content` in the WZ file
    pub offset: Offset,
}

/// Possible `Content` types found in a `Package`
#[derive(Debug, PartialEq, Eq)]
pub enum Content {
    /// Ten bytes of unknown meaning
    Unknown([u8; 10]),
    /// Reference object
    Reference(ContentReference, ContentInfo),
    /// Package
    Package(String, ContentInfo),
    /// Image
    Image(String, ContentInfo),
}

/// Content as plain values: its kind, its ten bytes (unknown content), its name, its size,
/// checksum and offset, and, for a reference, the kind, size, checksum and offset of the
/// content it refers to.
pub struct ContentView {
    /// Kind
    pub content_type: ContentType,
    /// The bytes of unknown content
    pub bytes: Seq<u8>,
    /// Name
    pub name: Seq<char>,
    /// Size, checksum and offset
    pub info: (i32, i32, u32),
    /// What a reference refers to: kind, size, checksum and offset
    pub reference: Option<(ContentType, i32, i32, u32)>,
}

impl View for Content {
    type V = ContentView;

    open spec fn view(&self) -> ContentView {
        match self {
            Content::Unknown(b) => ContentView {
                content_type: ContentType::Unknown,
                bytes: b@,
                name: Seq::empty(),
                info: (0, 0, 0),
                reference: None,
            },
            Content::Reference(r, i) => ContentView {
                content_type: ContentType::Referencce,
                bytes: Seq::empty(),
                name: Seq::empty(),
                info: (i.size@, i.checksum@, i.offset@),
                reference: Some((r.content_type, r.size@, r.checksum@, r.offset@)),
            },
            Content::Package(n, i) => ContentView {
                content_type: ContentType::Package,
                bytes: Seq::empty(),
                name: n@,
                info: (i.size@, i.checksum@, i.offset@),
                reference: None,
            },
            Content::Image(n, i) => ContentView {
                content_type: ContentType::Image,
                bytes: Seq::empty(),
                name: n@,
                info: (i.size@, i.checksum@, i.offset@),
                reference: None,
            },
        }
    }
}

/// Named content of kind `t` with its info.
pub open spec fn named(t: ContentType, name: Seq<char>, info: (i32, i32, u32)) -> ContentView {
    ContentView { content_type: t, bytes: Seq::empty(), name, info, reference: None }
}

/// The content at `pos`: a tag, then ten bytes (1), a reference (2: the position of the real
/// tag and name, which must not be negative, then the info; the name is read where the
/// reference points, without moving past the info), or a name and the info (3 for a
/// package, 4 for an image).
pub open spec fn spec_old_content(s: Stream, pos: int) -> Result<(ContentView, int), Failure> {
    match spec_u8(s, pos) {
        Err(c) => Err(Failure::Read(c)),
        Ok((tag, p1)) => if tag == 1 {
            match spec_take(s, p1, 10) {
                Err(c) => Err(Failure::Read(c)),
                Ok((b, p2)) => Ok(
                    (
                        ContentView {
                            content_type: ContentType::Unknown,
                            bytes: b,
                            name: Seq::empty(),
                            info: (0, 0, 0),
                            reference: None,
                        },
                        p2,
                    ),
                ),
            }
        } else if tag == 2 {
            match spec_i32(s, p1) {
                Err(c) => Err(Failure::Read(c)),
                Ok((off, p2)) => if off < 0 {
                    Err(Failure::Decode(DecodeError::Offset(off)))
                } else {
                    match spec_params(s, p2) {
                        Err(f) => Err(f),
                        Ok((size, checksum, offset, p3)) => if p3 > u32::MAX {
                            Err(Failure::Read(crate::decode::ErrorCode::Position))
                        } else {
                            match spec_u8(s, off as int) {
                                Err(c) => Err(Failure::Read(c)),
                                Ok((t, p4)) => if t != 3 && t != 4 {
                                    Err(Failure::Decode(DecodeError::Tag(t)))
                                } else {
                                    match spec_string(s, p4) {
                                        Err(c) => Err(Failure::Read(c)),
                                        Ok((name, _)) => Ok(
                                            (
                                                named(
                                                    if t == 3 {
                                                        ContentType::Package
                                                    } else {
                                                        ContentType::Image
                                                    },
                                                    name,
                                                    (size, checksum, offset),
                                                ),
                                                p3,
                                            ),
                                        ),
                                    }
                                },
                            }
                        },
                    }
                },
            }
        } else if tag == 3 || tag == 4 {
            match spec_string(s, p1) {
                Err(c) => Err(Failure::Read(c)),
                Ok((name, p2)) => match spec_params(s, p2) {
                    Err(f) => Err(f),
                    Ok((size, checksum, offset, p3)) => Ok(
                        (
                            named(
                                if tag == 3 {
                                    ContentType::Package
                                } else {
                                    ContentType::Image
                                },
                                name,
                                (size, checksum, offset),
                            ),
                            p3,
                        ),
                    ),
                },
            }
        } else {
            Err(Failure::Decode(DecodeError::Tag(tag)))
        },
    }
}

impl ContentInfo {
    /// Decodes the size, checksum and offset
    pub fn decode(decoder: &mut SliceDecoder) -> (r: Result<Self, Error>)
        ensures
            final(decoder).stream() == old(decoder).stream(),
            match spec_params(old(decoder).stream(), old(decoder).pos()) {
                Ok((size, checksum, offset, p)) => r matches Ok(x) && x.size@ == size
                    && x.checksum@ == checksum && x.offset@ == offset && final(decoder).pos() == p,
                Err(f) => r matches Err(e) && fails_as(e, f),
            },
    {
        let size = match Int32::decode(decoder) {
            Ok(v) => v,
            Err(e) => return Err(Error::from_read(e)),
        };
        let checksum = match Int32::decode(decoder) {
            Ok(v) => v,
            Err(e) => return Err(Error::from_read(e)),
        };
        let offset = match decoder.decode_offset() {
            Ok(o) => o,
            Err(e) => return Err(Error::from_read(e)),
        };
        Ok(ContentInfo { size, checksum, offset })
    }

    /// The encoded size: the compressed size and checksum and the four bytes of the offset
    pub fn encode_size(&self) -> (r: u64)
        ensures
            r == spec_int_size(self.size@ as int, 4) + spec_int_size(self.checksum@ as int, 4) + 4,
    {
        self.size.size_hint() + self.checksum.size_hint() + 4
    }
}

impl Content {
    /// Decodes content, following a reference to its name
    pub fn decode(decoder: &mut SliceDecoder) -> (r: Result<Self, Error>)
        ensures
            final(decoder).stream() == old(decoder).stream(),
            match spec_old_content(old(decoder).stream(), old(decoder).pos()) {
                Ok((v, p)) => r matches Ok(x) && x@ == v && final(decoder).pos() == p,
                Err(f) => r matches Err(e) && fails_as(e, f),
            },
    {
        let tag = match decode_u8(decoder) {
            Ok(t) => t,
            Err(e) => return Err(Error::from_read(e)),
        };
        if tag == 1 {
            let b = match decoder.decode_bytes(10) {
                Ok(b) => b,
                Err(e) => return Err(Error::from_read(e)),
            };
            let data = [b[0], b[1], b[2], b[3], b[4], b[5], b[6], b[7], b[8], b[9]];
            assert(data@ =~= b@);
            Ok(Content::Unknown(data))
        } else if tag == 2 {
            let offset = match decode_i32(decoder) {
                Ok(o) => o,
                Err(e) => return Err(Error::from_read(e)),
            };
            if offset < 0 {
                return Err(Error::decode(DecodeError::Offset(offset)));
            }
            let info = match ContentInfo::decode(decoder) {
                Ok(i) => i,
                Err(e) => return Err(e),
            };
            let pos = match decoder.position() {
                Ok(p) => p,
                Err(e) => return Err(Error::from_read(e)),
            };
            let _ = decoder.seek(offset as u32);
            let t = match decode_u8(decoder) {
                Ok(t) => t,
                Err(e) => return Err(Error::from_read(e)),
            };
            if t != 3 && t != 4 {
                return Err(Error::decode(DecodeError::Tag(t)));
            }
            let name = match decode_string(decoder) {
                Ok(n) => n,
                Err(e) => return Err(Error::from_read(e)),
            };
            let _ = decoder.seek(pos);
            if t == 3 {
                Ok(Content::Package(name, info))
            } else {
                Ok(Content::Image(name, info))
            }
        } else if tag == 3 || tag == 4 {
            let name = match decode_string(decoder) {
                Ok(n) => n,
                Err(e) => return Err(Error::from_read(e)),
            };
            let info = match ContentInfo::decode(decoder) {
                Ok(i) => i,
                Err(e) => return Err(e),
            };
            if tag == 3 {
                Ok(Content::Package(name, info))
            } else {
                Ok(Content::Image(name, info))
            }
        } else {
            Err(Error::decode(DecodeError::Tag(tag)))
        }
    }

    /// The encoded size: the tag, then the ten bytes, or the name and the info
    pub fn encode_size(&self) -> (r: u64)
        requires
            !(self is Reference),
            0 <= spec_str_size_hint(self@.name) <= u64::MAX - 16,
        ensures
            r == match self@.content_type {
                ContentType::Unknown => 11,
                _ => 1 + spec_str_size_hint(self@.name) + spec_int_size(self@.info.0 as int, 4)
                    + spec_int_size(self@.info.1 as int, 4) + 4,
            },
    {
        match self {
            Content::Unknown(bytes) => 1 + bytes.len() as u64,
            Content::Package(name, info) => 1 + name.size_hint() + info.encode_size(),
            Content::Image(name, info) => 1 + name.size_hint() + info.encode_size(),
            Content::Reference(_, info) => 1 + info.encode_size(),
        }
    }
}

} // verus!
