//! WZ Archive Package Content types, with name references kept as they are read

use crate::archive::error::{Error, ErrorCode};
use crate::archive::offset::{spec_archive_offset, Offset};
use crate::archive::package::content::spec_archive_int32;
use crate::bytes::u32_le;
use crate::decode::decoder::spec_u32;
use crate::decode::{decode_string, decode_u32, decode_u8, spec_string, spec_u8, SliceDecoder, Stream};
use crate::encode::encoder::spec_offset_bytes;
use crate::encode::size::spec_str_size_hint;
use crate::encode::{spec_str_bytes, str_encodable, EncodeContext, Encode, Encoder, SizeHint};
use crate::types::{spec_int32_bytes, spec_int_size, Int32};
use vstd::prelude::*;

verus! {

/// Content Types
#[derive(Debug, PartialOrd, PartialEq, Ord, Eq)]
pub enum ContentType {
    /// Referenced tag=2
    Referenced(u32),
    /// Package tag=3
    Package(String),
    /// Image tag=4
    Image(String),
}

/// A content type as plain values.
pub enum ContentTypeView {
    /// Position of the content type that is meant
    Referenced(u32),
    /// Package
    Package(Seq<char>),
    /// Image
    Image(Seq<char>),
}

impl ContentTypeView {
    /// The name of the content: empty for a reference.
    pub open spec fn name(self) -> Seq<char> {
        match self {
            ContentTypeView::Referenced(_) => Seq::empty(),
            ContentTypeView::Package(n) => n,
            ContentTypeView::Image(n) => n,
        }
    }
}

impl View for ContentType {
    type V = ContentTypeView;

    open spec fn view(&self) -> ContentTypeView {
        match self {
            ContentType::Referenced(o) => ContentTypeView::Referenced(*o),
            ContentType::Package(n) => ContentTypeView::Package(n@),
            ContentType::Image(n) => ContentTypeView::Image(n@),
        }
    }
}

/// Content
#[derive(Debug, PartialOrd, PartialEq, Ord, Eq)]
pub struct Content {
    /// Type of content
    pub content_type: ContentType,
    /// Size of content
    pub size: Int32,
    /// Content checksum
    pub checksum: Int32,
    /// Offset of content in the archive
    pub offset: Offset,
}

/// A content entry as plain values.
pub struct ContentView {
    /// Type of content
    pub content_type: ContentTypeView,
    /// Size of content
    pub size: i32,
    /// Content checksum
    pub checksum: i32,
    /// Offset of content in the archive
    pub offset: u32,
}

impl View for Content {
    type V = ContentView;

    open spec fn view(&self) -> ContentView {
        ContentView {
            content_type: self.content_type@,
            size: self.size@,
            checksum: self.checksum@,
            offset: self.offset@,
        }
    }
}

/// The content type at `pos`: a tag, then the position of another content type (tag 2),
/// or a name (tag 3 for a package, 4 for an image).
pub open spec fn spec_content_type(s: Stream, pos: int) -> Result<(ContentTypeView, int), ErrorCode> {
    match spec_u8(s, pos) {
        Err(_) => Err(ErrorCode::Decode),
        Ok((tag, p)) => if tag == 2 {
            match spec_u32(s, p) {
                Err(_) => Err(ErrorCode::Decode),
                Ok((v, p2)) => Ok((ContentTypeView::Referenced(v), p2)),
            }
        } else if tag == 3 || tag == 4 {
            match spec_string(s, p) {
                Err(_) => Err(ErrorCode::Decode),
                Ok((n, p2)) => Ok(
                    (
                        if tag == 3 {
                            ContentTypeView::Package(n)
                        } else {
                            ContentTypeView::Image(n)
                        },
                        p2,
                    ),
                ),
            }
        } else {
            Err(ErrorCode::Tag)
        },
    }
}

/// The content entry at `pos`: its type, size (which must not be negative), checksum and
/// offset.
pub open spec fn spec_content(s: Stream, pos: int) -> Result<(ContentView, int), ErrorCode> {
    match spec_content_type(s, pos) {
        Err(e) => Err(e),
        Ok((content_type, p1)) => match spec_archive_int32(s, p1) {
            Err(e) => Err(e),
            Ok((size, p2)) => if size < 0 {
                Err(ErrorCode::Decode)
            } else {
                match spec_archive_int32(s, p2) {
                    Err(e) => Err(e),
                    Ok((checksum, p3)) => match spec_archive_offset(s, p3) {
                        Err(e) => Err(e),
                        Ok((offset, p4)) => Ok(
                            (ContentView { content_type, size, checksum, offset }, p4),
                        ),
                    },
                }
            },
        },
    }
}

/// The encoded bytes of a content type.
pub open spec fn spec_content_type_bytes(key: Seq<u8>, ct: ContentTypeView) -> Seq<u8> {
    match ct {
        ContentTypeView::Referenced(o) => seq![2u8] + u32_le(o),
        ContentTypeView::Package(n) => seq![3u8] + spec_str_bytes(key, n),
        ContentTypeView::Image(n) => seq![4u8] + spec_str_bytes(key, n),
    }
}

/// The size hint of a content type: the tag, then the reference or the name.
pub open spec fn spec_content_type_size(ct: ContentTypeView) -> int {
    match ct {
        ContentTypeView::Referenced(_) => 5,
        ContentTypeView::Package(n) => 1 + spec_str_size_hint(n),
        ContentTypeView::Image(n) => 1 + spec_str_size_hint(n),
    }
}

/// Whether the name of a content type can be encoded.
pub open spec fn content_type_encodable(ct: ContentTypeView) -> bool {
    match ct {
        ContentTypeView::Referenced(_) => true,
        ContentTypeView::Package(n) => str_encodable(n),
        ContentTypeView::Image(n) => str_encodable(n),
    }
}

impl ContentType {
    /// Returns the name of the content
    pub fn name(&self) -> (r: &str)
        ensures
            r@ == self@.name(),
    {
        match self {
            ContentType::Package(name) => name.as_str(),
            ContentType::Image(name) => name.as_str(),
            _ => {
                proof {
                    reveal_strlit("");
                }
                ""
            },
        }
    }

    /// Decodes a content type
    pub fn decode(decoder: &mut SliceDecoder) -> (r: Result<Self, Error>)
        ensures
            final(decoder).stream() == old(decoder).stream(),
            match spec_content_type(old(decoder).stream(), old(decoder).pos()) {
                Ok((v, p)) => r matches Ok(x) && x@ == v && final(decoder).pos() == p,
                Err(c) => r matches Err(e) && e.spec_code() == c,
            },
    {
        let tag = match decode_u8(decoder) {
            Ok(t) => t,
            Err(e) => return Err(Error::from_decode(e)),
        };
        if tag == 2 {
            match decode_u32(decoder) {
                Ok(v) => Ok(ContentType::Referenced(v)),
                Err(e) => Err(Error::from_decode(e)),
            }
        } else if tag == 3 {
            match decode_string(decoder) {
                Ok(n) => Ok(ContentType::Package(n)),
                Err(e) => Err(Error::from_decode(e)),
            }
        } else if tag == 4 {
            match decode_string(decoder) {
                Ok(n) => Ok(ContentType::Image(n)),
                Err(e) => Err(Error::from_decode(e)),
            }
        } else {
            Err(Error::tag("invalid ContentType tag"))
        }
    }
}

impl Content {
    /// Returns the name of the content
    pub fn name(&self) -> (r: &str)
        ensures
            r@ == self@.content_type.name(),
    {
        self.content_type.name()
    }

    /// Decodes a content entry
    pub fn decode(decoder: &mut SliceDecoder) -> (r: Result<Self, Error>)
        ensures
            final(decoder).stream() == old(decoder).stream(),
            match spec_content(old(decoder).stream(), old(decoder).pos()) {
                Ok((v, p)) => r matches Ok(x) && x@ == v && final(decoder).pos() == p,
                Err(c) => r matches Err(e) && e.spec_code() == c,
            },
    {
        let content_type = match ContentType::decode(decoder) {
            Ok(ct) => ct,
            Err(e) => return Err(e),
        };
        let size = match Int32::decode(decoder) {
            Ok(v) => v,
            Err(e) => return Err(Error::from_decode(e)),
        };
        if size.is_negative() {
            return Err(Error::decode("Content size is negative"));
        }
        let checksum = match Int32::decode(decoder) {
            Ok(v) => v,
            Err(e) => return Err(Error::from_decode(e)),
        };
        let offset = match Offset::decode(decoder) {
            Ok(o) => o,
            Err(e) => return Err(e),
        };
        Ok(Content { content_type, size, checksum, offset })
    }
}

impl SizeHint for ContentType {
    open spec fn spec_size_hint(&self) -> int {
        spec_content_type_size(self@)
    }

    fn size_hint(&self) -> (r: u64) {
        match self {
            Self::Referenced(offset) => 1 + offset.size_hint(),
            Self::Package(name) => 1 + name.size_hint(),
            Self::Image(name) => 1 + name.size_hint(),
        }
    }
}

impl SizeHint for Content {
    open spec fn spec_size_hint(&self) -> int {
        spec_content_type_size(self@.content_type) + spec_int_size(self@.size as int, 4)
            + spec_int_size(self@.checksum as int, 4) + 4
    }

    fn size_hint(&self) -> (r: u64) {
        let a = self.content_type.size_hint();
        let b = self.size.size_hint();
        let c = self.checksum.size_hint();
        let d = self.offset.size_hint();
        a + b + c + d
    }
}

impl Encode for ContentType {
    type Error = Error;

    open spec fn spec_encodable(&self) -> bool {
        content_type_encodable(self@)
    }

    open spec fn spec_encode(&self, ctx: EncodeContext, position: int) -> Option<Seq<u8>> {
        Some(spec_content_type_bytes(ctx.key, self@))
    }

    fn encode<E: Encoder>(&self, encoder: &mut E) -> (r: Result<(), Self::Error>) {
        let ghost start = encoder.spec_written();
        match self {
            Self::Referenced(offset) => {
                let _ = 2u8.encode(encoder);
                let _ = offset.encode(encoder);
            },
            Self::Package(name) => {
                let _ = 3u8.encode(encoder);
                let _ = name.encode(encoder);
            },
            Self::Image(name) => {
                let _ = 4u8.encode(encoder);
                let _ = name.encode(encoder);
            },
        }
        assert(encoder.spec_written() =~= start + spec_content_type_bytes(
            encoder.spec_context().key,
            self@,
        ));
        Ok(())
    }
}

/// The encoded bytes of a content entry written at `position`, if its offset can be stored.
pub open spec fn spec_content_bytes(ctx: EncodeContext, position: int, c: ContentView) -> Option<
    Seq<u8>,
> {
    let head = spec_content_type_bytes(ctx.key, c.content_type) + spec_int32_bytes(c.size)
        + spec_int32_bytes(c.checksum);
    match spec_offset_bytes(ctx, position + head.len(), c.offset) {
        Some(o) => Some(head + o),
        None => None,
    }
}

impl Encode for Content {
    type Error = Error;

    open spec fn spec_encodable(&self) -> bool {
        content_type_encodable(self@.content_type)
    }

    open spec fn spec_encode(&self, ctx: EncodeContext, position: int) -> Option<Seq<u8>> {
        spec_content_bytes(ctx, position, self@)
    }

    fn encode<E: Encoder>(&self, encoder: &mut E) -> (r: Result<(), Self::Error>) {
        let ghost start = encoder.spec_written();
        let _ = self.content_type.encode(encoder);
        let _ = self.size.encode(encoder);
        let _ = self.checksum.encode(encoder);
        let ghost head = encoder.spec_written();
        let r = self.offset.encode(encoder);
        proof {
            let h = spec_content_type_bytes(encoder.spec_context().key, self@.content_type)
                + spec_int32_bytes(self@.size) + spec_int32_bytes(self@.checksum);
            assert(head =~= start + h);
        }
        match r {
            Ok(()) => {
                assert(encoder.spec_written() =~= start + spec_content_bytes(
                    encoder.spec_context(),
                    start.len() as int,
                    self@,
                )->0);
                Ok(())
            },
            Err(e) => Err(e),
        }
    }
}

} // verus!
