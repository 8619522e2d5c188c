//! WZ Archive Package Content types

use crate::archive::error::{Error, ErrorCode};
use crate::archive::offset::{spec_archive_offset, Offset};
use crate::decode::{decode_i32, decode_string, decode_u8, spec_i32, spec_string, spec_u8, SliceDecoder, Stream};
use crate::encode::encoder::spec_offset_bytes;
use crate::encode::{spec_str_bytes, str_encodable, EncodeContext, Encode, Encoder, SizeHint};
use crate::encode::size::spec_str_size_hint;
use crate::types::{spec_int32, spec_int32_bytes, spec_int_size, Int32};
use crate::archive::offset::{lemma_offset_roundtrip, spec_encode_offset};
use crate::bytes::{lemma_u32_le_roundtrip, u32_at, u32_le};
use crate::roundtrip::{holds_at, lemma_holds_at_part, lemma_int32_at, lemma_string_at};
use crate::text::{utf16_decode, utf16_encode};
use vstd::prelude::*;
use vstd::utf8::{encode_utf8, is_ascii_chars};

verus! {

/// Content Types
#[derive(Debug, Clone, PartialOrd, PartialEq, Ord, Eq)]
pub enum ContentType {
    /// Package tag=3
    Package(String),
    /// Image tag=4
    Image(String),
}

/// A content type with its name as characters.
pub enum ContentTypeView {
    /// Package
    Package(Seq<char>),
    /// Image
    Image(Seq<char>),
}

impl ContentTypeView {
    /// The name of the content.
    pub open spec fn name(self) -> Seq<char> {
        match self {
            ContentTypeView::Package(n) => n,
            ContentTypeView::Image(n) => n,
        }
    }

    /// The tag that announces the content type.
    pub open spec fn tag(self) -> u8 {
        match self {
            ContentTypeView::Package(_) => 3,
            ContentTypeView::Image(_) => 4,
        }
    }
}

impl View for ContentType {
    type V = ContentTypeView;

    open spec fn view(&self) -> ContentTypeView {
        match self {
            ContentType::Package(n) => ContentTypeView::Package(n@),
            ContentType::Image(n) => ContentTypeView::Image(n@),
        }
    }
}

/// Content
#[derive(Debug, Clone, PartialOrd, PartialEq, Ord, Eq)]
pub struct Content {
    /// Type of content
    pub content_type: ContentType,
    /// Size of content
    pub size: Int32,
    /// Content checksum
    pub checksum: Int32,
    /// Offset of content in the archive
    pub offset: Offset,
}

/// A content entry as plain values.
pub struct ContentView {
    /// Type of content
    pub content_type: ContentTypeView,
    /// Size of content
    pub size: i32,
    /// Content checksum
    pub checksum: i32,
    /// Offset of content in the archive
    pub offset: u32,
}

impl View for Content {
    type V = ContentView;

    open spec fn view(&self) -> ContentView {
        ContentView {
            content_type: self.content_type@,
            size: self.size@,
            checksum: self.checksum@,
            offset: self.offset@,
        }
    }
}

/// The content type at `pos`. Tag 3 is a package and tag 4 an image, each followed by its
/// name. Tag 2 holds the position of another content type (so that duplicate names are
/// written once), which is read in its place; at most `fuel` such references are followed,
/// a chain longer than the data having to run in a circle.
#[verifier::opaque]
pub open spec fn spec_content_type(s: Stream, pos: int, fuel: nat) -> Result<(ContentTypeView, int), ErrorCode>
    decreases fuel,
{
    match spec_u8(s, pos) {
        Err(_) => Err(ErrorCode::Decode),
        Ok((tag, p1)) => if tag == 2 {
            match spec_i32(s, p1) {
                Err(_) => Err(ErrorCode::Decode),
                Ok((off, p2)) => if off < 0 {
                    Err(ErrorCode::Offset)
                } else if p2 > u32::MAX {
                    Err(ErrorCode::Decode)
                } else if fuel == 0 {
                    Err(ErrorCode::Offset)
                } else {
                    match spec_content_type(s, off as int, (fuel - 1) as nat) {
                        Ok((ct, _)) => Ok((ct, p2)),
                        Err(e) => Err(e),
                    }
                },
            }
        } else if tag == 3 {
            match spec_string(s, p1) {
                Err(_) => Err(ErrorCode::Decode),
                Ok((name, p2)) => Ok((ContentTypeView::Package(name), p2)),
            }
        } else if tag == 4 {
            match spec_string(s, p1) {
                Err(_) => Err(ErrorCode::Decode),
                Ok((name, p2)) => Ok((ContentTypeView::Image(name), p2)),
            }
        } else {
            Err(ErrorCode::Tag)
        },
    }
}

/// The compressed integer at `pos`, with decode errors reported as archive decode errors.
pub open spec fn spec_archive_int32(s: Stream, pos: int) -> Result<(i32, int), ErrorCode> {
    match spec_int32(s, pos) {
        Ok((v, p)) => Ok((v, p)),
        Err(_) => Err(ErrorCode::Decode),
    }
}

/// The content entry at `pos`: its type, size (which must not be negative), checksum and
/// offset.
#[verifier::opaque]
pub open spec fn spec_content(s: Stream, pos: int) -> Result<(ContentView, int), ErrorCode> {
    match spec_content_type(s, pos, s.data.len()) {
        Err(e) => Err(e),
        Ok((content_type, p1)) => match spec_archive_int32(s, p1) {
            Err(e) => Err(e),
            Ok((size, p2)) => if size < 0 {
                Err(ErrorCode::Size)
            } else {
                match spec_archive_int32(s, p2) {
                    Err(e) => Err(e),
                    Ok((checksum, p3)) => match spec_archive_offset(s, p3) {
                        Err(e) => Err(e),
                        Ok((offset, p4)) => Ok(
                            (ContentView { content_type, size, checksum, offset }, p4),
                        ),
                    },
                }
            },
        },
    }
}

/// `r` is what a decode that the spec `expected` describes returns.
pub open spec fn archive_decodes_as<T: View>(
    r: Result<T, Error>,
    expected: Result<(T::V, int), ErrorCode>,
    end: int,
) -> bool {
    match expected {
        Ok((v, p)) => r matches Ok(x) && x@ == v && end == p,
        Err(c) => r matches Err(e) && e.spec_code() == c,
    }
}

/// The encoded bytes of a content type: its tag and name.
pub open spec fn spec_content_type_bytes(key: Seq<u8>, ct: ContentTypeView) -> Seq<u8> {
    seq![ct.tag()] + spec_str_bytes(key, ct.name())
}

/// The encoded bytes of a content entry written at `position`, if its offset can be stored.
pub open spec fn spec_content_bytes(ctx: EncodeContext, position: int, c: ContentView) -> Option<
    Seq<u8>,
> {
    let head = spec_content_type_bytes(ctx.key, c.content_type) + spec_int32_bytes(c.size)
        + spec_int32_bytes(c.checksum);
    match spec_offset_bytes(ctx, position + head.len(), c.offset) {
        Some(o) => Some(head + o),
        None => None,
    }
}

impl ContentType {
    /// Returns the name of the content
    pub fn name(&self) -> (r: &str)
        ensures
            r@ == self@.name(),
    {
        match self {
            ContentType::Package(name) => name.as_str(),
            ContentType::Image(name) => name.as_str(),
        }
    }

    fn decode_with_fuel(decoder: &mut SliceDecoder, fuel: usize) -> (r: Result<Self, Error>)
        ensures
            final(decoder).stream() == old(decoder).stream(),
            archive_decodes_as(
                r,
                spec_content_type(old(decoder).stream(), old(decoder).pos(), fuel as nat),
                final(decoder).pos(),
            ),
        decreases fuel,
    {
        reveal(spec_content_type);
        let tag = match decode_u8(decoder) {
            Ok(t) => t,
            Err(e) => return Err(Error::from_decode(e)),
        };
        if tag == 2 {
            // A tag of 2 indicates a reference elsewhere, so that duplicate names are only
            // written once. Read the offset of where the name and "real" tag are located.
            let offset = match decode_i32(decoder) {
                Ok(o) => o,
                Err(e) => return Err(Error::from_decode(e)),
            };
            if offset < 0 {
                // sanity check
                return Err(Error::offset("negative content offset"));
            }
            let current = match decoder.position() {
                Ok(p) => p,
                Err(e) => return Err(Error::from_decode(e)),
            };
            if fuel == 0 {
                return Err(Error::offset("content references run in a circle"));
            }
            let _ = decoder.seek(offset as u32);
            let ret = match Self::decode_with_fuel(decoder, fuel - 1) {
                Ok(ct) => ct,
                Err(e) => return Err(e),
            };
            let _ = decoder.seek(current);
            Ok(ret)
        } else if tag == 3 {
            match decode_string(decoder) {
                Ok(name) => Ok(ContentType::Package(name)),
                Err(e) => Err(Error::from_decode(e)),
            }
        } else if tag == 4 {
            match decode_string(decoder) {
                Ok(name) => Ok(ContentType::Image(name)),
                Err(e) => Err(Error::from_decode(e)),
            }
        } else {
            Err(Error::tag("invalid ContentType tag"))
        }
    }

    /// Decodes a content type, following name references
    pub fn decode(decoder: &mut SliceDecoder) -> (r: Result<Self, Error>)
        ensures
            final(decoder).stream() == old(decoder).stream(),
            archive_decodes_as(
                r,
                spec_content_type(
                    old(decoder).stream(),
                    old(decoder).pos(),
                    old(decoder).stream().data.len(),
                ),
                final(decoder).pos(),
            ),
    {
        let fuel = decoder.len();
        Self::decode_with_fuel(decoder, fuel)
    }

    /// Decodes a content type at `position` and returns to the previous position
    pub fn decode_at(decoder: &mut SliceDecoder, position: u32) -> (r: Result<Self, Error>)
        ensures
            final(decoder).stream() == old(decoder).stream(),
            old(decoder).pos() > u32::MAX ==> (r matches Err(e) && e.spec_code()
                == ErrorCode::Decode),
            old(decoder).pos() <= u32::MAX ==> match spec_content_type(
                old(decoder).stream(),
                position as int,
                old(decoder).stream().data.len(),
            ) {
                Ok((v, _)) => r matches Ok(x) && x@ == v && final(decoder).pos() == old(
                    decoder,
                ).pos(),
                Err(c) => r matches Err(e) && e.spec_code() == c,
            },
    {
        let current = match decoder.position() {
            Ok(p) => p,
            Err(e) => return Err(Error::from_decode(e)),
        };
        let _ = decoder.seek(position);
        let ret = match Self::decode(decoder) {
            Ok(ct) => ct,
            Err(e) => return Err(e),
        };
        let _ = decoder.seek(current);
        Ok(ret)
    }
}

impl Content {
    /// A copy of the content
    pub(crate) fn duplicate(&self) -> (r: Content)
        ensures
            r@ == self@,
    {
        let content_type = match &self.content_type {
            ContentType::Package(n) => ContentType::Package(n.clone()),
            ContentType::Image(n) => ContentType::Image(n.clone()),
        };
        Content { content_type, size: self.size, checksum: self.checksum, offset: self.offset }
    }

    /// Returns the name of the content
    pub fn name(&self) -> (r: &str)
        ensures
            r@ == self@.content_type.name(),
    {
        self.content_type.name()
    }

    /// Decodes a content entry
    pub fn decode(decoder: &mut SliceDecoder) -> (r: Result<Self, Error>)
        ensures
            final(decoder).stream() == old(decoder).stream(),
            archive_decodes_as(
                r,
                spec_content(old(decoder).stream(), old(decoder).pos()),
                final(decoder).pos(),
            ),
    {
        reveal(spec_content);
        let content_type = match ContentType::decode(decoder) {
            Ok(ct) => ct,
            Err(e) => return Err(e),
        };
        let size = match Int32::decode(decoder) {
            Ok(v) => v,
            Err(e) => return Err(Error::from_decode(e)),
        };
        if size.is_negative() {
            return Err(Error::size("Content size is negative"));
        }
        let checksum = match Int32::decode(decoder) {
            Ok(v) => v,
            Err(e) => return Err(Error::from_decode(e)),
        };
        let offset = match Offset::decode(decoder) {
            Ok(o) => o,
            Err(e) => return Err(e),
        };
        Ok(Content { content_type, size, checksum, offset })
    }
}

impl SizeHint for ContentType {
    open spec fn spec_size_hint(&self) -> int {
        1 + spec_str_size_hint(self@.name())
    }

    fn size_hint(&self) -> (r: u64) {
        let name = self.name();
        1 + name.size_hint()
    }
}

impl SizeHint for Content {
    open spec fn spec_size_hint(&self) -> int {
        1 + spec_str_size_hint(self@.content_type.name()) + spec_int_size(self@.size as int, 4)
            + spec_int_size(self@.checksum as int, 4) + 4
    }

    fn size_hint(&self) -> (r: u64) {
        let a = self.content_type.size_hint();
        let b = self.size.size_hint();
        let c = self.checksum.size_hint();
        let d = self.offset.size_hint();
        a + b + c + d
    }
}

impl Encode for ContentType {
    type Error = Error;

    open spec fn spec_encodable(&self) -> bool {
        str_encodable(self@.name())
    }

    open spec fn spec_encode(&self, ctx: EncodeContext, position: int) -> Option<Seq<u8>> {
        Some(spec_content_type_bytes(ctx.key, self@))
    }

    fn encode<E: Encoder>(&self, encoder: &mut E) -> (r: Result<(), Self::Error>)
        ensures
            r matches Err(e) ==> e.spec_code() == ErrorCode::Encode,
    {
        let (tag, name): (u8, &String) = match self {
            Self::Package(name) => (3u8, name),
            Self::Image(name) => (4u8, name),
        };
        let _ = tag.encode(encoder);
        match name.encode(encoder) {
            Ok(()) => Ok(()),
            Err(e) => Err(Error::from_encode(e)),
        }
    }
}

impl Encode for Content {
    type Error = Error;

    open spec fn spec_encodable(&self) -> bool {
        str_encodable(self@.content_type.name())
    }

    open spec fn spec_encode(&self, ctx: EncodeContext, position: int) -> Option<Seq<u8>> {
        spec_content_bytes(ctx, position, self@)
    }

    fn encode<E: Encoder>(&self, encoder: &mut E) -> (r: Result<(), Self::Error>)
        ensures
            r matches Err(e) ==> e.spec_code() == ErrorCode::Encode,
    {
        let ghost start = encoder.spec_written();
        match self.content_type.encode(encoder) {
            Ok(()) => {},
            Err(e) => return Err(e),
        }
        let _ = self.size.encode(encoder);
        let _ = self.checksum.encode(encoder);
        let ghost head = encoder.spec_written();
        let r = self.offset.encode(encoder);
        proof {
            let h = spec_content_type_bytes(encoder.spec_context().key, self@.content_type)
                + spec_int32_bytes(self@.size) + spec_int32_bytes(self@.checksum);
            assert(head =~= start + h);
        }
        match r {
            Ok(()) => {
                assert(encoder.spec_written() =~= start + spec_content_bytes(
                    encoder.spec_context(),
                    start.len() as int,
                    self@,
                )->0);
                Ok(())
            },
            Err(e) => Err(e),
        }
    }
}

} // verus!

verus! {

/// A content type decodes to the content type it was encoded from.
pub proof fn lemma_content_type_at(s: Stream, pos: int, ct: ContentTypeView, fuel: nat)
    requires
        holds_at(s, pos, spec_content_type_bytes(s.key, ct)),
        is_ascii_chars(ct.name()) ==> encode_utf8(ct.name()).len() <= i32::MAX,
        !is_ascii_chars(ct.name()) ==> {
            &&& utf16_decode(utf16_encode(ct.name())) == Some(ct.name())
            &&& ct.name().len() <= utf16_encode(ct.name()).len() <= i32::MAX
        },
    ensures
        spec_content_type(s, pos, fuel) == Ok::<(ContentTypeView, int), ErrorCode>(
            (ct, pos + spec_content_type_bytes(s.key, ct).len()),
        ),
{
    reveal(spec_content_type);
    let b = spec_content_type_bytes(s.key, ct);
    let strb = spec_str_bytes(s.key, ct.name());
    assert(b.subrange(0, 1) =~= seq![ct.tag()]);
    lemma_holds_at_part(s, pos, b, 0, 1);
    assert(s.data.subrange(pos, pos + 1)[0] == s.data[pos]);
    assert(s.data[pos] == ct.tag());
    assert(b.subrange(1, b.len() as int) =~= strb);
    lemma_holds_at_part(s, pos, b, 1, strb.len() as int);
    lemma_string_at(s, pos + 1, ct.name());
}

/// A content entry decodes to the entry it was encoded from, when it is read at the position
/// it was written at with the same keys. Its size must not be negative, its name must be
/// encodable (see `lemma_string_roundtrip`) and its offset must be stored below `u32::MAX`.
pub proof fn lemma_content_roundtrip(ctx: EncodeContext, s: Stream, pos: int, c: ContentView)
    requires
        s.key == ctx.key,
        s.content_start == ctx.content_start,
        s.version_checksum == ctx.version_checksum,
        c.size >= 0,
        is_ascii_chars(c.content_type.name()) ==> encode_utf8(c.content_type.name()).len()
            <= i32::MAX,
        !is_ascii_chars(c.content_type.name()) ==> {
            &&& utf16_decode(utf16_encode(c.content_type.name())) == Some(c.content_type.name())
            &&& c.content_type.name().len() <= utf16_encode(c.content_type.name()).len()
                <= i32::MAX
        },
        spec_content_bytes(ctx, pos, c) matches Some(b) && holds_at(s, pos, b),
    ensures
        spec_content(s, pos) == Ok::<(ContentView, int), ErrorCode>(
            (c, pos + spec_content_bytes(ctx, pos, c)->0.len()),
        ),
{
    reveal(spec_content);
    let b = spec_content_bytes(ctx, pos, c)->0;
    let ctb = spec_content_type_bytes(ctx.key, c.content_type);
    let szb = spec_int32_bytes(c.size);
    let ckb = spec_int32_bytes(c.checksum);
    let head = ctb + szb + ckb;
    let ob = spec_offset_bytes(ctx, pos + head.len(), c.offset)->0;
    assert(b == head + ob);
    let p1 = pos + ctb.len();
    let p2 = p1 + szb.len();
    let p3 = p2 + ckb.len();
    assert(b.subrange(0, ctb.len() as int) =~= ctb);
    lemma_holds_at_part(s, pos, b, 0, ctb.len() as int);
    lemma_content_type_at(s, pos, c.content_type, s.data.len());
    assert(b.subrange(ctb.len() as int, (ctb.len() + szb.len()) as int) =~= szb);
    lemma_holds_at_part(s, pos, b, ctb.len() as int, szb.len() as int);
    lemma_int32_at(s, p1, c.size);
    assert(b.subrange((ctb.len() + szb.len()) as int, head.len() as int) =~= ckb);
    lemma_holds_at_part(s, pos, b, (ctb.len() + szb.len()) as int, ckb.len() as int);
    lemma_int32_at(s, p2, c.checksum);
    let stored = spec_encode_offset(c.offset, p3 as u32, ctx.content_start, ctx.version_checksum);
    assert(ob == u32_le(stored));
    assert(b.subrange(head.len() as int, head.len() + 4int) =~= ob);
    lemma_holds_at_part(s, pos, b, head.len() as int, 4);
    lemma_u32_le_roundtrip(stored);
    assert(s.data[p3] == ob[0] && s.data[p3 + 1] == ob[1] && s.data[p3 + 2] == ob[2] && s.data[p3
        + 3] == ob[3]);
    assert(u32_at(s.data, p3) == stored);
    lemma_offset_roundtrip(c.offset, p3 as u32, ctx.content_start, ctx.version_checksum);
}

} // verus!
