//! Content Metadata

use crate::archive::offset::Offset;
use crate::decode::decoder::spec_offset;
use crate::decode::{decode_i32, decode_string, decode_u8, spec_i32, spec_string, spec_u8, SliceDecoder, Stream};
use crate::encode::encoder::spec_offset_bytes;
use crate::encode::{spec_str_bytes, str_encodable, EncodeContext, Encode, Encoder, Error as EncodeError};
use crate::error::{DecodeError, Error, Failure, reads_as};
use crate::types::{spec_int32, spec_int32_bytes, Int32};
use vstd::prelude::*;

verus! {

/// Content metadata
#[derive(Debug, PartialEq, Eq)]
pub struct Metadata {
    /// Name of the content
    pub(crate) name: String,
    /// Size of the content
    pub(crate) size: Int32,
    /// Checksum of the content. Sum of all the bytes
    pub(crate) checksum: Int32,
    /// Position of the content within the WZ archive
    pub(crate) offset: Offset,
}

/// Content metadata as plain values.
pub struct MetadataView {
    /// Name of the content
    pub name: Seq<char>,
    /// Size of the content
    pub size: i32,
    /// Checksum of the content
    pub checksum: i32,
    /// Position of the content
    pub offset: u32,
}

impl View for Metadata {
    type V = MetadataView;

    closed spec fn view(&self) -> MetadataView {
        MetadataView { name: self.name@, size: self.size@, checksum: self.checksum@, offset: self.offset@ }
    }
}

/// Content Types
#[derive(Debug, PartialEq, Eq)]
pub enum ContentRef {
    /// A package
    Package(Metadata),
    /// An image
    Image(Metadata),
}

/// A content reference as plain values.
pub enum ContentRefView {
    /// A package
    Package(MetadataView),
    /// An image
    Image(MetadataView),
}

impl ContentRefView {
    /// The metadata, whatever the kind of content.
    pub open spec fn data(self) -> MetadataView {
        match self {
            ContentRefView::Package(m) => m,
            ContentRefView::Image(m) => m,
        }
    }
}

impl View for ContentRef {
    type V = ContentRefView;

    open spec fn view(&self) -> ContentRefView {
        match self {
            ContentRef::Package(m) => ContentRefView::Package(m@),
            ContentRef::Image(m) => ContentRefView::Image(m@),
        }
    }
}

/// The tag and name that a name reference at `offset` points to, read while the decoder is
/// at `pos` (to which it comes back). Only tags 3 and 4 name contents.
pub open spec fn spec_dereference_name(s: Stream, offset: i32, pos: int) -> Result<(u8, Seq<char>), Failure> {
    if offset < 0 {
        Err(Failure::Decode(DecodeError::Offset(offset)))
    } else if pos > u32::MAX {
        Err(Failure::Read(crate::decode::ErrorCode::Position))
    } else {
        match spec_u8(s, offset as int) {
            Err(c) => Err(Failure::Read(c)),
            Ok((tag, p)) => match spec_string(s, p) {
                Err(c) => Err(Failure::Read(c)),
                Ok((name, _)) => if tag == 3 || tag == 4 {
                    Ok((tag, name))
                } else {
                    Err(Failure::Decode(DecodeError::Tag(tag)))
                },
            },
        }
    }
}

/// The content made from a tag (3 for a package, else an image) and its metadata.
pub open spec fn content_ref_of(tag: u8, m: MetadataView) -> ContentRefView {
    if tag == 3 {
        ContentRefView::Package(m)
    } else {
        ContentRefView::Image(m)
    }
}

/// The size, checksum and offset at `pos`, then the position after them.
pub open spec fn spec_params(s: Stream, pos: int) -> Result<(i32, i32, u32, int), Failure> {
    match spec_int32(s, pos) {
        Err(c) => Err(Failure::Read(c)),
        Ok((size, p1)) => match spec_int32(s, p1) {
            Err(c) => Err(Failure::Read(c)),
            Ok((checksum, p2)) => match spec_offset(s, p2) {
                Err(c) => Err(Failure::Read(c)),
                Ok((offset, p3)) => Ok((size, checksum, offset, p3)),
            },
        },
    }
}

/// The content reference at `pos`: a tag, then either a name reference (tag 2, followed by
/// the size, checksum and offset, the name being read where the reference points) or a
/// name (tag 3 for a package, 4 for an image) followed by the size, checksum and offset.
pub open spec fn spec_content_ref(s: Stream, pos: int) -> Result<(ContentRefView, int), Failure> {
    match spec_u8(s, pos) {
        Err(c) => Err(Failure::Read(c)),
        Ok((tag, p1)) => if tag == 2 {
            match spec_i32(s, p1) {
                Err(c) => Err(Failure::Read(c)),
                Ok((off, p2)) => match spec_params(s, p2) {
                    Err(f) => Err(f),
                    Ok((size, checksum, offset, p3)) => match spec_dereference_name(s, off, p3) {
                        Err(f) => Err(f),
                        Ok((t, name)) => Ok(
                            (content_ref_of(t, MetadataView { name, size, checksum, offset }), p3),
                        ),
                    },
                },
            }
        } else if tag == 3 || tag == 4 {
            match spec_string(s, p1) {
                Err(c) => Err(Failure::Read(c)),
                Ok((name, p2)) => match spec_params(s, p2) {
                    Err(f) => Err(f),
                    Ok((size, checksum, offset, p3)) => Ok(
                        (content_ref_of(tag, MetadataView { name, size, checksum, offset }), p3),
                    ),
                },
            }
        } else {
            Err(Failure::Decode(DecodeError::Tag(tag)))
        },
    }
}

/// The encoded bytes of metadata written at `position`, if its offset can be stored.
pub open spec fn spec_metadata_bytes(ctx: EncodeContext, position: int, m: MetadataView) -> Option<Seq<u8>> {
    let head = spec_str_bytes(ctx.key, m.name) + spec_int32_bytes(m.size) + spec_int32_bytes(m.checksum);
    match spec_offset_bytes(ctx, position + head.len(), m.offset) {
        Some(o) => Some(head + o),
        None => None,
    }
}

impl Metadata {
    /// Returns the name
    pub fn name(&self) -> (r: &str)
        ensures
            r@ == self@.name,
    {
        self.name.as_str()
    }

    /// Returns the size
    pub fn size(&self) -> (r: Int32)
        ensures
            r@ == self@.size,
    {
        self.size
    }

    /// Returns the checksum
    pub fn checksum(&self) -> (r: Int32)
        ensures
            r@ == self@.checksum,
    {
        self.checksum
    }

    /// Returns the offset
    pub fn offset(&self) -> (r: Offset)
        ensures
            r@ == self@.offset,
    {
        self.offset
    }

    /// Reads the size, checksum and offset
    fn decode_params(decoder: &mut SliceDecoder) -> (r: Result<(Int32, Int32, Offset), Error>)
        ensures
            final(decoder).stream() == old(decoder).stream(),
            match spec_params(old(decoder).stream(), old(decoder).pos()) {
                Ok((size, checksum, offset, p)) => r matches Ok((a, b, c)) && a@ == size && b@
                    == checksum && c@ == offset && final(decoder).pos() == p,
                Err(f) => r matches Err(e) && crate::error::fails_as(e, f),
            },
    {
        let size = match Int32::decode(decoder) {
            Ok(v) => v,
            Err(e) => return Err(Error::from_read(e)),
        };
        let checksum = match Int32::decode(decoder) {
            Ok(v) => v,
            Err(e) => return Err(Error::from_read(e)),
        };
        let offset = match decoder.decode_offset() {
            Ok(o) => o,
            Err(e) => return Err(Error::from_read(e)),
        };
        Ok((size, checksum, offset))
    }

    /// Reads the tag and name that a name reference at `offset` points to, and comes back
    fn dereference_name(offset: i32, decoder: &mut SliceDecoder) -> (r: Result<(u8, String), Error>)
        ensures
            final(decoder).stream() == old(decoder).stream(),
            match spec_dereference_name(old(decoder).stream(), offset, old(decoder).pos()) {
                Ok((t, n)) => r matches Ok((a, b)) && a == t && b@ == n && final(decoder).pos()
                    == old(decoder).pos(),
                Err(f) => r matches Err(e) && crate::error::fails_as(e, f),
            },
    {
        if offset < 0 {
            // sanity check
            return Err(Error::decode(DecodeError::Offset(offset)));
        }
        // Get current position
        let pos = match decoder.position() {
            Ok(p) => p,
            Err(e) => return Err(Error::from_read(e)),
        };
        // Move to the referenced content
        let _ = decoder.seek(offset as u32);
        // Read the "real" tag and name
        let tag = match decode_u8(decoder) {
            Ok(t) => t,
            Err(e) => return Err(Error::from_read(e)),
        };
        let name = match decode_string(decoder) {
            Ok(n) => n,
            Err(e) => return Err(Error::from_read(e)),
        };
        // Seek back
        let _ = decoder.seek(pos);
        // Sanity check to ensure the tag is valid
        if tag == 3 || tag == 4 {
            Ok((tag, name))
        } else {
            Err(Error::decode(DecodeError::Tag(tag)))
        }
    }
}

impl ContentRef {
    /// Returns the name
    pub fn name(&self) -> (r: &str)
        ensures
            r@ == self@.data().name,
    {
        match self {
            ContentRef::Package(data) => data.name(),
            ContentRef::Image(data) => data.name(),
        }
    }

    /// Returns the size
    pub fn size(&self) -> (r: Int32)
        ensures
            r@ == self@.data().size,
    {
        match self {
            ContentRef::Package(data) => data.size(),
            ContentRef::Image(data) => data.size(),
        }
    }

    /// Returns the checksum
    pub fn checksum(&self) -> (r: Int32)
        ensures
            r@ == self@.data().checksum,
    {
        match self {
            ContentRef::Package(data) => data.checksum(),
            ContentRef::Image(data) => data.checksum(),
        }
    }

    /// Returns the offset
    pub fn offset(&self) -> (r: Offset)
        ensures
            r@ == self@.data().offset,
    {
        match self {
            ContentRef::Package(data) => data.offset(),
            ContentRef::Image(data) => data.offset(),
        }
    }

    /// Decodes a content reference, following a name reference
    pub fn decode(decoder: &mut SliceDecoder) -> (r: Result<Self, Error>)
        ensures
            final(decoder).stream() == old(decoder).stream(),
            reads_as(r, spec_content_ref(old(decoder).stream(), old(decoder).pos()), final(decoder).pos()),
    {
        let tag = match decode_u8(decoder) {
            Ok(t) => t,
            Err(e) => return Err(Error::from_read(e)),
        };
        let (tag, name, size, checksum, offset) = if tag == 2 {
            // A tag of 2 indicates a reference elsewhere, so that duplicate strings are only
            // written once. Read the offset of where the name and "real" tag are located.
            let off = match decode_i32(decoder) {
                Ok(o) => o,
                Err(e) => return Err(Error::from_read(e)),
            };
            // Read the rest while the content is still in the buffer
            let (size, checksum, offset) = match Metadata::decode_params(decoder) {
                Ok(p) => p,
                Err(e) => return Err(e),
            };
            let (tag, name) = match Metadata::dereference_name(off, decoder) {
                Ok(p) => p,
                Err(e) => return Err(e),
            };
            (tag, name, size, checksum, offset)
        } else if tag == 3 || tag == 4 {
            let name = match decode_string(decoder) {
                Ok(n) => n,
                Err(e) => return Err(Error::from_read(e)),
            };
            let (size, checksum, offset) = match Metadata::decode_params(decoder) {
                Ok(p) => p,
                Err(e) => return Err(e),
            };
            (tag, name, size, checksum, offset)
        } else {
            return Err(Error::decode(DecodeError::Tag(tag)));
        };
        let data = Metadata { name, size, checksum, offset };
        if tag == 3 {
            Ok(ContentRef::Package(data))
        } else {
            Ok(ContentRef::Image(data))
        }
    }
}

impl Metadata {
    /// Encodes the name, size, checksum and offset
    pub fn encode<E: Encoder>(&self, encoder: &mut E) -> (r: Result<(), EncodeError>)
        requires
            str_encodable(self@.name),
        ensures
            final(encoder).spec_context() == old(encoder).spec_context(),
            match spec_metadata_bytes(
                old(encoder).spec_context(),
                old(encoder).spec_written().len() as int,
                self@,
            ) {
                Some(b) => r is Ok && final(encoder).spec_written() == old(encoder).spec_written()
                    + b,
                None => r is Err,
            },
    {
        let ghost start = encoder.spec_written();
        let _ = self.name.encode(encoder);
        let _ = self.size.encode(encoder);
        let _ = self.checksum.encode(encoder);
        let ghost head = encoder.spec_written();
        let r = encoder.encode_offset(self.offset);
        proof {
            let h = spec_str_bytes(encoder.spec_context().key, self@.name) + spec_int32_bytes(
                self@.size,
            ) + spec_int32_bytes(self@.checksum);
            assert(head =~= start + h);
        }
        match r {
            Ok(()) => {
                assert(encoder.spec_written() =~= start + spec_metadata_bytes(
                    encoder.spec_context(),
                    start.len() as int,
                    self@,
                )->0);
                Ok(())
            },
            Err(e) => Err(e),
        }
    }
}

impl ContentRef {
    /// Encodes the tag (3 for a package, 4 for an image), then the metadata
    pub fn encode<E: Encoder>(&self, encoder: &mut E) -> (r: Result<(), EncodeError>)
        requires
            str_encodable(self@.data().name),
        ensures
            final(encoder).spec_context() == old(encoder).spec_context(),
            match spec_metadata_bytes(
                old(encoder).spec_context(),
                old(encoder).spec_written().len() + 1int,
                self@.data(),
            ) {
                Some(b) => r is Ok && final(encoder).spec_written() == old(encoder).spec_written()
                    + seq![if self@ is Package { 3u8 } else { 4u8 }] + b,
                None => r is Err,
            },
    {
        match self {
            ContentRef::Package(data) => {
                let _ = 3u8.encode(encoder);
                data.encode(encoder)
            },
            ContentRef::Image(data) => {
                let _ = 4u8.encode(encoder);
                data.encode(encoder)
            },
        }
    }
}

} // verus!
