//! WZ File Content

use crate::archive::offset::Offset;
use crate::decode::{decode_i32, decode_string, decode_u8, spec_i32, spec_string, spec_u8, SliceDecoder, Stream};
use crate::encode::encoder::spec_offset_bytes;
use crate::encode::size::spec_str_size_hint;
use crate::encode::{spec_str_bytes, str_encodable, EncodeContext, Encode, Encoder, Error as EncodeError, SizeHint};
use crate::error::{fails_as, reads_as, DecodeError, Error, Failure};
use crate::file::package::content::spec_params;
use crate::types::{spec_int32_bytes, spec_int_size, Int32};
use vstd::prelude::*;

verus! {

/// Info describing the known [`Content`]
#[derive(Debug, PartialEq, Eq)]
pub struct Params {
    /// Size of the [`Content`]
    pub(crate) size: Int32,
    /// Checksum of the [`Content`]: 0 for a package, the sum of every byte for an image.
    pub(crate) checksum: Int32,
    /// Position of the [`Content`] data in the WZ file
    pub(crate) offset: Offset,
}

/// Parameters as plain values: size, checksum and offset.
pub struct ParamsView {
    /// Size
    pub size: i32,
    /// Checksum
    pub checksum: i32,
    /// Offset
    pub offset: u32,
}

impl View for Params {
    type V = ParamsView;

    closed spec fn view(&self) -> ParamsView {
        ParamsView { size: self.size@, checksum: self.checksum@, offset: self.offset@ }
    }
}

/// The size hint of parameters: the compressed size and checksum, and the 4 bytes of the
/// offset.
pub open spec fn spec_params_size(p: ParamsView) -> int {
    spec_int_size(p.size as int, 4) + spec_int_size(p.checksum as int, 4) + 4
}

/// The encoded bytes of parameters written at `position`, if the offset can be stored.
pub open spec fn spec_params_bytes(ctx: EncodeContext, position: int, p: ParamsView) -> Option<Seq<u8>> {
    let head = spec_int32_bytes(p.size) + spec_int32_bytes(p.checksum);
    match spec_offset_bytes(ctx, position + head.len(), p.offset) {
        Some(o) => Some(head + o),
        None => None,
    }
}

impl Params {
    /// Returns the size
    pub fn size(&self) -> (r: Int32)
        ensures
            r@ == self@.size,
    {
        self.size
    }

    /// Returns the checksum
    pub fn checksum(&self) -> (r: Int32)
        ensures
            r@ == self@.checksum,
    {
        self.checksum
    }

    /// Returns the offset
    pub fn offset(&self) -> (r: Offset)
        ensures
            r@ == self@.offset,
    {
        self.offset
    }

    /// Decodes the size, checksum and offset
    pub fn decode(decoder: &mut SliceDecoder) -> (r: Result<Self, Error>)
        ensures
            final(decoder).stream() == old(decoder).stream(),
            match spec_params(old(decoder).stream(), old(decoder).pos()) {
                Ok((size, checksum, offset, p)) => r matches Ok(x) && x@ == (ParamsView {
                    size,
                    checksum,
                    offset,
                }) && final(decoder).pos() == p,
                Err(f) => r matches Err(e) && fails_as(e, f),
            },
    {
        let size = match Int32::decode(decoder) {
            Ok(v) => v,
            Err(e) => return Err(Error::from_read(e)),
        };
        let checksum = match Int32::decode(decoder) {
            Ok(v) => v,
            Err(e) => return Err(Error::from_read(e)),
        };
        let offset = match decoder.decode_offset() {
            Ok(o) => o,
            Err(e) => return Err(Error::from_read(e)),
        };
        Ok(Params { size, checksum, offset })
    }

    /// Encodes the size, checksum and offset
    pub fn encode<E: Encoder>(&self, encoder: &mut E) -> (r: Result<(), EncodeError>)
        ensures
            final(encoder).spec_context() == old(encoder).spec_context(),
            match spec_params_bytes(
                old(encoder).spec_context(),
                old(encoder).spec_written().len() as int,
                self@,
            ) {
                Some(b) => r is Ok && final(encoder).spec_written() == old(encoder).spec_written()
                    + b,
                None => r is Err,
            },
    {
        let ghost start = encoder.spec_written();
        let _ = self.size.encode(encoder);
        let _ = self.checksum.encode(encoder);
        let ghost head = encoder.spec_written();
        let r = encoder.encode_offset(self.offset);
        assert(head =~= start + spec_int32_bytes(self@.size) + spec_int32_bytes(self@.checksum));
        match r {
            Ok(()) => {
                assert(encoder.spec_written() =~= start + spec_params_bytes(
                    encoder.spec_context(),
                    start.len() as int,
                    self@,
                )->0);
                Ok(())
            },
            Err(e) => Err(e),
        }
    }

    /// The encoded size
    pub fn size_hint(&self) -> (r: Int32)
        ensures
            r@ == spec_params_size(self@),
    {
        let n = self.size.size_hint() + self.checksum.size_hint() + 4;
        Int32(n as i32)
    }
}

/// `Content` found in WZ files
#[derive(Debug, PartialEq, Eq)]
pub enum Content {
    /// Package contains `name`, [`Params`] and `num_contents`.
    ///
    /// `num_contents` is maintained for re-serialization
    Package(String, Params, Int32),
    /// Image contains `name` and [`Params`]--treated as a binary blob
    Image(String, Params),
}

/// Content as plain values.
pub enum ContentView {
    /// Package: name, parameters and number of contents
    Package(Seq<char>, ParamsView, i32),
    /// Image: name and parameters
    Image(Seq<char>, ParamsView),
}

impl View for Content {
    type V = ContentView;

    open spec fn view(&self) -> ContentView {
        match self {
            Content::Package(n, p, c) => ContentView::Package(n@, p@, c@),
            Content::Image(n, p) => ContentView::Image(n@, p@),
        }
    }
}

/// The content at `pos`: a tag, then either a name reference (tag 2: the position of the
/// real tag and name, which must not be negative, then the parameters) or a name and the
/// parameters. The tag, read where the reference points for tag 2, must be 3 (a package,
/// whose number of contents is not known yet) or 4 (an image).
pub open spec fn spec_file_content(s: Stream, pos: int) -> Result<(ContentView, int), Failure> {
    match spec_u8(s, pos) {
        Err(c) => Err(Failure::Read(c)),
        Ok((tag, p1)) => {
            let read: Result<(u8, Seq<char>, (i32, i32, u32), int), Failure> = if tag == 2 {
                match spec_i32(s, p1) {
                    Err(c) => Err(Failure::Read(c)),
                    Ok((off, p2)) => if off < 0 {
                        Err(Failure::Decode(DecodeError::Offset(off)))
                    } else {
                        match spec_params(s, p2) {
                            Err(f) => Err(f),
                            Ok((size, checksum, offset, p3)) => if p3 > u32::MAX {
                                Err(Failure::Read(crate::decode::ErrorCode::Position))
                            } else {
                                match spec_u8(s, off as int) {
                                    Err(c) => Err(Failure::Read(c)),
                                    Ok((t, p4)) => match spec_string(s, p4) {
                                        Err(c) => Err(Failure::Read(c)),
                                        Ok((name, _)) => Ok((t, name, (size, checksum, offset), p3)),
                                    },
                                }
                            },
                        }
                    },
                }
            } else if tag == 3 || tag == 4 {
                match spec_string(s, p1) {
                    Err(c) => Err(Failure::Read(c)),
                    Ok((name, p2)) => match spec_params(s, p2) {
                        Err(f) => Err(f),
                        Ok((size, checksum, offset, p3)) => Ok((tag, name, (size, checksum, offset), p3)),
                    },
                }
            } else {
                Err(Failure::Decode(DecodeError::Tag(tag)))
            };
            match read {
                Err(f) => Err(f),
                Ok((t, name, (size, checksum, offset), p)) => {
                    let params = ParamsView { size, checksum, offset };
                    if t == 3 {
                        Ok((ContentView::Package(name, params, 0), p))
                    } else if t == 4 {
                        Ok((ContentView::Image(name, params), p))
                    } else {
                        Err(Failure::Decode(DecodeError::Tag(t)))
                    }
                },
            }
        },
    }
}

/// The encoded bytes of content written at `position`: its name, its tag, then its
/// parameters.
pub open spec fn spec_file_content_bytes(ctx: EncodeContext, position: int, c: ContentView) -> Option<Seq<u8>> {
    let (name, tag, params) = match c {
        ContentView::Package(n, p, _) => (n, 3u8, p),
        ContentView::Image(n, p) => (n, 4u8, p),
    };
    let head = spec_str_bytes(ctx.key, name) + seq![tag];
    match spec_params_bytes(ctx, position + head.len(), params) {
        Some(b) => Some(head + b),
        None => None,
    }
}

/// The size hint of content: the tag, name and parameters (and the number of contents of a
/// package), plus the size of the content itself.
pub open spec fn spec_file_content_size(c: ContentView) -> int {
    match c {
        ContentView::Package(n, p, num) => 1 + spec_str_size_hint(n) + spec_params_size(p) + spec_int_size(
            num as int,
            4,
        ) + p.size,
        ContentView::Image(n, p) => 1 + spec_str_size_hint(n) + spec_params_size(p) + p.size,
    }
}

/// The sum of `sizes`.
pub open spec fn sum_sizes(sizes: Seq<Int32>) -> int
    decreases sizes.len(),
{
    if sizes.len() == 0 {
        0
    } else {
        sum_sizes(sizes.drop_last()) + sizes.last()@
    }
}

impl Content {
    /// Decodes content, following a name reference
    pub fn decode(decoder: &mut SliceDecoder) -> (r: Result<Self, Error>)
        ensures
            final(decoder).stream() == old(decoder).stream(),
            reads_as(r, spec_file_content(old(decoder).stream(), old(decoder).pos()), final(decoder).pos()),
    {
        let tag = match decode_u8(decoder) {
            Ok(t) => t,
            Err(e) => return Err(Error::from_read(e)),
        };
        let (tag, name, params) = if tag == 2 {
            // A tag of 2 indicates a reference elsewhere, so that duplicate strings are only
            // written once. Read the offset of where the name and "real" tag are located.
            let off = match decode_i32(decoder) {
                Ok(o) => o,
                Err(e) => return Err(Error::from_read(e)),
            };
            if off < 0 {
                // sanity check
                return Err(Error::decode(DecodeError::Offset(off)));
            }
            // Read the parameters while the content is still in the buffer
            let params = match Params::decode(decoder) {
                Ok(p) => p,
                Err(e) => return Err(e),
            };
            // Store the current location
            let pos = match decoder.position() {
                Ok(p) => p,
                Err(e) => return Err(Error::from_read(e)),
            };
            // Move to the referenced content
            let _ = decoder.seek(off as u32);
            // Read the "real" tag and name
            let tag = match decode_u8(decoder) {
                Ok(t) => t,
                Err(e) => return Err(Error::from_read(e)),
            };
            let name = match decode_string(decoder) {
                Ok(n) => n,
                Err(e) => return Err(Error::from_read(e)),
            };
            // Seek back
            let _ = decoder.seek(pos);
            (tag, name, params)
        } else if tag == 3 || tag == 4 {
            let name = match decode_string(decoder) {
                Ok(n) => n,
                Err(e) => return Err(Error::from_read(e)),
            };
            let params = match Params::decode(decoder) {
                Ok(p) => p,
                Err(e) => return Err(e),
            };
            (tag, name, params)
        } else {
            return Err(Error::decode(DecodeError::Tag(tag)));
        };
        if tag == 3 {
            Ok(Content::Package(name, params, Int32(0)))
        } else if tag == 4 {
            Ok(Content::Image(name, params))
        } else {
            Err(Error::decode(DecodeError::Tag(tag)))
        }
    }

    /// Encodes the name, the tag, then the parameters
    pub fn encode<E: Encoder>(&self, encoder: &mut E) -> (r: Result<(), EncodeError>)
        requires
            str_encodable(
                match self@ {
                    ContentView::Package(n, _, _) => n,
                    ContentView::Image(n, _) => n,
                },
            ),
        ensures
            final(encoder).spec_context() == old(encoder).spec_context(),
            match spec_file_content_bytes(
                old(encoder).spec_context(),
                old(encoder).spec_written().len() as int,
                self@,
            ) {
                Some(b) => r is Ok && final(encoder).spec_written() == old(encoder).spec_written()
                    + b,
                None => r is Err,
            },
    {
        let ghost start = encoder.spec_written();
        let (name, tag, params) = match self {
            Content::Package(name, params, _) => (name, 3u8, params),
            Content::Image(name, params) => (name, 4u8, params),
        };
        let _ = name.encode(encoder);
        let _ = tag.encode(encoder);
        let ghost head = encoder.spec_written();
        assert(head =~= start + spec_str_bytes(encoder.spec_context().key, name@) + seq![tag]);
        let r = params.encode(encoder);
        match r {
            Ok(()) => {
                assert(encoder.spec_written() =~= start + spec_file_content_bytes(
                    encoder.spec_context(),
                    start.len() as int,
                    self@,
                )->0);
                Ok(())
            },
            Err(e) => Err(e),
        }
    }

    /// Renames a package and sets its size to the sum of the sizes of its children and its
    /// number of contents to their number. An image keeps its name: the name it is given
    /// back is its own.
    pub fn update(&mut self, name: &String, children_sizes: &[Int32])
        requires
            i32::MIN <= sum_sizes(children_sizes@) <= i32::MAX,
            forall|i: int| 0 <= i <= children_sizes@.len() ==> i32::MIN <= #[trigger] sum_sizes(
                children_sizes@.subrange(0, i),
            ) <= i32::MAX,
        ensures
            match *old(self) {
                Content::Package(_, p, _) => final(self)@ == ContentView::Package(
                    name@,
                    ParamsView { size: sum_sizes(children_sizes@) as i32, ..p@ },
                    children_sizes@.len() as u32 as i32,
                ),
                Content::Image(_, _) => final(self)@ == old(self)@,
            },
    {
        let mut total: i32 = 0;
        let mut i: usize = 0;
        while i < children_sizes.len()
            invariant
                i <= children_sizes@.len(),
                total == sum_sizes(children_sizes@.subrange(0, i as int)),
                forall|k: int| 0 <= k <= children_sizes@.len() ==> i32::MIN <= #[trigger] sum_sizes(
                    children_sizes@.subrange(0, k),
                ) <= i32::MAX,
            decreases children_sizes@.len() - i,
        {
            assert(children_sizes@.subrange(0, i + 1).drop_last() =~= children_sizes@.subrange(
                0,
                i as int,
            ));
            assert(sum_sizes(children_sizes@.subrange(0, i + 1)) == total + children_sizes@[i as int]@);
            total = total + children_sizes[i].0;
            i = i + 1;
        }
        assert(children_sizes@.subrange(0, i as int) =~= children_sizes@);
        match self {
            Content::Package(current_name, params, num_content) => {
                *current_name = name.clone();
                params.size = Int32(total);
                *num_content = Int32(children_sizes.len() as u32 as i32);
            },
            Content::Image(_, _) => {},
        }
    }

    /// The encoded size of the content with its data
    pub fn size_hint(&self) -> (r: Int32)
        requires
            spec_file_content_size(self@) <= i32::MAX,
        ensures
            r@ == spec_file_content_size(self@),
    {
        match self {
            Content::Package(name, params, num_content) => {
                let a = name.size_hint();
                let b = params.size_hint();
                let c = num_content.size_hint();
                proof {
                    assert(a == spec_str_size_hint(name@));
                }
                let n = 1 + a as i64 + b.0 as i64 + c as i64 + params.size.0 as i64;
                Int32(n as i32)
            },
            Content::Image(name, params) => {
                let a = name.size_hint();
                let b = params.size_hint();
                let n = 1 + a as i64 + b.0 as i64 + params.size.0 as i64;
                Int32(n as i32)
            },
        }
    }
}

} // verus!
