//! Entry of a property list in a WZ image

use crate::archive::offset::Offset;
use crate::bytes::{u16_le, u32_le, u64_le};
use crate::decode::decoder::spec_u32;
use crate::decode::{
    decode_f32_bits, decode_f64_bits, decode_i16, decode_u32, decode_u8, spec_f32_bits,
    spec_f64_bits, spec_i16, spec_u8, SliceDecoder, Stream,
};
use crate::encode::size::spec_str_size_hint;
use crate::encode::{spec_str_bytes, str_encodable, Encode, Encoder, SizeHint};
use crate::error::{fails_as, Error, Failure, ImageError};
use crate::file::image::uol::{spec_uol_string, UolString};
use crate::types::{
    is_float_zero, spec_int32, spec_int32_bytes, spec_int64, spec_int64_bytes, spec_int_size,
    F32Bits, F64Bits, Int32, Int64,
};
use vstd::prelude::*;

verus! {

/// Represents the contents of a [`Property`](crate::file::image::raw::Property)
#[derive(Debug)]
pub enum ContentRef {
    /// Primitive Null type
    Null { name: UolString },
    /// Primitive short
    Short { name: UolString, value: i16 },
    /// Primitive int
    Int { name: UolString, value: Int32 },
    /// Primitive WZ-LONG
    Long { name: UolString, value: Int64 },
    /// Primitive float, by its bits
    Float { name: UolString, value: F32Bits },
    /// Primitive double, by its bits
    Double { name: UolString, value: F64Bits },
    /// UOL
    String { name: UolString, value: UolString },
    /// Complex object: its size and where it starts
    Object { name: UolString, size: u32, offset: Offset },
}

/// An entry of a property list as plain values
pub enum ContentRefView {
    /// Null, with its name
    Null(Seq<char>),
    /// Short, with its name and value
    Short(Seq<char>, i16),
    /// Int, with its name and value
    Int(Seq<char>, i32),
    /// Long, with its name and value
    Long(Seq<char>, i64),
    /// Float, with its name and the bits of its value
    Float(Seq<char>, u32),
    /// Double, with its name and the bits of its value
    Double(Seq<char>, u64),
    /// String, with its name and value
    String(Seq<char>, Seq<char>),
    /// Object, with its name, size and position
    Object(Seq<char>, u32, u32),
}

impl ContentRefView {
    /// The name of the entry
    pub open spec fn name(self) -> Seq<char> {
        match self {
            ContentRefView::Null(n) => n,
            ContentRefView::Short(n, _) => n,
            ContentRefView::Int(n, _) => n,
            ContentRefView::Long(n, _) => n,
            ContentRefView::Float(n, _) => n,
            ContentRefView::Double(n, _) => n,
            ContentRefView::String(n, _) => n,
            ContentRefView::Object(n, _, _) => n,
        }
    }
}

impl View for ContentRef {
    type V = ContentRefView;

    open spec fn view(&self) -> ContentRefView {
        match self {
            ContentRef::Null { name } => ContentRefView::Null(name@),
            ContentRef::Short { name, value } => ContentRefView::Short(name@, *value),
            ContentRef::Int { name, value } => ContentRefView::Int(name@, value@),
            ContentRef::Long { name, value } => ContentRefView::Long(name@, value@),
            ContentRef::Float { name, value } => ContentRefView::Float(name@, value@),
            ContentRef::Double { name, value } => ContentRefView::Double(name@, value@),
            ContentRef::String { name, value } => ContentRefView::String(name@, value@),
            ContentRef::Object { name, size, offset } => ContentRefView::Object(
                name@,
                *size,
                offset@,
            ),
        }
    }
}

/// The entry whose name is `name` and whose type tag `tag` is at `pos`, followed by its
/// value: nothing (0), a short (2, 11), a compressed int (3, 19), a compressed long (20), a
/// compressed float (4), a double (5), a UOL string (8), or the size of an object (9) that
/// starts right after the size and is skipped.
pub closed spec fn spec_content_value(s: Stream, name: Seq<char>, pos: int) -> Result<
    (ContentRefView, int),
    Failure,
> {
    match spec_u8(s, pos) {
        Err(c) => Err(Failure::Read(c)),
        Ok((tag, p)) => if tag == 0 {
            Ok((ContentRefView::Null(name), p))
        } else if tag == 2 || tag == 11 {
            match spec_i16(s, p) {
                Err(c) => Err(Failure::Read(c)),
                Ok((v, q)) => Ok((ContentRefView::Short(name, v), q)),
            }
        } else if tag == 3 || tag == 19 {
            match spec_int32(s, p) {
                Err(c) => Err(Failure::Read(c)),
                Ok((v, q)) => Ok((ContentRefView::Int(name, v), q)),
            }
        } else if tag == 20 {
            match spec_int64(s, p) {
                Err(c) => Err(Failure::Read(c)),
                Ok((v, q)) => Ok((ContentRefView::Long(name, v), q)),
            }
        } else if tag == 4 {
            match spec_f32_bits(s, p) {
                Err(c) => Err(Failure::Read(c)),
                Ok((v, q)) => Ok((ContentRefView::Float(name, v), q)),
            }
        } else if tag == 5 {
            match spec_f64_bits(s, p) {
                Err(c) => Err(Failure::Read(c)),
                Ok((v, q)) => Ok((ContentRefView::Double(name, v), q)),
            }
        } else if tag == 8 {
            match spec_uol_string(s, p) {
                Err(f) => Err(f),
                Ok((v, q)) => Ok((ContentRefView::String(name, v), q)),
            }
        } else if tag == 9 {
            match spec_u32(s, p) {
                Err(c) => Err(Failure::Read(c)),
                Ok((size, q)) => if q + size > u32::MAX {
                    Err(Failure::Read(crate::decode::ErrorCode::Position))
                } else {
                    Ok((ContentRefView::Object(name, size, q as u32), q + size))
                },
            }
        } else {
            Err(Failure::Image(ImageError::PropertyType(tag)))
        },
    }
}

/// The entry at `pos`: its name, then its type and value.
pub open spec fn spec_content_ref(s: Stream, pos: int) -> Result<(ContentRefView, int), Failure> {
    match spec_uol_string(s, pos) {
        Err(f) => Err(f),
        Ok((name, p)) => spec_content_value(s, name, p),
    }
}

/// The strings of an entry can be encoded.
pub open spec fn content_ref_encodable(c: ContentRefView) -> bool {
    &&& str_encodable(c.name())
    &&& c matches ContentRefView::String(_, v) ==> str_encodable(v)
}

/// The bytes written for an entry: its name as a UOL string, then its value (a UOL string
/// for a string, the size for an object), without the type tag.
pub open spec fn spec_content_ref_bytes(key: Seq<u8>, c: ContentRefView) -> Seq<u8> {
    seq![0u8] + spec_str_bytes(key, c.name()) + match c {
        ContentRefView::Null(_) => Seq::empty(),
        ContentRefView::Short(_, v) => u16_le(v as u16),
        ContentRefView::Int(_, v) => spec_int32_bytes(v),
        ContentRefView::Long(_, v) => spec_int64_bytes(v),
        ContentRefView::Float(_, b) => if is_float_zero(b) {
            seq![0u8]
        } else {
            seq![0x80u8] + u32_le(b)
        },
        ContentRefView::Double(_, b) => u64_le(b),
        ContentRefView::String(_, v) => seq![0u8] + spec_str_bytes(key, v),
        ContentRefView::Object(_, size, _) => u32_le(size),
    }
}

/// The size hint of an entry: that of its name and that of its value (the size, for an
/// object).
pub open spec fn spec_content_ref_size(c: ContentRefView) -> int {
    1 + spec_str_size_hint(c.name()) + match c {
        ContentRefView::Null(_) => 0,
        ContentRefView::Short(_, _) => 2,
        ContentRefView::Int(_, v) => spec_int_size(v as int, 4),
        ContentRefView::Long(_, v) => spec_int_size(v as int, 8),
        ContentRefView::Float(_, b) => if is_float_zero(b) {
            1
        } else {
            5
        },
        ContentRefView::Double(_, _) => 8,
        ContentRefView::String(_, v) => 1 + spec_str_size_hint(v),
        ContentRefView::Object(_, size, _) => size as int,
    }
}

impl ContentRef {
    /// Decodes the type and value of an entry whose name was read
    fn decode_value(decoder: &mut SliceDecoder, name: UolString) -> (r: Result<Self, Error>)
        ensures
            final(decoder).stream() == old(decoder).stream(),
            match spec_content_value(old(decoder).stream(), name@, old(decoder).pos()) {
                Ok((v, p)) => r matches Ok(x) && x@ == v && final(decoder).pos() == p,
                Err(f) => r matches Err(e) && fails_as(e, f),
            },
    {
        let tag = match decode_u8(decoder) {
            Ok(t) => t,
            Err(e) => return Err(Error::from_read(e)),
        };
        if tag == 0 {
            Ok(ContentRef::Null { name })
        } else if tag == 2 || tag == 11 {
            match decode_i16(decoder) {
                Ok(value) => Ok(ContentRef::Short { name, value }),
                Err(e) => Err(Error::from_read(e)),
            }
        } else if tag == 3 || tag == 19 {
            match Int32::decode(decoder) {
                Ok(value) => Ok(ContentRef::Int { name, value }),
                Err(e) => Err(Error::from_read(e)),
            }
        } else if tag == 20 {
            match Int64::decode(decoder) {
                Ok(value) => Ok(ContentRef::Long { name, value }),
                Err(e) => Err(Error::from_read(e)),
            }
        } else if tag == 4 {
            match decode_f32_bits(decoder) {
                Ok(bits) => Ok(ContentRef::Float { name, value: F32Bits(bits) }),
                Err(e) => Err(Error::from_read(e)),
            }
        } else if tag == 5 {
            match decode_f64_bits(decoder) {
                Ok(bits) => Ok(ContentRef::Double { name, value: F64Bits(bits) }),
                Err(e) => Err(Error::from_read(e)),
            }
        } else if tag == 8 {
            match UolString::decode(decoder) {
                Ok(value) => Ok(ContentRef::String { name, value }),
                Err(e) => Err(e),
            }
        } else if tag == 9 {
            let size = match decode_u32(decoder) {
                Ok(s) => s,
                Err(e) => return Err(Error::from_read(e)),
            };
            let offset = match decoder.position() {
                Ok(p) => p,
                Err(e) => return Err(Error::from_read(e)),
            };
            match offset.checked_add(size) {
                Some(end) => {
                    let _ = decoder.seek(end);
                    Ok(ContentRef::Object { name, size, offset: Offset(offset) })
                },
                None => Err(
                    Error::from_read(
                        crate::decode::Error::position("position is greater than u32::MAX"),
                    ),
                ),
            }
        } else {
            Err(Error::image(ImageError::PropertyType(tag)))
        }
    }

    /// Decodes an entry: its name, then its type and value
    pub fn decode(decoder: &mut SliceDecoder) -> (r: Result<Self, Error>)
        ensures
            final(decoder).stream() == old(decoder).stream(),
            match spec_content_ref(old(decoder).stream(), old(decoder).pos()) {
                Ok((v, p)) => r matches Ok(x) && x@ == v && final(decoder).pos() == p,
                Err(f) => r matches Err(e) && fails_as(e, f),
            },
    {
        let name = match UolString::decode(decoder) {
            Ok(n) => n,
            Err(e) => return Err(e),
        };
        Self::decode_value(decoder, name)
    }

    /// The name of the entry
    pub fn name(&self) -> (r: &UolString)
        ensures
            r@ == self@.name(),
    {
        match self {
            ContentRef::Null { name } => name,
            ContentRef::Short { name, .. } => name,
            ContentRef::Int { name, .. } => name,
            ContentRef::Long { name, .. } => name,
            ContentRef::Float { name, .. } => name,
            ContentRef::Double { name, .. } => name,
            ContentRef::String { name, .. } => name,
            ContentRef::Object { name, .. } => name,
        }
    }

    /// Encodes the name, then the value (a UOL string for a string, the size for an object);
    /// the type tag is not written
    pub fn encode<E: Encoder>(&self, encoder: &mut E) -> (r: Result<(), crate::encode::Error>)
        requires
            content_ref_encodable(self@),
        ensures
            r is Ok,
            final(encoder).spec_context() == old(encoder).spec_context(),
            final(encoder).spec_written() == old(encoder).spec_written() + spec_content_ref_bytes(
                old(encoder).spec_context().key,
                self@,
            ),
    {
        let ghost start = encoder.spec_written();
        let ghost key = encoder.spec_context().key;
        let _ = self.name().encode(encoder);
        let ghost mid = encoder.spec_written();
        assert(mid == start + seq![0u8] + spec_str_bytes(key, self@.name()));
        match self {
            ContentRef::Null { .. } => {
                assert(encoder.spec_written() =~= start + spec_content_ref_bytes(key, self@));
            },
            ContentRef::Short { value, .. } => {
                let _ = value.encode(encoder);
                assert(encoder.spec_written() =~= start + spec_content_ref_bytes(key, self@));
            },
            ContentRef::Int { value, .. } => {
                let _ = value.encode(encoder);
                assert(encoder.spec_written() =~= start + spec_content_ref_bytes(key, self@));
            },
            ContentRef::Long { value, .. } => {
                let _ = value.encode(encoder);
                assert(encoder.spec_written() =~= start + spec_content_ref_bytes(key, self@));
            },
            ContentRef::Float { value, .. } => {
                let _ = value.encode(encoder);
                assert(encoder.spec_written() =~= start + spec_content_ref_bytes(key, self@));
            },
            ContentRef::Double { value, .. } => {
                let _ = value.encode(encoder);
                assert(encoder.spec_written() =~= start + spec_content_ref_bytes(key, self@));
            },
            ContentRef::String { value, .. } => {
                let _ = value.encode(encoder);
                assert(encoder.spec_written() =~= start + spec_content_ref_bytes(key, self@));
            },
            ContentRef::Object { size, .. } => {
                let _ = size.encode(encoder);
                assert(encoder.spec_written() =~= start + spec_content_ref_bytes(key, self@));
            },
        }
        Ok(())
    }

    /// The encoded size of the name and the value (the size, for an object)
    pub fn size_hint(&self) -> (r: u32)
        requires
            spec_content_ref_size(self@) <= u32::MAX,
        ensures
            r == spec_content_ref_size(self@),
    {
        let n = self.name().size_hint();
        let v: u64 = match self {
            ContentRef::Null { .. } => 0,
            ContentRef::Short { value, .. } => value.size_hint(),
            ContentRef::Int { value, .. } => value.size_hint(),
            ContentRef::Long { value, .. } => value.size_hint(),
            ContentRef::Float { value, .. } => value.size_hint(),
            ContentRef::Double { value, .. } => value.size_hint(),
            ContentRef::String { value, .. } => value.size_hint() as u64,
            ContentRef::Object { size, .. } => *size as u64,
        };
        (n as u64 + v) as u32
    }
}


/// What an entry's type tag `s.data[pos]` (read after its name `name`) makes of it: 0 a null;
/// 2 and 11 a short, the two bytes after the tag read least significant first as a signed
/// 16-bit value, reading ending two bytes after the tag; 3 and 19 an int and 20 a long
/// (compressed integers), 4 a float (compressed) and 5 a double, read after the tag; 8 a
/// string (a UOL string); 9 an object, whose 32-bit size follows the tag and whose body,
/// right after the size, is skipped; any other tag is an unknown property type.
pub proof fn lemma_content_value_by_tag(s: Stream, name: Seq<char>, pos: int)
    requires
        0 <= pos < s.data.len(),
    ensures
        ({
            let tag = s.data[pos];
            let p = pos + 1;
            let r = spec_content_value(s, name, pos);
            &&& tag == 0 ==> r == Ok::<(ContentRefView, int), Failure>((ContentRefView::Null(name), p))
            &&& (tag == 2 || tag == 11) && p + 2 <= s.data.len() ==> {
                let raw = s.data[p] as int + 256 * s.data[p + 1] as int;
                &&& r matches Ok((ContentRefView::Short(n, v), q))
                &&& n == name
                &&& q == p + 2
                &&& v as int == if raw >= 0x8000 {
                    raw - 0x10000
                } else {
                    raw
                }
            }
            &&& (tag == 2 || tag == 11) && p + 2 > s.data.len() ==> r is Err
            &&& (tag == 3 || tag == 19) ==> match spec_int32(s, p) {
                Ok((v, q)) => r == Ok::<(ContentRefView, int), Failure>(
                    (ContentRefView::Int(name, v), q),
                ),
                Err(_) => r is Err,
            }
            &&& tag == 20 ==> match spec_int64(s, p) {
                Ok((v, q)) => r == Ok::<(ContentRefView, int), Failure>(
                    (ContentRefView::Long(name, v), q),
                ),
                Err(_) => r is Err,
            }
            &&& tag == 4 ==> match spec_f32_bits(s, p) {
                Ok((v, q)) => r == Ok::<(ContentRefView, int), Failure>(
                    (ContentRefView::Float(name, v), q),
                ),
                Err(_) => r is Err,
            }
            &&& tag == 5 ==> match spec_f64_bits(s, p) {
                Ok((v, q)) => r == Ok::<(ContentRefView, int), Failure>(
                    (ContentRefView::Double(name, v), q),
                ),
                Err(_) => r is Err,
            }
            &&& tag == 8 ==> match spec_uol_string(s, p) {
                Ok((v, q)) => r == Ok::<(ContentRefView, int), Failure>(
                    (ContentRefView::String(name, v), q),
                ),
                Err(f) => r == Err::<(ContentRefView, int), Failure>(f),
            }
            &&& tag == 9 ==> match spec_u32(s, p) {
                Ok((size, q)) => q + size <= u32::MAX ==> r == Ok::<(ContentRefView, int), Failure>(
                    (ContentRefView::Object(name, size, q as u32), q + size),
                ),
                Err(_) => r is Err,
            }
            &&& !(tag == 0 || tag == 2 || tag == 3 || tag == 4 || tag == 5 || tag == 8 || tag == 9
                || tag == 11 || tag == 19 || tag == 20) ==> r == Err::<(ContentRefView, int), Failure>(
                Failure::Image(ImageError::PropertyType(tag)),
            )
        }),
{
    let tag = s.data[pos];
    let p = pos + 1;
    if (tag == 2 || tag == 11) && p + 2 <= s.data.len() {
        crate::bytes::lemma_u16_from_le_value(s.data[p], s.data[p + 1]);
    }
}

} // verus!
