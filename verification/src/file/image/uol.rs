//! WZ Image UOLs

use crate::decode::decoder::spec_u32;
use crate::decode::{decode_string, decode_u32, decode_u8, spec_string, spec_u8, SliceDecoder, Stream};
use crate::encode::size::spec_str_size_hint;
use crate::encode::{spec_str_bytes, str_encodable, Encode, Encoder, SizeHint};
use crate::error::{fails_as, DecodeError, Error, Failure};
use vstd::prelude::*;

verus! {

/// A deduplicated string: WZ Images use an offset to point to the string value instead of
/// encoding the same string multiple times.
#[derive(Debug, PartialOrd, PartialEq, Ord, Eq)]
pub struct UolString(String);

impl View for UolString {
    type V = Seq<char>;

    closed spec fn view(&self) -> Seq<char> {
        self.0@
    }
}

/// The UOL string at `pos`: a check byte, then the string (0), or the position of the
/// string elsewhere (1), read without moving past the position.
pub open spec fn spec_uol_string(s: Stream, pos: int) -> Result<(Seq<char>, int), Failure> {
    match spec_u8(s, pos) {
        Err(c) => Err(Failure::Read(c)),
        Ok((check, p1)) => if check == 0 {
            match spec_string(s, p1) {
                Err(c) => Err(Failure::Read(c)),
                Ok((v, p2)) => Ok((v, p2)),
            }
        } else if check == 1 {
            match spec_u32(s, p1) {
                Err(c) => Err(Failure::Read(c)),
                Ok((offset, p2)) => if p2 > u32::MAX {
                    Err(Failure::Read(crate::decode::ErrorCode::Position))
                } else {
                    match spec_string(s, offset as int) {
                        Err(c) => Err(Failure::Read(c)),
                        Ok((v, _)) => Ok((v, p2)),
                    }
                },
            }
        } else {
            Err(Failure::Decode(DecodeError::Tag(check)))
        },
    }
}

impl UolString {
    /// Consumes the UolString and returns the inner string
    pub fn into_wz_string(self) -> (r: String)
        ensures
            r@ == self@,
    {
        self.0
    }

    /// A UOL string of `s`
    pub fn from_string(s: String) -> (r: Self)
        ensures
            r@ == s@,
    {
        Self(s)
    }

    /// The string
    pub fn as_str(&self) -> (r: &str)
        ensures
            r@ == self@,
    {
        self.0.as_str()
    }

    /// A copy of the UOL string
    pub fn duplicate(&self) -> (r: Self)
        ensures
            r@ == self@,
    {
        Self(self.0.clone())
    }

    /// Decodes a UOL string
    pub fn decode(decoder: &mut SliceDecoder) -> (r: Result<Self, Error>)
        ensures
            final(decoder).stream() == old(decoder).stream(),
            match spec_uol_string(old(decoder).stream(), old(decoder).pos()) {
                Ok((v, p)) => r matches Ok(x) && x@ == v && final(decoder).pos() == p,
                Err(f) => r matches Err(e) && fails_as(e, f),
            },
    {
        let check = match decode_u8(decoder) {
            Ok(c) => c,
            Err(e) => return Err(Error::from_read(e)),
        };
        if check == 0 {
            match decode_string(decoder) {
                Ok(s) => Ok(Self(s)),
                Err(e) => Err(Error::from_read(e)),
            }
        } else if check == 1 {
            let offset = match decode_u32(decoder) {
                Ok(o) => o,
                Err(e) => return Err(Error::from_read(e)),
            };
            let pos = match decoder.position() {
                Ok(p) => p,
                Err(e) => return Err(Error::from_read(e)),
            };
            let _ = decoder.seek(offset);
            let string = match decode_string(decoder) {
                Ok(s) => s,
                Err(e) => return Err(Error::from_read(e)),
            };
            let _ = decoder.seek(pos);
            Ok(Self(string))
        } else {
            Err(Error::decode(DecodeError::Tag(check)))
        }
    }

    /// Encodes a zero byte, then the string
    pub fn encode<E: Encoder>(&self, encoder: &mut E) -> (r: Result<(), crate::encode::Error>)
        requires
            str_encodable(self@),
        ensures
            r is Ok,
            final(encoder).spec_context() == old(encoder).spec_context(),
            final(encoder).spec_written() == old(encoder).spec_written() + seq![0u8]
                + spec_str_bytes(old(encoder).spec_context().key, self@),
    {
        let ghost start = encoder.spec_written();
        let _ = 0u8.encode(encoder);
        let _ = self.0.encode(encoder);
        assert(encoder.spec_written() =~= start + seq![0u8] + spec_str_bytes(
            encoder.spec_context().key,
            self@,
        ));
        Ok(())
    }

    /// The encoded size
    pub fn size_hint(&self) -> (r: u32)
        requires
            1 + spec_str_size_hint(self@) <= u32::MAX,
        ensures
            r == 1 + spec_str_size_hint(self@),
    {
        (1 + self.0.size_hint()) as u32
    }
}

/// A UOL object: a path of where the "borrowed" content actually resides
#[derive(Debug, PartialOrd, PartialEq, Ord, Eq)]
pub struct UolObject {
    uri: UolString,
}

impl View for UolObject {
    type V = Seq<char>;

    closed spec fn view(&self) -> Seq<char> {
        self.uri@
    }
}

impl UolObject {
    /// Consumes the UolObject and returns the inner string
    pub fn into_wz_string(self) -> (r: String)
        ensures
            r@ == self@,
    {
        self.uri.into_wz_string()
    }

    /// A UOL object of `s`
    pub fn from_string(s: String) -> (r: Self)
        ensures
            r@ == s@,
    {
        Self { uri: UolString::from_string(s) }
    }

    /// Decodes a UOL object: a byte that is skipped, then a UOL string
    pub fn decode(decoder: &mut SliceDecoder) -> (r: Result<Self, Error>)
        ensures
            final(decoder).stream() == old(decoder).stream(),
            match spec_u8(old(decoder).stream(), old(decoder).pos()) {
                Err(c) => r matches Err(e) && fails_as(e, Failure::Read(c)),
                Ok((_, p)) => match spec_uol_string(old(decoder).stream(), p) {
                    Ok((v, p2)) => r matches Ok(x) && x@ == v && final(decoder).pos() == p2,
                    Err(f) => r matches Err(e) && fails_as(e, f),
                },
            },
    {
        match decode_u8(decoder) {
            Ok(_) => {},
            Err(e) => return Err(Error::from_read(e)),
        }
        match UolString::decode(decoder) {
            Ok(uri) => Ok(Self { uri }),
            Err(e) => Err(e),
        }
    }

    /// Encodes a zero byte, the byte 0x73, then the UOL string
    pub fn encode<E: Encoder>(&self, encoder: &mut E) -> (r: Result<(), crate::encode::Error>)
        requires
            str_encodable(self@),
        ensures
            r is Ok,
            final(encoder).spec_context() == old(encoder).spec_context(),
            final(encoder).spec_written() == old(encoder).spec_written() + seq![0u8, 0x73u8, 0u8]
                + spec_str_bytes(old(encoder).spec_context().key, self@),
    {
        let ghost start = encoder.spec_written();
        let _ = 0u8.encode(encoder);
        let _ = 0x73u8.encode(encoder);
        let _ = self.uri.encode(encoder);
        assert(encoder.spec_written() =~= start + seq![0u8, 0x73u8, 0u8] + spec_str_bytes(
            encoder.spec_context().key,
            self@,
        ));
        Ok(())
    }

    /// The encoded size: the two bytes in front of the UOL string, and the UOL string
    pub fn size_hint(&self) -> (r: u32)
        requires
            3 + spec_str_size_hint(self@) <= u32::MAX,
        ensures
            r == 3 + spec_str_size_hint(self@),
    {
        2 + self.uri.size_hint()
    }
}

} // verus!
