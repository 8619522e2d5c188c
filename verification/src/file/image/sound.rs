//! Parsed Sound type
//!
//! Sound objects do not always adhere to the size constraint in the Property. Maybe this size is
//! the decoded size? The size should be ignored when parsing this.

use crate::decode::decoder::spec_take;
use crate::decode::{decode_u8, spec_u8, SliceDecoder, Stream};
use crate::encode::{Encode, Encoder, SizeHint};
use crate::error::{fails_as, DecodeError, Error, Failure};
use crate::types::{spec_int32, spec_int32_bytes, spec_int_size, Int32};
use vstd::prelude::*;

verus! {

/// The length of the static part of a sound header
pub const HEADER_LEN: usize = 51;

/// A sound: its duration, its header and its data
#[derive(Debug, PartialEq, Eq)]
pub struct Sound {
    duration: Int32,
    header: Vec<u8>,
    data: Vec<u8>,
}

/// A sound as plain values
pub struct SoundView {
    /// Duration
    pub duration: i32,
    /// Header bytes
    pub header: Seq<u8>,
    /// Sound data
    pub data: Seq<u8>,
}

impl View for Sound {
    type V = SoundView;

    closed spec fn view(&self) -> SoundView {
        SoundView { duration: self.duration@, header: self.header@, data: self.data@ }
    }
}

/// The sound at `pos`: a byte that is skipped, the data length (which must not be
/// negative), the duration, the static header, the length of the format specification and
/// the specification (which complete the header), then the data.
pub open spec fn spec_sound(s: Stream, pos: int) -> Result<(SoundView, int), Failure> {
    match spec_u8(s, pos) {
        Err(c) => Err(Failure::Read(c)),
        Ok((_, p1)) => match spec_int32(s, p1) {
            Err(c) => Err(Failure::Read(c)),
            Ok((data_len, p2)) => if data_len < 0 {
                Err(Failure::Decode(DecodeError::Length(data_len)))
            } else {
                match spec_int32(s, p2) {
                    Err(c) => Err(Failure::Read(c)),
                    Ok((duration, p3)) => match spec_take(s, p3, HEADER_LEN as int) {
                        Err(c) => Err(Failure::Read(c)),
                        Ok((head, p4)) => match spec_u8(s, p4) {
                            Err(c) => Err(Failure::Read(c)),
                            Ok((spec_len, p5)) => match spec_take(s, p5, spec_len as int) {
                                Err(c) => Err(Failure::Read(c)),
                                Ok((format_spec, p6)) => match spec_take(s, p6, data_len as int) {
                                    Err(c) => Err(Failure::Read(c)),
                                    Ok((data, p7)) => Ok(
                                        (
                                            SoundView {
                                                duration,
                                                header: head.push(spec_len) + format_spec,
                                                data,
                                            },
                                            p7,
                                        ),
                                    ),
                                },
                            },
                        },
                    },
                }
            },
        },
    }
}

impl Sound {
    /// Creates a sound
    pub fn new(duration: Int32, header: Vec<u8>, data: Vec<u8>) -> (r: Self)
        ensures
            r@ == (SoundView { duration: duration@, header: header@, data: data@ }),
    {
        Self { duration, header, data }
    }

    /// Returns the duration
    pub fn duration(&self) -> (r: Int32)
        ensures
            r@ == self@.duration,
    {
        self.duration
    }

    /// Returns the header
    pub fn header(&self) -> (r: &[u8])
        ensures
            r@ == self@.header,
    {
        self.header.as_slice()
    }

    /// Returns the data
    pub fn data(&self) -> (r: &[u8])
        ensures
            r@ == self@.data,
    {
        self.data.as_slice()
    }

    /// Decodes a sound
    pub fn decode(decoder: &mut SliceDecoder) -> (r: Result<Self, Error>)
        ensures
            final(decoder).stream() == old(decoder).stream(),
            match spec_sound(old(decoder).stream(), old(decoder).pos()) {
                Ok((v, p)) => r matches Ok(x) && x@ == v && final(decoder).pos() == p,
                Err(f) => r matches Err(e) && fails_as(e, f),
            },
    {
        // garbage byte?
        match decode_u8(decoder) {
            Ok(_) => {},
            Err(e) => return Err(Error::from_read(e)),
        }
        let data_len = match Int32::decode(decoder) {
            Ok(v) => v,
            Err(e) => return Err(Error::from_read(e)),
        };
        if data_len.is_negative() {
            return Err(Error::decode(DecodeError::Length(data_len.0)));
        }
        let data_len = data_len.0 as usize;
        let duration = match Int32::decode(decoder) {
            Ok(v) => v,
            Err(e) => return Err(Error::from_read(e)),
        };
        // Decode static header
        let mut header = match decoder.decode_bytes(HEADER_LEN) {
            Ok(b) => b,
            Err(e) => return Err(Error::from_read(e)),
        };
        // Decode the format specs
        let format_spec_len = match decode_u8(decoder) {
            Ok(v) => v,
            Err(e) => return Err(Error::from_read(e)),
        };
        let mut format_spec = match decoder.decode_bytes(format_spec_len as usize) {
            Ok(b) => b,
            Err(e) => return Err(Error::from_read(e)),
        };
        // Concatenate the header info
        header.push(format_spec_len);
        header.append(&mut format_spec);
        // Decode data
        let data = match decoder.decode_bytes(data_len) {
            Ok(b) => b,
            Err(e) => return Err(Error::from_read(e)),
        };
        Ok(Self { duration, header, data })
    }

    /// Encodes a sound: a zero byte, the data length, the duration, the header and the data
    pub fn encode<E: Encoder>(&self, encoder: &mut E) -> (r: Result<(), crate::encode::Error>)
        requires
            self@.data.len() <= i32::MAX,
        ensures
            r is Ok,
            final(encoder).spec_context() == old(encoder).spec_context(),
            final(encoder).spec_written() == old(encoder).spec_written() + seq![0u8]
                + spec_int32_bytes(self@.data.len() as i32) + spec_int32_bytes(self@.duration)
                + self@.header + self@.data,
    {
        let ghost start = encoder.spec_written();
        let _ = 0u8.encode(encoder);
        let _ = Int32(self.data.len() as i32).encode(encoder);
        let _ = self.duration.encode(encoder);
        let _ = encoder.encode_bytes(self.header.as_slice());
        let _ = encoder.encode_bytes(self.data.as_slice());
        assert(encoder.spec_written() =~= start + seq![0u8] + spec_int32_bytes(
            self@.data.len() as i32,
        ) + spec_int32_bytes(self@.duration) + self@.header + self@.data);
        Ok(())
    }

    /// The encoded size of the sound
    pub fn size_hint(&self) -> (r: u32)
        requires
            self@.data.len() <= i32::MAX,
            1 + spec_int_size(self@.data.len() as int, 4) + spec_int_size(self@.duration as int, 4)
                + self@.header.len() + self@.data.len() <= u32::MAX,
        ensures
            r == 1 + spec_int_size(self@.data.len() as int, 4) + spec_int_size(
                self@.duration as int,
                4,
            ) + self@.header.len() + self@.data.len(),
    {
        let a = Int32(self.data.len() as i32).size_hint();
        let b = self.duration.size_hint();
        (1 + a + b + self.header.len() as u64 + self.data.len() as u64) as u32
    }
}

} // verus!
