//! Parsed Vector type

use crate::decode::{SliceDecoder, Stream};
use crate::encode::{Encode, Encoder, SizeHint};
use crate::error::{fails_as, Error, Failure};
use crate::types::{spec_int32, spec_int32_bytes, spec_int_size, Int32};
use vstd::prelude::*;

verus! {

/// A two-dimensional vector of compressed integers
#[derive(Debug, Copy, Clone, PartialEq, Eq)]
pub struct Vector {
    x: Int32,
    y: Int32,
}

impl View for Vector {
    type V = (i32, i32);

    closed spec fn view(&self) -> (i32, i32) {
        (self.x@, self.y@)
    }
}

/// The vector at `pos`: its two coordinates.
pub open spec fn spec_vector(s: Stream, pos: int) -> Result<((i32, i32), int), Failure> {
    match spec_int32(s, pos) {
        Err(c) => Err(Failure::Read(c)),
        Ok((x, p1)) => match spec_int32(s, p1) {
            Err(c) => Err(Failure::Read(c)),
            Ok((y, p2)) => Ok(((x, y), p2)),
        },
    }
}

impl Vector {
    /// Creates a vector
    pub fn new(x: Int32, y: Int32) -> (r: Self)
        ensures
            r@ == (x@, y@),
    {
        Self { x, y }
    }

    /// Decodes a vector
    pub fn decode(decoder: &mut SliceDecoder) -> (r: Result<Self, Error>)
        ensures
            final(decoder).stream() == old(decoder).stream(),
            match spec_vector(old(decoder).stream(), old(decoder).pos()) {
                Ok((v, p)) => r matches Ok(x) && x@ == v && final(decoder).pos() == p,
                Err(f) => r matches Err(e) && fails_as(e, f),
            },
    {
        let x = match Int32::decode(decoder) {
            Ok(v) => v,
            Err(e) => return Err(Error::from_read(e)),
        };
        let y = match Int32::decode(decoder) {
            Ok(v) => v,
            Err(e) => return Err(Error::from_read(e)),
        };
        Ok(Self { x, y })
    }

    /// Encodes the two coordinates
    pub fn encode<E: Encoder>(&self, encoder: &mut E) -> (r: Result<(), crate::encode::Error>)
        ensures
            r is Ok,
            final(encoder).spec_context() == old(encoder).spec_context(),
            final(encoder).spec_written() == old(encoder).spec_written() + spec_int32_bytes(self@.0)
                + spec_int32_bytes(self@.1),
    {
        let ghost start = encoder.spec_written();
        let _ = self.x.encode(encoder);
        let _ = self.y.encode(encoder);
        assert(encoder.spec_written() =~= start + spec_int32_bytes(self@.0) + spec_int32_bytes(
            self@.1,
        ));
        Ok(())
    }

    /// The encoded size
    pub fn size_hint(&self) -> (r: u32)
        ensures
            r == spec_int_size(self@.0 as int, 4) + spec_int_size(self@.1 as int, 4),
    {
        (self.x.size_hint() + self.y.size_hint()) as u32
    }
}

} // verus!
