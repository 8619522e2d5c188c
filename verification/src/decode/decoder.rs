//! WZ Decoder

use crate::archive::offset::{spec_decode_offset, Offset};
use crate::bytes::u32_at;
use crate::cipher::{spec_crypt, KeyStream};
use crate::decode::error::{Error, ErrorCode};
use vstd::prelude::*;
use vstd::slice::{slice_subrange, slice_to_vec};

verus! {

/// The data a decoder reads: the whole archive (or image) and the values that keys are
/// derived from.
pub struct Stream {
    /// Every byte of the archive
    pub data: Seq<u8>,
    /// Key stream that encrypted strings are XOR-ed with
    pub key: Seq<u8>,
    /// Start of the content (before the root package checksum)
    pub content_start: u32,
    /// Version checksum of the archive
    pub version_checksum: u32,
}

/// Result of reading a value of type `T` at a position: the value and the position after it,
/// or the kind of error.
pub type SpecResult<T> = Result<(T, int), ErrorCode>;

/// The `n` bytes at `pos`, if the data holds them.
pub open spec fn spec_take(s: Stream, pos: int, n: int) -> SpecResult<Seq<u8>> {
    if 0 <= pos && 0 <= n && pos + n <= s.data.len() {
        Ok((s.data.subrange(pos, pos + n), pos + n))
    } else {
        Err(ErrorCode::Io)
    }
}

/// The unsigned 32-bit integer at `pos`.
pub open spec fn spec_u32(s: Stream, pos: int) -> SpecResult<u32> {
    if 0 <= pos && pos + 4 <= s.data.len() {
        Ok((u32_at(s.data, pos), pos + 4))
    } else {
        Err(ErrorCode::Io)
    }
}

/// The offset stored at `pos`: its stored form is decoded with the key of position `pos`.
pub open spec fn spec_offset(s: Stream, pos: int) -> SpecResult<u32> {
    if pos > u32::MAX {
        Err(ErrorCode::Position)
    } else {
        match spec_u32(s, pos) {
            Ok((v, p)) => Ok(
                (spec_decode_offset(v, pos as u32, s.content_start, s.version_checksum), p),
            ),
            Err(e) => Err(e),
        }
    }
}

/// Decoder over an in-memory archive
pub struct SliceDecoder<'a> {
    content_start: u32,
    version_checksum: u32,
    slice: &'a [u8],
    pos: usize,
    decryptor: KeyStream,
}

impl<'a> SliceDecoder<'a> {
    /// What the decoder reads.
    pub closed spec fn stream(&self) -> Stream {
        Stream {
            data: self.slice@,
            key: self.decryptor@,
            content_start: self.content_start,
            version_checksum: self.version_checksum,
        }
    }

    /// The position of the next byte to read.
    pub closed spec fn pos(&self) -> int {
        self.pos as int
    }

    /// Creates a new unencrypted `SliceDecoder`
    pub fn unencrypted(content_start: u32, version_checksum: u32, slice: &'a [u8]) -> (r: Self)
        ensures
            r.stream() == (Stream {
                data: slice@,
                key: Seq::empty(),
                content_start,
                version_checksum,
            }),
            r.pos() == 0,
    {
        Self::new(content_start, version_checksum, slice, KeyStream::dummy())
    }

    /// Creates a new `SliceDecoder`
    pub fn new(content_start: u32, version_checksum: u32, slice: &'a [u8], decryptor: KeyStream) -> (r:
        Self)
        ensures
            r.stream() == (Stream { data: slice@, key: decryptor@, content_start, version_checksum }),
            r.pos() == 0,
    {
        SliceDecoder { content_start, version_checksum, slice, pos: 0, decryptor }
    }

    /// Returns the number of bytes of the data
    pub fn len(&self) -> (r: usize)
        ensures
            r == self.stream().data.len(),
    {
        self.slice.len()
    }

    /// Reads `len` bytes
    pub fn decode_bytes(&mut self, len: usize) -> (r: Result<Vec<u8>, Error>)
        ensures
            final(self).stream() == old(self).stream(),
            match spec_take(old(self).stream(), old(self).pos(), len as int) {
                Ok((b, p)) => r matches Ok(v) && v@ == b && final(self).pos() == p,
                Err(c) => r matches Err(e) && e.spec_code() == c,
            },
    {
        if self.pos <= self.slice.len() && len <= self.slice.len() - self.pos {
            let bytes = slice_to_vec(slice_subrange(self.slice, self.pos, self.pos + len));
            self.pos = self.pos + len;
            Ok(bytes)
        } else {
            Err(Error::io("failed to fill whole buffer"))
        }
    }

    /// Decrypts `bytes` with the key stream
    pub fn decrypt_bytes(&self, bytes: &mut Vec<u8>)
        ensures
            final(bytes)@ == spec_crypt(self.stream().key, old(bytes)@),
    {
        self.decryptor.crypt(bytes)
    }

    /// Position in the stream
    pub fn position(&self) -> (r: Result<u32, Error>)
        ensures
            self.pos() <= u32::MAX ==> r == Ok::<u32, Error>(self.pos() as u32),
            r matches Ok(p) ==> p == self.pos(),
            self.pos() > u32::MAX ==> (r matches Err(e) && e.spec_code() == ErrorCode::Position),
    {
        if self.pos <= 0xffff_ffffusize {
            Ok(self.pos as u32)
        } else {
            Err(Error::position("position is greater than u32::MAX"))
        }
    }

    /// Seeks to `position`
    pub fn seek(&mut self, position: u32) -> (r: Result<(), Error>)
        ensures
            final(self).stream() == old(self).stream(),
            final(self).pos() == position,
            r is Ok,
    {
        self.pos = position as usize;
        Ok(())
    }

    /// Reads an unsigned 32-bit integer
    pub fn decode_u32(&mut self) -> (r: Result<u32, Error>)
        ensures
            final(self).stream() == old(self).stream(),
            match spec_u32(old(self).stream(), old(self).pos()) {
                Ok((v, p)) => r == Ok::<u32, Error>(v) && final(self).pos() == p,
                Err(c) => r matches Err(e) && e.spec_code() == c,
            },
    {
        if self.pos <= self.slice.len() && 4 <= self.slice.len() - self.pos {
            let v = crate::bytes::read_u32_le(self.slice, self.pos);
            self.pos = self.pos + 4;
            Ok(v)
        } else {
            Err(Error::io("failed to fill whole buffer"))
        }
    }

    /// Decodes an offset: its stored form is keyed by the position it is read at
    pub fn decode_offset(&mut self) -> (r: Result<Offset, Error>)
        ensures
            final(self).stream() == old(self).stream(),
            match spec_offset(old(self).stream(), old(self).pos()) {
                Ok((v, p)) => r matches Ok(o) && o@ == v && final(self).pos() == p,
                Err(c) => r matches Err(e) && e.spec_code() == c,
            },
    {
        let position = match self.position() {
            Ok(p) => p,
            Err(e) => return Err(e),
        };
        let value = match self.decode_u32() {
            Ok(v) => v,
            Err(e) => return Err(e),
        };
        Ok(Offset::decode_with(value, position, self.content_start, self.version_checksum))
    }
}

} // verus!
