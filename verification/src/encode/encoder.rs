//! WZ Encoder

use crate::archive::offset::{spec_encode_offset, Offset};
use crate::bytes::u32_le;
use crate::cipher::{spec_crypt, KeyStream};
use crate::encode::error::{Error, ErrorCode};
use vstd::prelude::*;

verus! {

/// What an encoder derives keys from.
pub struct EncodeContext {
    /// Key stream that strings are XOR-ed with
    pub key: Seq<u8>,
    /// Start of the content (before the root package checksum)
    pub content_start: u32,
    /// Version checksum of the archive
    pub version_checksum: u32,
}

/// The bytes of `offset` stored at `position`, if the position fits in 32 bits.
pub open spec fn spec_offset_bytes(ctx: EncodeContext, position: int, offset: u32) -> Option<
    Seq<u8>,
> {
    if 0 <= position <= u32::MAX {
        Some(
            u32_le(
                spec_encode_offset(offset, position as u32, ctx.content_start, ctx.version_checksum),
            ),
        )
    } else {
        None
    }
}

/// WZ Encoder Trait
pub trait Encoder {
    /// The bytes written so far; the position of the encoder is their number.
    spec fn spec_written(&self) -> Seq<u8>;

    /// What the encoder derives keys from.
    spec fn spec_context(&self) -> EncodeContext;

    /// Writes the bytes
    fn encode_bytes(&mut self, bytes: &[u8]) -> (r: Result<(), Error>)
        ensures
            r is Ok,
            final(self).spec_written() == old(self).spec_written() + bytes@,
            final(self).spec_context() == old(self).spec_context(),
    ;

    /// Encrypts the bytes with the key stream
    fn encrypt_bytes(&self, bytes: &mut Vec<u8>)
        ensures
            final(bytes)@ == spec_crypt(self.spec_context().key, old(bytes)@),
    ;

    /// Position in stream
    fn position(&self) -> (r: Result<u32, Error>)
        ensures
            self.spec_written().len() <= u32::MAX ==> r == Ok::<u32, Error>(
                self.spec_written().len() as u32,
            ),
            self.spec_written().len() > u32::MAX ==> (r matches Err(e) && e.spec_code()
                == ErrorCode::Position),
    ;

    /// Encode offset
    fn encode_offset(&mut self, offset: Offset) -> (r: Result<(), Error>)
        ensures
            final(self).spec_context() == old(self).spec_context(),
            match spec_offset_bytes(old(self).spec_context(), old(self).spec_written().len() as int, offset@) {
                Some(b) => r is Ok && final(self).spec_written() == old(self).spec_written() + b,
                None => r matches Err(e) && e.spec_code() == ErrorCode::Position,
            },
    ;
}

/// Encodes to a `Vec`
pub struct VecEncoder {
    content_start: u32,
    version_checksum: u32,
    cursor: Vec<u8>,
    encryptor: KeyStream,
}

impl VecEncoder {
    /// Creates a new unencrypted `VecEncoder`
    pub fn unencrypted(content_start: u32, version_checksum: u32) -> (r: Self)
        ensures
            r.spec_written() == Seq::<u8>::empty(),
            r.spec_context() == (EncodeContext {
                key: Seq::empty(),
                content_start,
                version_checksum,
            }),
    {
        Self::new(content_start, version_checksum, KeyStream::dummy())
    }

    /// Creates a new `VecEncoder`
    pub fn new(content_start: u32, version_checksum: u32, encryptor: KeyStream) -> (r: Self)
        ensures
            r.spec_written() == Seq::<u8>::empty(),
            r.spec_context() == (EncodeContext {
                key: encryptor@,
                content_start,
                version_checksum,
            }),
    {
        VecEncoder { content_start, version_checksum, cursor: Vec::new(), encryptor }
    }

    /// Returns a reference to the written bytes
    pub fn as_slice(&self) -> (r: &[u8])
        ensures
            r@ == self.spec_written(),
    {
        self.cursor.as_slice()
    }

    /// Clones the written bytes
    pub fn to_vec(&self) -> (r: Vec<u8>)
        ensures
            r@ == self.spec_written(),
    {
        vstd::slice::slice_to_vec(self.as_slice())
    }

    /// Consumes itself and returns the written bytes
    pub fn into_vec(self) -> (r: Vec<u8>)
        ensures
            r@ == self.spec_written(),
    {
        self.cursor
    }
}

impl Encoder for VecEncoder {
    closed spec fn spec_written(&self) -> Seq<u8> {
        self.cursor@
    }

    closed spec fn spec_context(&self) -> EncodeContext {
        EncodeContext {
            key: self.encryptor@,
            content_start: self.content_start,
            version_checksum: self.version_checksum,
        }
    }

    fn encode_bytes(&mut self, bytes: &[u8]) -> (r: Result<(), Error>) {
        self.cursor.extend_from_slice(bytes);
        Ok(())
    }

    fn encrypt_bytes(&self, bytes: &mut Vec<u8>) {
        self.encryptor.crypt(bytes)
    }

    fn position(&self) -> (r: Result<u32, Error>) {
        if self.cursor.len() <= 0xffff_ffffusize {
            Ok(self.cursor.len() as u32)
        } else {
            Err(Error::position("position is greater than u32::MAX"))
        }
    }

    fn encode_offset(&mut self, offset: Offset) -> (r: Result<(), Error>) {
        let position = match self.position() {
            Ok(p) => p,
            Err(e) => return Err(e),
        };
        let stored = offset.encode_with(position, self.content_start, self.version_checksum);
        let mut buf: Vec<u8> = Vec::new();
        crate::bytes::push_u32_le(&mut buf, stored);
        self.cursor.extend_from_slice(buf.as_slice());
        Ok(())
    }
}

} // verus!
