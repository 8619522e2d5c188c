//! WZ Archive Writer

use crate::archive::builder::Image;
use crate::archive::error::{Error, ErrorCode};
use crate::archive::header::{default_description, pkg1, spec_header_bytes, Header, HeaderView};
use crate::archive::offset::Offset;
use crate::archive::package::content::{spec_content_bytes, Content};
use crate::cipher::{checksum, spec_version_checksum, spec_version_hash, KeyStream};
use crate::encode::encoder::spec_offset_bytes;
use crate::encode::{Encode, EncodeContext, Encoder, Error as EncodeError, VecEncoder};
use vstd::prelude::*;

verus! {

/// The bytes that writing image `img` adds: its first `size` bytes; `None` when they cannot
/// be read or are fewer.
pub open spec fn spec_image_data<I: Image>(img: I) -> Option<Seq<u8>> {
    match img.spec_bytes() {
        None => None,
        Some(b) => if b.len() < img.spec_size() {
            None
        } else {
            Some(b.take(img.spec_size() as int))
        },
    }
}

/// WZ Archive Writer structure: the header and the bytes of the archive written so far
/// (which the caller stores where it wants)
pub struct Writer {
    /// The WZ archive header
    pub header: Header,
    encoder: VecEncoder,
}

impl Writer {
    /// The header
    pub closed spec fn header_view(&self) -> HeaderView {
        self.header@
    }

    /// Opens an unencrypted WZ writer
    pub fn unencrypted(version: u16) -> (r: Self)
        ensures
            r.header_view() == (HeaderView {
                identifier: pkg1(),
                size: 0,
                content_start: 60,
                description: default_description(),
                version_hash: spec_version_hash(spec_version_checksum(version)),
            }),
            r.spec_written() == Seq::<u8>::empty(),
            r.spec_context() == (EncodeContext {
                key: Seq::empty(),
                content_start: 60,
                version_checksum: spec_version_checksum(version),
            }),
    {
        Writer::new(KeyStream::dummy(), version)
    }

    /// Opens a WZ writer: a new header for `version`, nothing written yet
    pub fn new(encryptor: KeyStream, version: u16) -> (r: Self)
        ensures
            r.header_view() == (HeaderView {
                identifier: pkg1(),
                size: 0,
                content_start: 60,
                description: default_description(),
                version_hash: spec_version_hash(spec_version_checksum(version)),
            }),
            r.spec_written() == Seq::<u8>::empty(),
            r.spec_context() == (EncodeContext {
                key: encryptor@,
                content_start: 60,
                version_checksum: spec_version_checksum(version),
            }),
    {
        let header = Header::new(version);
        let (_, version_checksum) = checksum(version);
        let encoder = VecEncoder::new(header.content_start, version_checksum, encryptor);
        Self { header, encoder }
    }

    /// Returns the header
    pub fn header(&self) -> (r: &Header)
        ensures
            r@ == self.header_view(),
    {
        &self.header
    }

    /// Sets the size that the header holds
    pub fn set_size(&mut self, size: u64)
        ensures
            final(self).header_view() == (HeaderView { size, ..old(self).header_view() }),
            final(self).spec_written() == old(self).spec_written(),
            final(self).spec_context() == old(self).spec_context(),
    {
        self.header.size = size;
    }

    /// Encodes a value
    pub fn encode_value<T: Encode>(&mut self, value: &T) -> (r: Result<(), T::Error>)
        requires
            value.spec_encodable(),
        ensures
            final(self).header_view() == old(self).header_view(),
            final(self).spec_context() == old(self).spec_context(),
            match value.spec_encode(old(self).spec_context(), old(self).spec_written().len() as int) {
                Some(b) => r is Ok && final(self).spec_written() == old(self).spec_written() + b,
                None => r is Err,
            },
    {
        value.encode(&mut self.encoder)
    }

    /// Encodes the entry of a content
    pub fn encode_content(&mut self, content: &Content) -> (r: Result<(), Error>)
        requires
            content.spec_encodable(),
        ensures
            final(self).header_view() == old(self).header_view(),
            final(self).spec_context() == old(self).spec_context(),
            match spec_content_bytes(old(self).spec_context(), old(self).spec_written().len() as int, content@) {
                Some(b) => r is Ok && final(self).spec_written() == old(self).spec_written() + b,
                None => r matches Err(e) && e.spec_code() == ErrorCode::Encode,
            },
    {
        content.encode(&mut self.encoder)
    }

    /// Write the header
    pub fn write_header(&mut self) -> (r: Result<(), Error>)
        ensures
            r is Ok,
            final(self).header_view() == old(self).header_view(),
            final(self).spec_context() == old(self).spec_context(),
            final(self).spec_written() == old(self).spec_written() + spec_header_bytes(
                old(self).header_view(),
            ),
    {
        let mut bytes: Vec<u8> = Vec::new();
        let _ = self.header.to_write(&mut bytes);
        let _ = self.encoder.encode_bytes(bytes.as_slice());
        Ok(())
    }

    /// Copies the bytes of an image. Where it has fewer than its size, they are all copied
    /// and an I/O error is returned.
    pub fn write_image<I: Image>(&mut self, image: &I) -> (r: Result<(), Error>)
        ensures
            final(self).header_view() == old(self).header_view(),
            final(self).spec_context() == old(self).spec_context(),
            match spec_image_data(*image) {
                Some(b) => r is Ok && final(self).spec_written() == old(self).spec_written() + b,
                None => (r matches Err(e) && e.spec_code() == ErrorCode::Io)
                    && final(self).spec_written() == old(self).spec_written() + match image.spec_bytes() {
                    Some(b) => b,
                    None => Seq::<u8>::empty(),
                },
            },
    {
        let data = match image.to_bytes() {
            Ok(d) => d,
            Err(e) => {
                assert(self.spec_written() =~= old(self).spec_written() + Seq::<u8>::empty());
                return Err(Error::io(e.as_str()));
            },
        };
        let size = image.size();
        if (data.len() as u64) < size {
            let _ = self.encoder.encode_bytes(data.as_slice());
            return Err(Error::io("unexpected end of file"));
        }
        let part = vstd::slice::slice_subrange(data.as_slice(), 0, size as usize);
        let _ = self.encoder.encode_bytes(part);
        assert(part@ =~= data@.take(size as int));
        Ok(())
    }

    /// The bytes written so far
    pub fn as_slice(&self) -> (r: &[u8])
        ensures
            r@ == self.spec_written(),
    {
        self.encoder.as_slice()
    }
}

impl Encoder for Writer {
    closed spec fn spec_written(&self) -> Seq<u8> {
        self.encoder.spec_written()
    }

    closed spec fn spec_context(&self) -> EncodeContext {
        self.encoder.spec_context()
    }

    fn encode_bytes(&mut self, bytes: &[u8]) -> (r: Result<(), EncodeError>) {
        self.encoder.encode_bytes(bytes)
    }

    fn encrypt_bytes(&self, bytes: &mut Vec<u8>) {
        self.encoder.encrypt_bytes(bytes)
    }

    fn position(&self) -> (r: Result<u32, EncodeError>) {
        self.encoder.position()
    }

    fn encode_offset(&mut self, offset: Offset) -> (r: Result<(), EncodeError>) {
        self.encoder.encode_offset(offset)
    }
}

} // verus!
