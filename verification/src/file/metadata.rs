//! WZ Metadata

use crate::archive::error::ErrorCode;
use crate::archive::header::{default_description, header_readable, pkg1, spec_header, Header, HeaderView};
use crate::bytes::{u16_le, u32_le, u64_le};
use crate::cipher::{checksum, spec_version_checksum, spec_version_hash};
use crate::encode::{Encode, Encoder};
use crate::error::{fails_as, DecodeError, Error, Failure};
use vstd::prelude::*;
use vstd::utf8::encode_utf8;

verus! {

/// Metadata of the WZ file
#[derive(Debug, PartialEq, Eq)]
pub struct Metadata {
    /// Constant value. ASCII for "PKG1"
    pub identifier: [u8; 4],
    /// Total size of the WZ contents
    pub size: u64,
    /// Position of where the content starts: that of the version checksum, 2 bytes before
    /// the top-level `Package`. The actual value used for WZ files is signed.
    pub absolute_position: i32,
    /// Description of the WZ package. Should be "Package file v1.0 Copyright 2002 Wizet, ZMS"
    pub description: String,
    /// Encrypted version (an irreversible hash of the version checksum)
    pub encrypted_version: u16,
}

/// The metadata that a header describes.
pub open spec fn metadata_of(h: HeaderView) -> (Seq<u8>, u64, i32, Seq<char>, u16) {
    (h.identifier, h.size, h.content_start as i32, h.description, h.version_hash)
}

/// The fields of `m` as plain values.
pub open spec fn metadata_fields(m: &Metadata) -> (Seq<u8>, u64, i32, Seq<char>, u16) {
    (m.identifier@, m.size, m.absolute_position, m.description@, m.encrypted_version)
}

/// The version numbers below `n` (from 1) whose hash is `hash`, each with its checksum.
pub open spec fn spec_version_pairs(hash: u16, n: nat) -> Seq<(u16, u32)>
    decreases n,
{
    if n <= 1 {
        Seq::empty()
    } else {
        let v = (n - 1) as nat;
        let prev = spec_version_pairs(hash, v);
        let cs = spec_version_checksum(v as u16);
        if spec_version_hash(cs) == hash {
            prev.push((v as u16, cs))
        } else {
            prev
        }
    }
}

impl Metadata {
    /// Creates new metadata with default values.
    pub fn new(version: u16) -> (r: Self)
        ensures
            r.identifier@ == pkg1(),
            r.size == 0,
            r.absolute_position == 60,
            r.description@ == default_description(),
            r.encrypted_version == spec_version_hash(spec_version_checksum(version)),
    {
        let h = Header::new(version);
        Metadata {
            identifier: h.identifier,
            size: h.size,
            absolute_position: h.content_start as i32,
            description: h.description,
            encrypted_version: h.version_hash,
        }
    }

    /// Reads the metadata at the beginning of the WZ file: the same layout as an archive
    /// header. Missing bytes are an I/O error; a wrong identifier, a negative content start
    /// or a description that is not UTF-8 is an invalid header.
    pub fn from_reader(read: &[u8]) -> (r: Result<Metadata, Error>)
        requires
            header_readable(read@),
        ensures
            match spec_header(read@) {
                Ok(h) => r matches Ok(m) && metadata_fields(&m) == metadata_of(h),
                Err(c) => r matches Err(e) && fails_as(
                    e,
                    if c == ErrorCode::Io {
                        Failure::Read(crate::decode::ErrorCode::Io)
                    } else {
                        Failure::Decode(DecodeError::Header)
                    },
                ),
            },
    {
        match Header::from_read(read) {
            Ok(h) => Ok(
                Metadata {
                    identifier: h.identifier,
                    size: h.size,
                    absolute_position: h.content_start as i32,
                    description: h.description,
                    encrypted_version: h.version_hash,
                },
            ),
            Err(e) => if e.code() == ErrorCode::Io {
                Err(Error::io(e.to_string()))
            } else {
                Err(Error::decode(DecodeError::Header))
            },
        }
    }

    /// The versions from 1 to 999 whose hash is `encrypted_version`, each with its checksum
    pub fn possible_versions(encrypted_version: u16) -> (r: Vec<(u16, u32)>)
        ensures
            r@ == spec_version_pairs(encrypted_version, 1000),
    {
        let mut versions: Vec<(u16, u32)> = Vec::new();
        let mut version: u16 = 1;
        while version < 1000
            invariant
                1 <= version <= 1000,
                versions@ == spec_version_pairs(encrypted_version, version as nat),
            decreases 1000 - version,
        {
            let (calc_version, version_checksum) = checksum(version);
            if calc_version == encrypted_version {
                versions.push((version, version_checksum));
            }
            version = version + 1;
        }
        versions
    }

    /// Encodes the metadata: the identifier, size, absolute position, the description with a
    /// null byte after it, and the encrypted version
    pub fn encode<E: Encoder>(&self, encoder: &mut E) -> (r: Result<(), crate::encode::Error>)
        ensures
            r is Ok,
            final(encoder).spec_context() == old(encoder).spec_context(),
            final(encoder).spec_written() == old(encoder).spec_written() + self.identifier@
                + u64_le(self.size) + u32_le(self.absolute_position as u32) + encode_utf8(
                self.description@,
            ) + seq![0u8] + u16_le(self.encrypted_version),
    {
        let ghost start = encoder.spec_written();
        let _ = encoder.encode_bytes(&self.identifier);
        let _ = self.size.encode(encoder);
        let _ = self.absolute_position.encode(encoder);
        let _ = encoder.encode_bytes(self.description.as_str().as_bytes());
        let _ = encoder.encode_bytes(&[0u8]);
        let _ = self.encrypted_version.encode(encoder);
        proof {
            assert(self.absolute_position as u32 == self.absolute_position as u32);
        }
        assert(encoder.spec_written() =~= start + self.identifier@ + u64_le(self.size) + u32_le(
            self.absolute_position as u32,
        ) + encode_utf8(self.description@) + seq![0u8] + u16_le(self.encrypted_version));
        Ok(())
    }
}

} // verus!
