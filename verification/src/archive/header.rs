//! WZ Archive Header

use crate::archive::error::{Error, ErrorCode};
use crate::bytes::{lemma_u16_le_roundtrip, lemma_u32_le_roundtrip, lemma_u64_le_roundtrip, u16_from_le, u16_le, u32_at, u32_le, u64_from_le, u64_le};
use crate::cipher::{checksum, spec_possible_versions, spec_version_checksum, spec_version_hash};
use crate::text::string_from_utf8;
use vstd::prelude::*;
use vstd::utf8::{decode_utf8, encode_utf8, valid_utf8};

verus! {

/// The identifier that starts every archive: ASCII for "PKG1"
pub open spec fn pkg1() -> Seq<u8> {
    seq![0x50u8, 0x4bu8, 0x47u8, 0x31u8]
}

/// The description written by default
pub open spec fn default_description() -> Seq<char> {
    "Package file v1.0 Copyright 2002 Wizet, ZMS"@
}

/// Header of the WZ archive
///
/// The `Header` object contains 2 important pieces of information used in parsing WZ archives:
/// * `content_start`
/// * `version_hash`
///
/// These values are referenced to calculate WZ offset values within the archive.
#[derive(Debug, PartialOrd, PartialEq, Eq, Ord)]
pub struct Header {
    /// Constant value. ASCII for "PKG1"
    pub identifier: [u8; 4],
    /// Total size of the WZ contents
    pub size: u64,
    /// Position of where the content starts. This technically points to the version checksum
    /// which isn't very useful. The first `Package` is `content_start + 2`. However, this
    /// value is important for calculating offsets so it is not modified here. The actual value
    /// used for WZ archives is a signed 32-bit integer but it probably shouldn't be.
    pub content_start: u32,
    /// Description of the WZ package. Should be "Package file v1.0 Copyright 2002 Wizet, ZMS"
    pub description: String,
    /// Some obfuscated version checksum.
    pub version_hash: u16,
}

/// A header as plain values
pub struct HeaderView {
    /// Identifier bytes
    pub identifier: Seq<u8>,
    /// Total size of the WZ contents
    pub size: u64,
    /// Position of where the content starts
    pub content_start: u32,
    /// Description
    pub description: Seq<char>,
    /// Version hash
    pub version_hash: u16,
}

impl Clone for Header {
    fn clone(&self) -> (r: Self)
        ensures
            r@ == self@,
    {
        Header {
            identifier: self.identifier,
            size: self.size,
            content_start: self.content_start,
            description: self.description.clone(),
            version_hash: self.version_hash,
        }
    }
}

impl View for Header {
    type V = HeaderView;

    open spec fn view(&self) -> HeaderView {
        HeaderView {
            identifier: self.identifier@,
            size: self.size,
            content_start: self.content_start,
            description: self.description@,
            version_hash: self.version_hash,
        }
    }
}

/// The signed start field of the header bytes `d` (bytes 12 to 16).
pub open spec fn start_field(d: Seq<u8>) -> i32 {
    u32_at(d, 12) as i32
}

/// Reading the header bytes `d` does not subtract past zero: the description length
/// `content_start - 17` is only computed for a start of at least 17.
pub open spec fn header_readable(d: Seq<u8>) -> bool {
    d.len() >= 16 && d.subrange(0, 4) == pkg1() && start_field(d) >= 0 ==> start_field(d) >= 17
}

/// The header at the start of `d`: the identifier "PKG1", the content size, the (non-negative)
/// content start, a description of `content_start - 17` UTF-8 bytes, a null byte and the
/// version hash.
pub open spec fn spec_header(d: Seq<u8>) -> Result<HeaderView, ErrorCode> {
    if d.len() < 16 {
        Err(ErrorCode::Io)
    } else if d.subrange(0, 4) != pkg1() {
        Err(ErrorCode::Header)
    } else if start_field(d) < 0 {
        Err(ErrorCode::Header)
    } else {
        let cs = start_field(d) as int;
        let desc = d.subrange(16, 16 + (cs - 17));
        if d.len() < cs - 1 {
            Err(ErrorCode::Io)
        } else if !valid_utf8(desc) {
            Err(ErrorCode::Header)
        } else if d.len() < cs + 2 {
            Err(ErrorCode::Io)
        } else {
            Ok(
                HeaderView {
                    identifier: pkg1(),
                    size: u64_from_le(d.subrange(4, 12)),
                    content_start: cs as u32,
                    description: decode_utf8(desc),
                    version_hash: u16_from_le(d[cs], d[cs + 1]),
                },
            )
        }
    }
}

/// The bytes of a header.
pub open spec fn spec_header_bytes(h: HeaderView) -> Seq<u8> {
    h.identifier + u64_le(h.size) + u32_le(h.content_start) + encode_utf8(h.description) + seq![0u8]
        + u16_le(h.version_hash)
}

impl Header {
    /// Creates new header with default values.
    pub fn new(version: u16) -> (r: Self)
        ensures
            r@.identifier == pkg1(),
            r@.size == 0,
            r@.content_start == 60,
            r@.description == default_description(),
            r@.version_hash == spec_version_hash(spec_version_checksum(version)),
    {
        let (version_hash, _) = checksum(version);
        let identifier = [0x50u8, 0x4bu8, 0x47u8, 0x31u8];
        assert(identifier@ =~= pkg1());
        Self {
            identifier,
            size: 0,
            content_start: 60,
            description: "Package file v1.0 Copyright 2002 Wizet, ZMS".to_owned(),
            version_hash,
        }
    }

    /// Reads the header at the beginning of the WZ archive
    pub fn from_read(read: &[u8]) -> (r: Result<Header, Error>)
        requires
            header_readable(read@),
        ensures
            match spec_header(read@) {
                Ok(h) => r matches Ok(x) && x@ == h,
                Err(c) => r matches Err(e) && e.spec_code() == c,
            },
    {
        // Ensure there are at least 16 bytes
        if read.len() < 16 {
            return Err(Error::io("failed to fill whole buffer"));
        }
        // Read the identifier
        let identifier = [read[0], read[1], read[2], read[3]];
        if read[0] != 0x50 || read[1] != 0x4b || read[2] != 0x47 || read[3] != 0x31 {
            assert(read@.subrange(0, 4) != pkg1()) by {
                if read@.subrange(0, 4) == pkg1() {
                    assert(read@.subrange(0, 4)[0] == read@[0]);
                    assert(read@.subrange(0, 4)[1] == read@[1]);
                    assert(read@.subrange(0, 4)[2] == read@[2]);
                    assert(read@.subrange(0, 4)[3] == read@[3]);
                }
            }
            return Err(Error::header("invalid identifier"));
        }
        assert(read@.subrange(0, 4) =~= pkg1());
        assert(identifier@ =~= pkg1());
        // Read the size
        let size = crate::bytes::read_u64_le(read, 4);
        // Read the absolute position
        let content_start = crate::bytes::read_u32_le(read, 12) as i32;
        if content_start < 0 {
            return Err(Error::header("negative content start"));
        }
        let content_start = content_start as u32;
        // Read the description
        let desc_len = (content_start as usize) - 17;
        if read.len() - 16 < desc_len {
            return Err(Error::io("failed to fill whole buffer"));
        }
        let description = vstd::slice::slice_to_vec(
            vstd::slice::slice_subrange(read, 16, 16 + desc_len),
        );
        let description = match string_from_utf8(description) {
            Some(s) => s,
            None => return Err(Error::header("invalid description")),
        };
        // Skip the null, then read the version hash
        if read.len() - 16 - desc_len < 3 {
            return Err(Error::io("failed to fill whole buffer"));
        }
        let cs = content_start as usize;
        let version_hash = crate::bytes::read_u16_le(read, cs);
        Ok(Header { identifier, size, content_start, description, version_hash })
    }

    /// Writes the header
    pub fn to_write(&self, write: &mut Vec<u8>) -> (r: Result<(), Error>)
        ensures
            r is Ok,
            final(write)@ == old(write)@ + spec_header_bytes(self@),
    {
        let ghost start = write@;
        let mut i: usize = 0;
        while i < 4
            invariant
                i <= 4,
                write@ == start + self.identifier@.subrange(0, i as int),
            decreases 4 - i,
        {
            write.push(self.identifier[i]);
            assert(self.identifier@.subrange(0, i + 1) =~= self.identifier@.subrange(0, i as int).push(self.identifier@[i as int]));
            i = i + 1;
        }
        assert(self.identifier@.subrange(0, 4) =~= self.identifier@);
        crate::bytes::push_u64_le(write, self.size);
        crate::bytes::push_u32_le(write, self.content_start);
        write.extend_from_slice(self.description.as_str().as_bytes());
        write.push(0u8);
        crate::bytes::push_u16_le(write, self.version_hash);
        assert(write@ =~= start + spec_header_bytes(self@));
        Ok(())
    }

    /// Gathers a list of possible version checksums that match the `version_hash`
    pub fn possible_versions(version_hash: u16) -> (r: Vec<u32>)
        ensures
            r@ == spec_possible_versions(version_hash, 1000),
    {
        let mut versions = Vec::new();
        let mut version: u16 = 1;
        while version < 1000
            invariant
                1 <= version <= 1000,
                versions@ == spec_possible_versions(version_hash, version as nat),
            decreases 1000 - version,
        {
            let (calc_version_hash, version_checksum) = checksum(version);
            if calc_version_hash == version_hash {
                versions.push(version_checksum);
            }
            version = version + 1;
        }
        versions
    }
}

/// A header written and read back gives the same header, when its identifier is "PKG1" and
/// its content start is the position of the version hash: 17 bytes plus the description.
pub proof fn lemma_header_roundtrip(h: HeaderView, rest: Seq<u8>)
    requires
        h.identifier == pkg1(),
        h.content_start == 17 + encode_utf8(h.description).len(),
        h.content_start <= i32::MAX,
    ensures
        header_readable(spec_header_bytes(h) + rest),
        spec_header(spec_header_bytes(h) + rest) == Ok::<HeaderView, ErrorCode>(h),
{
    let d = spec_header_bytes(h) + rest;
    let desc = encode_utf8(h.description);
    let cs = h.content_start as int;
    lemma_u64_le_roundtrip(h.size);
    lemma_u32_le_roundtrip(h.content_start);
    lemma_u16_le_roundtrip(h.version_hash);
    vstd::utf8::encode_utf8_valid_utf8(h.description);
    vstd::utf8::encode_utf8_decode_utf8(h.description);
    assert(d.subrange(0, 4) =~= pkg1());
    assert(d.subrange(4, 12) =~= u64_le(h.size));
    assert(u32_at(d, 12) == u32_at(u32_le(h.content_start), 0));
    let x = h.content_start;
    assert(x <= i32::MAX ==> (x as i32) as int == x as int) by (bit_vector);
    assert(start_field(d) == cs);
    assert(d.subrange(16, 16 + (cs - 17)) =~= desc);
    assert(d[cs] == u16_le(h.version_hash)[0]);
    assert(d[cs + 1] == u16_le(h.version_hash)[1]);
}

} // verus!
