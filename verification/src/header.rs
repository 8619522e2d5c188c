//! WZ file header, as read from the start of a file

use crate::archive::header::default_description;
use crate::bytes::{u32_at, u64_from_le};
use crate::error::{fails_as, DecodeError, Error, Failure};
use crate::text::string_from_utf8;
use vstd::prelude::*;
use vstd::utf8::{decode_utf8, valid_utf8};

verus! {

/// The header of a WZ file
pub struct WzHeader {
    identifier: String,
    size: u64,
    content_start: u64,
    description: String,
}

/// A header as plain values
pub struct WzHeaderView {
    /// Identifier
    pub identifier: Seq<char>,
    /// Size of the contents
    pub size: u64,
    /// Start of the contents
    pub content_start: u64,
    /// Description
    pub description: Seq<char>,
}

impl View for WzHeader {
    type V = WzHeaderView;

    closed spec fn view(&self) -> WzHeaderView {
        WzHeaderView {
            identifier: self.identifier@,
            size: self.size,
            content_start: self.content_start,
            description: self.description@,
        }
    }
}

/// The position of the first null byte of `d` at or after `from`, if there is one.
pub open spec fn null_at(d: Seq<u8>, from: int) -> Option<int>
    decreases d.len() - from,
{
    if from < 0 || from >= d.len() {
        None
    } else if d[from] == 0 {
        Some(from)
    } else {
        null_at(d, from + 1)
    }
}

/// The header at the start of `d`: the identifier "PKG1", the size of the contents, the
/// (non-negative) start of the contents, and a null-terminated UTF-8 description.
pub open spec fn spec_wz_header(d: Seq<u8>) -> Result<WzHeaderView, Failure> {
    if d.len() < 4 {
        Err(Failure::Read(crate::decode::ErrorCode::Io))
    } else if d.subrange(0, 4) != seq![0x50u8, 0x4bu8, 0x47u8, 0x31u8] {
        Err(Failure::Decode(DecodeError::Header))
    } else if d.len() < 16 {
        Err(Failure::Read(crate::decode::ErrorCode::Io))
    } else if (u32_at(d, 12) as i32) < 0 {
        Err(Failure::Decode(DecodeError::Header))
    } else {
        match null_at(d, 16) {
            None => Err(Failure::Read(crate::decode::ErrorCode::Io)),
            Some(z) => if !valid_utf8(d.subrange(16, z)) {
                Err(Failure::Read(crate::decode::ErrorCode::StringEncoding))
            } else {
                Ok(
                    WzHeaderView {
                        identifier: "PKG1"@,
                        size: u64_from_le(d.subrange(4, 12)),
                        content_start: (u32_at(d, 12) as i32) as u64,
                        description: decode_utf8(d.subrange(16, z)),
                    },
                )
            },
        }
    }
}

impl WzHeader {
    /// Creates a header with the default values
    pub fn new() -> (r: Self)
        ensures
            r@ == (WzHeaderView {
                identifier: "PKG1"@,
                size: 0,
                content_start: 60,
                description: default_description(),
            }),
    {
        WzHeader {
            identifier: String::from_str("PKG1"),
            size: 0,
            content_start: 60,
            description: String::from_str("Package file v1.0 Copyright 2002 Wizet, ZMS"),
        }
    }

    /// Reads the header at the start of `read`
    pub fn from_reader(read: &[u8]) -> (r: Result<Self, Error>)
        ensures
            match spec_wz_header(read@) {
                Ok(h) => r matches Ok(x) && x@ == h,
                Err(f) => r matches Err(e) && fails_as(e, f),
            },
    {
        if read.len() < 4 {
            return Err(Error::io(String::from_str("failed to fill whole buffer")));
        }
        // Ensure the identifier is PKG1, otherwise, this isn't a WZ file
        if read[0] != 0x50 || read[1] != 0x4b || read[2] != 0x47 || read[3] != 0x31 {
            assert(read@.subrange(0, 4) != seq![0x50u8, 0x4bu8, 0x47u8, 0x31u8]) by {
                if read@.subrange(0, 4) == seq![0x50u8, 0x4bu8, 0x47u8, 0x31u8] {
                    assert(read@.subrange(0, 4)[0] == read@[0]);
                    assert(read@.subrange(0, 4)[1] == read@[1]);
                    assert(read@.subrange(0, 4)[2] == read@[2]);
                    assert(read@.subrange(0, 4)[3] == read@[3]);
                }
            }
            return Err(Error::decode(DecodeError::Header));
        }
        assert(read@.subrange(0, 4) =~= seq![0x50u8, 0x4bu8, 0x47u8, 0x31u8]);
        if read.len() < 16 {
            return Err(Error::io(String::from_str("failed to fill whole buffer")));
        }
        // Grab the size of the WZ contents
        let size = crate::bytes::read_u64_le(read, 4);
        // Grab the absolute starting position of the WZ contents
        let start = crate::bytes::read_u32_le(read, 12) as i32;
        if start < 0 {
            return Err(Error::decode(DecodeError::Header));
        }
        let content_start = start as u64;
        // Grab the description/copyright
        let mut z: usize = 16;
        while z < read.len() && read[z] != 0
            invariant
                16 <= z <= read@.len(),
                null_at(read@, 16) == null_at(read@, z as int),
            decreases read@.len() - z,
        {
            z = z + 1;
        }
        if z >= read.len() {
            return Err(Error::io(String::from_str("failed to fill whole buffer")));
        }
        let bytes = vstd::slice::slice_to_vec(vstd::slice::slice_subrange(read, 16, z));
        let description = match string_from_utf8(bytes) {
            Some(s) => s,
            None => return Err(Error::decode(DecodeError::Utf8(String::from_str("invalid utf-8")))),
        };
        proof {
            reveal_strlit("PKG1");
        }
        Ok(WzHeader { identifier: String::from_str("PKG1"), size, content_start, description })
    }

    /// Returns the identifier
    pub fn identifier(&self) -> (r: &str)
        ensures
            r@ == self@.identifier,
    {
        self.identifier.as_str()
    }

    /// Returns the size of the contents
    pub fn size(&self) -> (r: u64)
        ensures
            r == self@.size,
    {
        self.size
    }

    /// Returns the start of the contents
    pub fn content_start(&self) -> (r: u64)
        ensures
            r == self@.content_start,
    {
        self.content_start
    }

    /// Returns the description
    pub fn description(&self) -> (r: &str)
        ensures
            r@ == self@.description,
    {
        self.description.as_str()
    }
}

} // verus!
