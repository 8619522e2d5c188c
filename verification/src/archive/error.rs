//! Archive Errors

use crate::{decode, encode};
use vstd::prelude::*;

verus! {

/// Archive error codes
#[derive(Debug, Clone, Copy, PartialOrd, PartialEq, Ord, Eq, Hash, Structural)]
pub enum ErrorCode {
    /// IO Errors
    Io,
    /// Decode Errors
    Decode,
    /// Encode Errors
    Encode,
    /// Invalid header
    Header,
    /// Bruteforce failure
    Bruteforce,
    /// Invalid version
    Version,
    /// Invalid length
    Length,
    /// Invalid size
    Size,
    /// Invalid offset
    Offset,
    /// Invalid content tag
    Tag,
    /// Catch all
    Other,
}

/// The text that names an error kind, in front of the message.
pub open spec fn spec_code_prefix(code: ErrorCode) -> Seq<char> {
    match code {
        ErrorCode::Io => "io: "@,
        ErrorCode::Decode => "decode: "@,
        ErrorCode::Encode => "encode: "@,
        ErrorCode::Header => "header: "@,
        ErrorCode::Bruteforce => "bruteforce: "@,
        ErrorCode::Version => "version: "@,
        ErrorCode::Length => "length: "@,
        ErrorCode::Size => "size: "@,
        ErrorCode::Offset => "offset: "@,
        ErrorCode::Tag => "tag: "@,
        ErrorCode::Other => "other: "@,
    }
}

/// Archive errors
#[derive(Debug)]
pub struct Error {
    code: ErrorCode,
    msg: String,
}

impl Error {
    /// The kind of the error.
    pub closed spec fn spec_code(&self) -> ErrorCode {
        self.code
    }

    /// The message of the error.
    pub closed spec fn spec_msg(&self) -> Seq<char> {
        self.msg@
    }

    /// The displayed text of the error: its kind, then its message.
    pub open spec fn spec_display(&self) -> Seq<char> {
        spec_code_prefix(self.spec_code()) + self.spec_msg()
    }

    /// Returns the kind of the error.
    pub fn code(&self) -> (r: ErrorCode)
        ensures
            r == self.spec_code(),
    {
        self.code
    }

    /// Returns the message of the error.
    pub fn msg(&self) -> (r: &str)
        ensures
            r@ == self.spec_msg(),
    {
        self.msg.as_str()
    }

    /// Formats the error: its kind, then its message.
    pub fn to_string(&self) -> (r: String)
        ensures
            r@ == self.spec_display(),
    {
        let prefix = match self.code {
            ErrorCode::Io => "io: ",
            ErrorCode::Decode => "decode: ",
            ErrorCode::Encode => "encode: ",
            ErrorCode::Header => "header: ",
            ErrorCode::Bruteforce => "bruteforce: ",
            ErrorCode::Version => "version: ",
            ErrorCode::Length => "length: ",
            ErrorCode::Size => "size: ",
            ErrorCode::Offset => "offset: ",
            ErrorCode::Tag => "tag: ",
            ErrorCode::Other => "other: ",
        };
        crate::text::concat_str(prefix, self.msg.as_str())
    }

    /// Builds new `Error`
    pub fn new(code: ErrorCode, msg: &str) -> (r: Self)
        ensures
            r.spec_code() == code,
            r.spec_msg() == msg@,
    {
        Self { code, msg: msg.to_owned() }
    }

    /// IO `Error`
    pub fn io(msg: &str) -> (r: Self)
        ensures
            r.spec_code() == ErrorCode::Io,
            r.spec_msg() == msg@,
    {
        Self::new(ErrorCode::Io, msg)
    }

    /// Decode `Error`
    pub fn decode(msg: &str) -> (r: Self)
        ensures
            r.spec_code() == ErrorCode::Decode,
            r.spec_msg() == msg@,
    {
        Self::new(ErrorCode::Decode, msg)
    }

    /// Encode `Error`
    pub fn encode(msg: &str) -> (r: Self)
        ensures
            r.spec_code() == ErrorCode::Encode,
            r.spec_msg() == msg@,
    {
        Self::new(ErrorCode::Encode, msg)
    }

    /// Header `Error`
    pub fn header(msg: &str) -> (r: Self)
        ensures
            r.spec_code() == ErrorCode::Header,
            r.spec_msg() == msg@,
    {
        Self::new(ErrorCode::Header, msg)
    }

    /// Bruteforce `Error`
    pub fn bruteforce(msg: &str) -> (r: Self)
        ensures
            r.spec_code() == ErrorCode::Bruteforce,
            r.spec_msg() == msg@,
    {
        Self::new(ErrorCode::Bruteforce, msg)
    }

    /// Version `Error`
    pub fn version(msg: &str) -> (r: Self)
        ensures
            r.spec_code() == ErrorCode::Version,
            r.spec_msg() == msg@,
    {
        Self::new(ErrorCode::Version, msg)
    }

    /// Length `Error`
    pub fn length(msg: &str) -> (r: Self)
        ensures
            r.spec_code() == ErrorCode::Length,
            r.spec_msg() == msg@,
    {
        Self::new(ErrorCode::Length, msg)
    }

    /// Size `Error`
    pub fn size(msg: &str) -> (r: Self)
        ensures
            r.spec_code() == ErrorCode::Size,
            r.spec_msg() == msg@,
    {
        Self::new(ErrorCode::Size, msg)
    }

    /// Offset `Error`
    pub fn offset(msg: &str) -> (r: Self)
        ensures
            r.spec_code() == ErrorCode::Offset,
            r.spec_msg() == msg@,
    {
        Self::new(ErrorCode::Offset, msg)
    }

    /// Tag `Error`
    pub fn tag(msg: &str) -> (r: Self)
        ensures
            r.spec_code() == ErrorCode::Tag,
            r.spec_msg() == msg@,
    {
        Self::new(ErrorCode::Tag, msg)
    }

    /// Custom error message
    pub fn other(msg: &str) -> (r: Self)
        ensures
            r.spec_code() == ErrorCode::Other,
            r.spec_msg() == msg@,
    {
        Self::new(ErrorCode::Other, msg)
    }

    /// Wraps a decode error: a decode `Error` whose message is the decode error's text.
    pub fn from_decode(other: decode::Error) -> (r: Self)
        ensures
            r.spec_code() == ErrorCode::Decode,
            r.spec_msg() == other.spec_display(),
    {
        let msg = other.to_string();
        Self::decode(msg.as_str())
    }

    /// Wraps an encode error: an encode `Error` whose message is the encode error's text.
    pub fn from_encode(other: encode::Error) -> (r: Self)
        ensures
            r.spec_code() == ErrorCode::Encode,
            r.spec_msg() == other.spec_msg(),
    {
        let msg = other.to_string();
        Self::encode(msg.as_str())
    }
}

} // verus!
