//! Decode errors

use vstd::prelude::*;

verus! {

/// Decode error codes
#[derive(Debug, Clone, Copy, PartialOrd, PartialEq, Ord, Eq, Hash, Structural)]
pub enum ErrorCode {
    /// IO Errors
    Io,
    /// Length Errors
    Length,
    /// Position Errors
    Position,
    /// String encoding Errors
    StringEncoding,
    /// Catch-all
    Other,
}

/// Decode errors
#[derive(Debug)]
pub struct Error {
    code: ErrorCode,
    msg: String,
}

/// The text that names an error kind, in front of the message.
pub open spec fn spec_code_prefix(code: ErrorCode) -> Seq<char> {
    match code {
        ErrorCode::Io => "io: "@,
        ErrorCode::Length => "length: "@,
        ErrorCode::Position => "position: "@,
        ErrorCode::StringEncoding => "string encoding: "@,
        ErrorCode::Other => "other: "@,
    }
}

impl Error {
    /// The displayed text of the error: its kind, then its message.
    pub open spec fn spec_display(&self) -> Seq<char> {
        spec_code_prefix(self.spec_code()) + self.spec_msg()
    }

    /// Formats the error: its kind, then its message.
    pub fn to_string(&self) -> (r: String)
        ensures
            r@ == self.spec_display(),
    {
        let prefix = match self.code {
            ErrorCode::Io => "io: ",
            ErrorCode::Length => "length: ",
            ErrorCode::Position => "position: ",
            ErrorCode::StringEncoding => "string encoding: ",
            ErrorCode::Other => "other: ",
        };
        crate::text::concat_str(prefix, self.msg.as_str())
    }

    /// The kind of the error.
    pub closed spec fn spec_code(&self) -> ErrorCode {
        self.code
    }

    /// The message of the error.
    pub closed spec fn spec_msg(&self) -> Seq<char> {
        self.msg@
    }

    /// Returns the kind of the error.
    pub fn code(&self) -> (r: ErrorCode)
        ensures
            r == self.spec_code(),
    {
        self.code
    }

    /// Returns the message of the error.
    pub fn msg(&self) -> (r: &str)
        ensures
            r@ == self.spec_msg(),
    {
        self.msg.as_str()
    }

    /// Builds new `Error`
    pub fn new(code: ErrorCode, msg: &str) -> (r: Self)
        ensures
            r.spec_code() == code,
            r.spec_msg() == msg@,
    {
        Self { code, msg: msg.to_owned() }
    }

    /// Builds new IO `Error`
    pub fn io(msg: &str) -> (r: Self)
        ensures
            r.spec_code() == ErrorCode::Io,
            r.spec_msg() == msg@,
    {
        Self::new(ErrorCode::Io, msg)
    }

    /// Builds new length `Error`
    pub fn length(msg: &str) -> (r: Self)
        ensures
            r.spec_code() == ErrorCode::Length,
            r.spec_msg() == msg@,
    {
        Self::new(ErrorCode::Length, msg)
    }

    /// Builds new position `Error`
    pub fn position(msg: &str) -> (r: Self)
        ensures
            r.spec_code() == ErrorCode::Position,
            r.spec_msg() == msg@,
    {
        Self::new(ErrorCode::Position, msg)
    }

    /// Builds new string encoding `Error`
    pub fn string_encoding(msg: &str) -> (r: Self)
        ensures
            r.spec_code() == ErrorCode::StringEncoding,
            r.spec_msg() == msg@,
    {
        Self::new(ErrorCode::StringEncoding, msg)
    }

    /// Builds new other `Error`
    pub fn other(msg: &str) -> (r: Self)
        ensures
            r.spec_code() == ErrorCode::Other,
            r.spec_msg() == msg@,
    {
        Self::new(ErrorCode::Other, msg)
    }
}

} // verus!
