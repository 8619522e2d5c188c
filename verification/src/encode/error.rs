//! Encode errors

use vstd::prelude::*;

verus! {

/// Encode error codes
#[derive(Debug, Clone, Copy, PartialOrd, PartialEq, Ord, Eq, Hash, Structural)]
pub enum ErrorCode {
    /// IO Errors
    Io,
    /// Invalid UolString
    UolString,
    /// Invalid position
    Position,
    /// Content is too large
    Size,
    /// Catch-all other
    Other,
}

/// Encode errors
#[derive(Debug)]
pub struct Error {
    code: ErrorCode,
    msg: String,
}

impl Error {
    /// Formats the error: its message.
    pub fn to_string(&self) -> (r: String)
        ensures
            r@ == self.spec_msg(),
    {
        self.msg.clone()
    }

    /// The kind of the error.
    pub closed spec fn spec_code(&self) -> ErrorCode {
        self.code
    }

    /// The message of the error.
    pub closed spec fn spec_msg(&self) -> Seq<char> {
        self.msg@
    }

    /// Returns the kind of the error.
    pub fn code(&self) -> (r: ErrorCode)
        ensures
            r == self.spec_code(),
    {
        self.code
    }

    /// Returns the message of the error.
    pub fn msg(&self) -> (r: &str)
        ensures
            r@ == self.spec_msg(),
    {
        self.msg.as_str()
    }

    /// Builds new `Error`
    pub fn new(code: ErrorCode, msg: &str) -> (r: Self)
        ensures
            r.spec_code() == code,
            r.spec_msg() == msg@,
    {
        Self { code, msg: msg.to_owned() }
    }

    /// Builds new IO `Error`
    pub fn io(msg: &str) -> (r: Self)
        ensures
            r.spec_code() == ErrorCode::Io,
            r.spec_msg() == msg@,
    {
        Self::new(ErrorCode::Io, msg)
    }

    /// Builds new UOL string `Error`
    pub fn uol_string(msg: &str) -> (r: Self)
        ensures
            r.spec_code() == ErrorCode::UolString,
            r.spec_msg() == msg@,
    {
        Self::new(ErrorCode::UolString, msg)
    }

    /// Builds new position `Error`
    pub fn position(msg: &str) -> (r: Self)
        ensures
            r.spec_code() == ErrorCode::Position,
            r.spec_msg() == msg@,
    {
        Self::new(ErrorCode::Position, msg)
    }

    /// Builds new Size `Error`
    pub fn size(msg: &str) -> (r: Self)
        ensures
            r.spec_code() == ErrorCode::Size,
            r.spec_msg() == msg@,
    {
        Self::new(ErrorCode::Size, msg)
    }

    /// Builds new other `Error`
    pub fn other(msg: &str) -> (r: Self)
        ensures
            r.spec_code() == ErrorCode::Other,
            r.spec_msg() == msg@,
    {
        Self::new(ErrorCode::Other, msg)
    }
}

} // verus!
