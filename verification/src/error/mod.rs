//! Errors of the WZ file types

pub mod canvas;
pub mod image;
pub mod package;
pub mod sound;

pub use canvas::CanvasError;
pub use image::ImageError;
pub use package::PackageError;
pub use sound::SoundError;

use crate::decode;
use crate::text::{hex_byte_string, hex_digit, int_to_string, signed_decimal_chars};
use vstd::prelude::*;

verus! {

/// Decode errors
#[derive(Debug)]
pub enum DecodeError {
    /// Invalid WZ Header
    Header,
    /// The length is invalid (likely negative)
    Length(i32),
    /// The offset is invalid (likely negative)
    Offset(i32),
    /// Invalid tag
    Tag(u8),
    /// Unable to decode UTF-8: what the UTF-8 decoder reported
    Utf8(String),
    /// Unable to decode Unicode: what the UTF-16 decoder reported
    Unicode(String),
}

/// The displayed text of a decode error.
pub open spec fn decode_error_text(e: DecodeError) -> Seq<char> {
    match e {
        DecodeError::Header => "invalid header"@,
        DecodeError::Length(l) => "invalid length: "@ + signed_decimal_chars(l as int),
        DecodeError::Offset(o) => "invalid offset: "@ + signed_decimal_chars(o as int),
        DecodeError::Tag(t) => "invalid tag: 0x"@ + seq![hex_digit((t / 16) as int), hex_digit((t % 16) as int)],
        DecodeError::Utf8(m) => m@,
        DecodeError::Unicode(m) => m@,
    }
}

impl DecodeError {
    /// New header error
    pub fn header() -> (r: Self)
        ensures
            r == DecodeError::Header,
    {
        DecodeError::Header
    }

    /// New invalid length error
    pub fn length(length: i32) -> (r: Self)
        ensures
            r == DecodeError::Length(length),
    {
        DecodeError::Length(length)
    }

    /// New invalid offset error
    pub fn offset(offset: i32) -> (r: Self)
        ensures
            r == DecodeError::Offset(offset),
    {
        DecodeError::Offset(offset)
    }

    /// New invalid tag error
    pub fn tag(tag: u8) -> (r: Self)
        ensures
            r == DecodeError::Tag(tag),
    {
        DecodeError::Tag(tag)
    }

    /// The displayed text of the error
    pub fn to_string(&self) -> (r: String)
        ensures
            r@ == decode_error_text(*self),
    {
        match self {
            DecodeError::Header => {
                proof {
                    reveal_strlit("invalid header");
                }
                String::from_str("invalid header")
            },
            DecodeError::Length(l) => {
                let mut s = String::from_str("invalid length: ");
                s.append(int_to_string(*l as i64).as_str());
                s
            },
            DecodeError::Offset(o) => {
                let mut s = String::from_str("invalid offset: ");
                s.append(int_to_string(*o as i64).as_str());
                s
            },
            DecodeError::Tag(t) => {
                let mut s = String::from_str("invalid tag: 0x");
                s.append(hex_byte_string(*t).as_str());
                s
            },
            DecodeError::Utf8(m) => m.clone(),
            DecodeError::Unicode(m) => m.clone(),
        }
    }
}

/// What went wrong
#[derive(Debug)]
pub enum ErrorImpl {
    /// Decode Errors
    Decode(DecodeError),
    /// IO Errors: what the I/O error reported
    Io(String),
    /// Image errors
    Image(ImageError),
    /// Canvas errors
    Canvas(CanvasError),
}

/// The displayed text of an error.
pub open spec fn error_impl_text(e: ErrorImpl) -> Seq<char> {
    match e {
        ErrorImpl::Decode(d) => decode_error_text(d),
        ErrorImpl::Io(m) => m@,
        ErrorImpl::Image(i) => image::image_error_text(i),
        ErrorImpl::Canvas(c) => canvas::canvas_error_text(c),
    }
}

impl ErrorImpl {
    /// The displayed text of the error
    pub fn to_string(&self) -> (r: String)
        ensures
            r@ == error_impl_text(*self),
    {
        match self {
            ErrorImpl::Decode(e) => e.to_string(),
            ErrorImpl::Io(m) => m.clone(),
            ErrorImpl::Image(i) => i.to_string(),
            ErrorImpl::Canvas(c) => c.to_string(),
        }
    }
}

/// IO and decoding errors
#[derive(Debug)]
pub struct Error {
    inner: Box<ErrorImpl>,
}

impl Error {
    /// What went wrong
    pub closed spec fn kind(&self) -> ErrorImpl {
        *self.inner
    }

    /// An I/O error that reported `msg`
    pub fn io(msg: String) -> (r: Self)
        ensures
            r.kind() == ErrorImpl::Io(msg),
    {
        Self { inner: Box::new(ErrorImpl::Io(msg)) }
    }

    /// The displayed text of the error
    pub fn to_string(&self) -> (r: String)
        ensures
            r@ == error_impl_text(self.kind()),
    {
        self.inner.to_string()
    }
}

/// How a decode fails: a read that fails (the data ends, or a string does not decode), or a
/// decode error.
pub enum Failure {
    /// A read failed, with the kind of the read error
    Read(decode::ErrorCode),
    /// The data is invalid
    Decode(DecodeError),
    /// The data is not a valid image
    Image(ImageError),
    /// The data is not a valid canvas
    Canvas(CanvasError),
}

/// `e` reports the failure `f`: a failed read of a string that does not decode is a UTF-8
/// decode error, any other failed read an I/O error (their messages are those of the read
/// errors, which the reads do not state); the other failures are the errors they name.
pub open spec fn fails_as(e: Error, f: Failure) -> bool {
    match f {
        Failure::Read(c) => if c == decode::ErrorCode::StringEncoding {
            e.kind() matches ErrorImpl::Decode(DecodeError::Utf8(_))
        } else {
            e.kind() is Io
        },
        Failure::Decode(d) => e.kind() == ErrorImpl::Decode(d),
        Failure::Image(i) => e.kind() == ErrorImpl::Image(i),
        Failure::Canvas(c) => e.kind() == ErrorImpl::Canvas(c),
    }
}

/// `r` is what a decode that the spec `expected` describes returns.
pub open spec fn reads_as<T: View>(
    r: Result<T, Error>,
    expected: Result<(T::V, int), Failure>,
    end: int,
) -> bool {
    match expected {
        Ok((v, p)) => r matches Ok(x) && x@ == v && end == p,
        Err(f) => r matches Err(e) && fails_as(e, f),
    }
}

impl Error {
    /// A decode error
    pub fn decode(e: DecodeError) -> (r: Self)
        ensures
            r.kind() == ErrorImpl::Decode(e),
    {
        Self { inner: Box::new(ErrorImpl::Decode(e)) }
    }

    /// An image error
    pub fn image(e: ImageError) -> (r: Self)
        ensures
            r.kind() == ErrorImpl::Image(e),
    {
        Self { inner: Box::new(ErrorImpl::Image(e)) }
    }

    /// A canvas error
    pub fn canvas(e: CanvasError) -> (r: Self)
        ensures
            r.kind() == ErrorImpl::Canvas(e),
    {
        Self { inner: Box::new(ErrorImpl::Canvas(e)) }
    }

    /// The failure of a read: a string that does not decode is a UTF-8 decode error, anything
    /// else an I/O error; the message is kept.
    pub fn from_read(e: decode::Error) -> (r: Self)
        ensures
            fails_as(r, Failure::Read(e.spec_code())),
            e.spec_code() == decode::ErrorCode::StringEncoding ==> (r.kind() matches ErrorImpl::Decode(
                DecodeError::Utf8(m),
            ) && m@ == e.spec_display()),
            e.spec_code() != decode::ErrorCode::StringEncoding ==> (r.kind() matches ErrorImpl::Io(m)
                && m@ == e.spec_display()),
    {
        let msg = e.to_string();
        match e.code() {
            decode::ErrorCode::StringEncoding => Self::decode(DecodeError::Utf8(msg)),
            _ => Self::io(msg),
        }
    }
}

impl From<DecodeError> for Error {
    fn from(other: DecodeError) -> (r: Self) {
        Self { inner: Box::new(ErrorImpl::Decode(other)) }
    }
}

impl vstd::std_specs::convert::FromSpecImpl<DecodeError> for Error {
    open spec fn obeys_from_spec() -> bool {
        true
    }

    open spec fn from_spec(v: DecodeError) -> Self {
        Error::from_decode_error(v)
    }
}

impl Error {
    /// The error that wraps a decode error.
    pub closed spec fn from_decode_error(v: DecodeError) -> Self {
        Error { inner: Box::new(ErrorImpl::Decode(v)) }
    }

    /// Wrapping a decode error keeps it as what went wrong.
    pub proof fn lemma_from_decode_error(v: DecodeError)
        ensures
            Error::from_decode_error(v).kind() == ErrorImpl::Decode(v),
    {
    }
}

} // verus!
