//! Canvas Error Types

use crate::text::{decimal_chars, int_to_string, signed_decimal_chars, uint_to_string};
use crate::types::WzInt;
use vstd::prelude::*;

verus! {

/// Possible canvas errors
#[derive(Debug)]
pub enum CanvasError {
    /// Unknown Canvas type
    EncodingFormat(WzInt),
    /// Image Errors: what the image library reported
    Image(String),
    /// Inflate
    Inflate(String),
    /// Size mismatch
    SizeMismatch(u32, u32, usize),
    /// Too big
    TooBig(u32, u32),
}


/// The displayed text of a canvas error.
pub open spec fn canvas_error_text(e: CanvasError) -> Seq<char> {
    match e {
        CanvasError::EncodingFormat(t) => "Unknown encoding format: `"@ + signed_decimal_chars(
            t.0 as int,
        ) + "`"@,
        CanvasError::Image(m) => "Image: "@ + m@,
        CanvasError::Inflate(m) => "Inflate: "@ + m@,
        CanvasError::SizeMismatch(w, h, l) => "ImageBuffer size mismatch { Width("@
            + decimal_chars(w as nat) + "), Height("@ + decimal_chars(h as nat) + "), PixelBytes("@
            + decimal_chars(l as nat) + ") }"@,
        CanvasError::TooBig(w, h) => "canvas is too big: { Width("@ + decimal_chars(w as nat)
            + "), Height("@ + decimal_chars(h as nat) + ") }"@,
    }
}

impl CanvasError {
    /// The displayed text of the error
    pub fn to_string(&self) -> (r: String)
        ensures
            r@ == canvas_error_text(*self),
    {
        match self {
            CanvasError::EncodingFormat(t) => {
                let mut s = String::from_str("Unknown encoding format: `");
                s.append(int_to_string(t.0 as i64).as_str());
                s.append("`");
                s
            },
            CanvasError::Image(m) => {
                let mut s = String::from_str("Image: ");
                s.append(m.as_str());
                s
            },
            CanvasError::Inflate(m) => {
                let mut s = String::from_str("Inflate: ");
                s.append(m.as_str());
                s
            },
            CanvasError::SizeMismatch(w, h, l) => {
                let mut s = String::from_str("ImageBuffer size mismatch { Width(");
                s.append(uint_to_string(*w as u64).as_str());
                s.append("), Height(");
                s.append(uint_to_string(*h as u64).as_str());
                s.append("), PixelBytes(");
                s.append(uint_to_string(*l as u64).as_str());
                s.append(") }");
                s
            },
            CanvasError::TooBig(w, h) => {
                let mut s = String::from_str("canvas is too big: { Width(");
                s.append(uint_to_string(*w as u64).as_str());
                s.append("), Height(");
                s.append(uint_to_string(*h as u64).as_str());
                s.append(") }");
                s
            },
        }
    }
}

} // verus!
