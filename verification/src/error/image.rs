//! Image Error Types

use crate::text::{decimal_chars, uint_to_string};
use vstd::prelude::*;

verus! {

/// Possible image errors
#[derive(Debug)]
pub enum ImageError {
    /// The Image root must be a property
    ImageRoot,
    /// Image name mismatch
    Name(String, String),
    /// Unknown Object Type
    ObjectType(String),
    /// Path
    Path(String),
    /// Cannot construct property
    Property(String),
    /// Unknown Property Type
    PropertyType(u8),
    /// Unknown UOL type
    UolType(u8),
    /// Error parsing value from string
    Value(String),
}

/// The displayed text of an image error.
pub open spec fn image_error_text(e: ImageError) -> Seq<char> {
    match e {
        ImageError::ImageRoot => "The root of the image is not a property"@,
        ImageError::Name(e, v) => "Expected the image to be called "@ + e@ + ", found "@ + v@,
        ImageError::ObjectType(t) => "Unknown Object type: `"@ + t@ + "`"@,
        ImageError::Path(p) => "Invalid path: `"@ + p@ + "`"@,
        ImageError::Property(s) => "Cannot construct property: `"@ + s@ + "`"@,
        ImageError::PropertyType(t) => "Unknown Property type: `"@ + decimal_chars(t as nat) + "`"@,
        ImageError::UolType(t) => "Unknown UOL type: `"@ + decimal_chars(t as nat) + "`"@,
        ImageError::Value(s) => "Value cannot be parsed: `"@ + s@ + "`"@,
    }
}

/// `head`, then `body`, then a closing backquote.
fn quoted(head: &str, body: &str) -> (r: String)
    ensures
        r@ == head@ + body@ + "`"@,
{
    let mut s = String::from_str(head);
    s.append(body);
    s.append("`");
    s
}

impl ImageError {
    /// The displayed text of the error
    pub fn to_string(&self) -> (r: String)
        ensures
            r@ == image_error_text(*self),
    {
        match self {
            ImageError::ImageRoot => String::from_str("The root of the image is not a property"),
            ImageError::Name(e, v) => {
                let mut s = String::from_str("Expected the image to be called ");
                s.append(e.as_str());
                s.append(", found ");
                s.append(v.as_str());
                s
            },
            ImageError::ObjectType(t) => quoted("Unknown Object type: `", t.as_str()),
            ImageError::Path(p) => quoted("Invalid path: `", p.as_str()),
            ImageError::Property(p) => quoted("Cannot construct property: `", p.as_str()),
            ImageError::PropertyType(t) => quoted(
                "Unknown Property type: `",
                uint_to_string(*t as u64).as_str(),
            ),
            ImageError::UolType(t) => quoted(
                "Unknown UOL type: `",
                uint_to_string(*t as u64).as_str(),
            ),
            ImageError::Value(v) => quoted("Value cannot be parsed: `", v.as_str()),
        }
    }
}

} // verus!
