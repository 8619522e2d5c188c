//! Size hint for encoded objects

use vstd::prelude::*;
use crate::text::{encode_utf16_units, utf16_encode};
use vstd::string::is_ascii;

verus! {

/// Trait for calculated the size of the encoded object
pub trait SizeHint {
    /// The size of the encoded object in bytes.
    spec fn spec_size_hint(&self) -> int;

    /// Return the size of the encoded object in bytes. WZ files cannot be larger than `u32::MAX`
    /// but a `u64` is returned here so the error can be thrown later.
    fn size_hint(&self) -> (r: u64)
        requires
            0 <= self.spec_size_hint() <= u64::MAX,
        ensures
            r == self.spec_size_hint(),
    ;
}

impl SizeHint for i8 {
    open spec fn spec_size_hint(&self) -> int {
        1
    }

    fn size_hint(&self) -> (r: u64) {
        1
    }
}

impl SizeHint for i16 {
    open spec fn spec_size_hint(&self) -> int {
        2
    }

    fn size_hint(&self) -> (r: u64) {
        2
    }
}

impl SizeHint for i32 {
    open spec fn spec_size_hint(&self) -> int {
        4
    }

    fn size_hint(&self) -> (r: u64) {
        4
    }
}

impl SizeHint for i64 {
    open spec fn spec_size_hint(&self) -> int {
        8
    }

    fn size_hint(&self) -> (r: u64) {
        8
    }
}

impl SizeHint for u8 {
    open spec fn spec_size_hint(&self) -> int {
        1
    }

    fn size_hint(&self) -> (r: u64) {
        1
    }
}

impl SizeHint for u16 {
    open spec fn spec_size_hint(&self) -> int {
        2
    }

    fn size_hint(&self) -> (r: u64) {
        2
    }
}

impl SizeHint for u32 {
    open spec fn spec_size_hint(&self) -> int {
        4
    }

    fn size_hint(&self) -> (r: u64) {
        4
    }
}

impl SizeHint for u64 {
    open spec fn spec_size_hint(&self) -> int {
        8
    }

    fn size_hint(&self) -> (r: u64) {
        8
    }
}

/// The size hint of a string with characters `chars`: a zero byte for the empty string;
/// otherwise the marker (one byte, or five with the long length) and the body, which is the
/// UTF-8 bytes for an ASCII string and two bytes for each UTF-16 unit otherwise.
pub open spec fn spec_str_size_hint(chars: Seq<char>) -> int {
    let length = vstd::utf8::encode_utf8(chars).len() as int;
    if length == 0 {
        1
    } else if vstd::utf8::is_ascii_chars(chars) {
        if length > 127 {
            5 + length
        } else {
            1 + length
        }
    } else {
        let units = utf16_encode(chars).len() as int;
        if units >= 127 {
            5 + (units * 2)
        } else {
            1 + (units * 2)
        }
    }
}

impl<'a> SizeHint for &'a str {
    open spec fn spec_size_hint(&self) -> int {
        spec_str_size_hint(self@)
    }

    fn size_hint(&self) -> (r: u64) {
        let length = self.as_bytes().len() as u64;
        if length == 0 {
            return 1;
        }
        if self.is_ascii() {
            if length > 127 {
                5 + length
            } else {
                1 + length
            }
        } else {
            let units = encode_utf16_units(self).len() as u64;
            if units >= 127 {
                5 + (units * 2)
            } else {
                1 + (units * 2)
            }
        }
    }
}

impl SizeHint for String {
    open spec fn spec_size_hint(&self) -> int {
        spec_str_size_hint(self@)
    }

    fn size_hint(&self) -> (r: u64) {
        self.as_str().size_hint()
    }
}

} // verus!
