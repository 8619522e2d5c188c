//! Package Error Types

use crate::text::{decimal_chars, uint_to_string};
use vstd::prelude::*;

verus! {

/// Possible package errors
#[derive(Debug)]
pub enum PackageError {
    /// Brute forcing the checksum failed
    BruteForceChecksum,
    ///  checksum
    Checksum,
    /// Content Type is unknown
    ContentType(u8),
    ///  header
    Header,
    ///  Path
    Path(String),
    /// Multiple Roots
    MultipleRoots,
}

/// The displayed text of a package error.
pub open spec fn package_error_text(e: PackageError) -> Seq<char> {
    match e {
        PackageError::BruteForceChecksum => "Brute force of the checksum failed"@,
        PackageError::ContentType(t) => "Unknown content type: `"@ + decimal_chars(t as nat) + "`"@,
        PackageError::Checksum => "Invalid version checksum"@,
        PackageError::Header => "Invalid WZ archive header"@,
        PackageError::Path(p) => "Invalid path name: `"@ + p@ + "`"@,
        PackageError::MultipleRoots => "A WZ archive can only have 1 root"@,
    }
}

impl PackageError {
    /// The displayed text of the error
    pub fn to_string(&self) -> (r: String)
        ensures
            r@ == package_error_text(*self),
    {
        match self {
            PackageError::BruteForceChecksum => String::from_str("Brute force of the checksum failed"),
            PackageError::ContentType(t) => {
                let mut s = String::from_str("Unknown content type: `");
                s.append(uint_to_string(*t as u64).as_str());
                s.append("`");
                s
            },
            PackageError::Checksum => String::from_str("Invalid version checksum"),
            PackageError::Header => String::from_str("Invalid WZ archive header"),
            PackageError::Path(p) => {
                let mut s = String::from_str("Invalid path name: `");
                s.append(p.as_str());
                s.append("`");
                s
            },
            PackageError::MultipleRoots => String::from_str("A WZ archive can only have 1 root"),
        }
    }
}

} // verus!
