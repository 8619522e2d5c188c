//! Reading and writing of WZ archives: the packed game-data format built from
//! obfuscated offsets, compressed integers and masked strings.

pub mod archive;
pub mod bytes;
pub mod canvas;
pub mod cipher;
pub mod content;
pub mod decode;
pub mod directory;
pub mod encode;
pub mod error;
pub mod file;
pub mod header;
pub mod roundtrip;
pub mod text;
pub mod types;

use vstd::prelude::*;

verus! {

} // verus!
