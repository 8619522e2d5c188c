//! Sound Errors

use vstd::prelude::*;

verus! {

/// Possible sound errors
#[derive(Debug)]
pub enum SoundError {
    /// Unknown audio format
    AudioFormat(u16),
    /// Extra header bytes do not add up
    ExtraLength(usize),
    /// The WAV header length is invalid
    WavHeaderLength(usize),
    /// Sound Header is invalid
    SoundHeader(Vec<u8>),
}

} // verus!
