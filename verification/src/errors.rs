//! Fatal error conditions of the pipeline.
//!
//! Estimation failures (an unvoiced frame, too few pitch periods) are not
//! errors: they flow through as absent values and end as empty output cells.
//! Only structural problems of the input or the configuration abort a run.

use vstd::prelude::*;

verus! {

/// A fatal, input-level failure of one pipeline invocation.
#[derive(Clone, Copy, Debug, PartialEq, Eq, Structural)]
pub enum AudioError {
    /// The decoder reported zero channels or a zero sample rate.
    InvalidAudio,
    /// A chunk plan was requested with stride zero over a nonempty channel,
    /// which could never terminate.
    ZeroChunkStride,
}

impl AudioError {
    /// A fixed, human-readable description of the failure.
    pub fn describe(&self) -> (s: &'static str)
        ensures
            *self == AudioError::InvalidAudio ==> s@ == "invalid audio: zero channels or zero sample rate"@,
            *self == AudioError::ZeroChunkStride ==> s@ == "invalid chunk plan: chunk stride is zero"@,
    {
        match self {
            AudioError::InvalidAudio => "invalid audio: zero channels or zero sample rate",
            AudioError::ZeroChunkStride => "invalid chunk plan: chunk stride is zero",
        }
    }
}

} // verus!
