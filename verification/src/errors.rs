//! Error taxonomy of the generation pipeline. Every error is terminal for the
//! run that raised it; there is no retry layer.

use vstd::prelude::*;

verus! {

/// What can go wrong along the generation path.
#[derive(Clone, Copy, Debug, PartialEq, Eq, Structural)]
pub enum GenError {
    /// A source row had zero fields.
    EmptyRow,
    /// No catalog voice matched the requested identifier and capability.
    VoiceNotFound,
    /// A catalog voice matched the requested identifier but lacked a field
    /// needed to describe it.
    InvalidVoice,
    /// The voice catalog query returned no voice data at all.
    NoVoices,
    /// An individual synthesis call failed or returned no audio payload.
    SynthesisFailed,
    /// A surviving work item's sentence fingerprint had no synthesis result:
    /// a bookkeeping defect, reported with the offending fingerprint.
    MissingResult(u64),
}

} // verus!
