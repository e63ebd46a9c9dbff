//! Records of a set of recordings with known tunes, for measuring how well tunes are found.

use vstd::prelude::*;

verus! {

/// A recording and the tune that is played on it.
#[derive(Debug, Clone)]
pub struct TranscriptionRecord {
    pub rel_path: String,
    pub tune_id: u32,
    pub name: String,
    pub transcription: String,
}

/// A recording, the tune that is played on it, and the place at which a query found that tune.
#[derive(Debug, Clone)]
pub struct TranscriptionRecordRanked {
    pub rel_path: String,
    pub tune_id: u32,
    pub name: String,
    pub transcription: String,
    pub rank: usize,
}

} // verus!
