//! Which sample rates the analysis can work with.

use crate::ff_config::{SAMPLE_RATE_MAX, SAMPLE_RATE_MIN};
use vstd::prelude::*;

verus! {

/// The sample rate lies outside the range the analysis supports.
#[derive(Debug, Clone, Copy, PartialEq, Eq, Structural)]
pub struct SampleRateError;

impl SampleRateError {
    /// What to tell the user.
    pub fn message(&self) -> (text: String)
        ensures
            text@ == "Invalid sample rate"@,
    {
        "Invalid sample rate".to_owned()
    }
}

/// Whether the analysis supports `sample_rate`: the shortest lag must reach
/// `MIDI_HIGH` and the longest lag of a window must reach `MIDI_LOW`.
pub open spec fn sample_rate_supported(sample_rate: u32) -> bool {
    SAMPLE_RATE_MIN <= sample_rate <= SAMPLE_RATE_MAX
}

/// Tells whether the analysis supports `sample_rate`.
pub fn validate_sample_rate(sample_rate: &u32) -> (ok: bool)
    ensures
        ok == sample_rate_supported(*sample_rate),
{
    SAMPLE_RATE_MIN <= *sample_rate && *sample_rate <= SAMPLE_RATE_MAX
}

} // verus!
