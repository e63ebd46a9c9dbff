//! Parameters shared by every stage of the pipeline.

use vstd::prelude::*;

verus! {

/// Version of the engine.
pub const VERSION: &'static str = "1.0.0";

/// Highest supported MIDI pitch (B6), inclusive.
pub const MIDI_HIGH: u32 = 95;

/// Lowest supported MIDI pitch (C2), inclusive.
pub const MIDI_LOW: u32 = 48;

/// Number of supported pitches.
pub const MIDI_NUM: u32 = 48;

/// Number of entries of a frame, as a length.
pub const FRAME_LEN: usize = 48;

/// Fine spectral bins computed per semitone before they are summed.
pub const SPEC_BINS_PER_MIDI: u32 = 3;

/// Number of fine spectral bins.
pub const SPEC_BINS_NUM: u32 = 144;

/// Samples in one analysis window.
pub const SPEC_WINDOW_SIZE: usize = 1024;

/// Lowest sample rate whose Nyquist frequency still covers `MIDI_HIGH`.
pub const SAMPLE_RATE_MIN: u32 = 3952;

/// Highest sample rate whose longest lag still covers `MIDI_LOW`.
pub const SAMPLE_RATE_MAX: u32 = 66_974;

/// The sample rate an engine starts with.
pub const SAMPLE_RATE_DEFAULT: u32 = 48_000;

/// Entries of a frame that survive noise filtering.
pub const RETAINED_FEATURES_PER_FRAME: u32 = 5;

/// Weight of the interval scores against the energies, in hundredths.
pub const PITCH_MODEL_WEIGHT: i64 = 12;

/// Weight of the note-length scores against the energies, in hundredths.
pub const TEMPO_MODEL_WEIGHT: i64 = 40;

/// Score of staying on a pitch from one frame to the next, in millionths of a unit of energy.
pub const BASE_ENERGY_SCORE: i32 = -100_000;

/// Least mean energy per frame of a note that counts, in millionths of a unit of energy.
pub const MIN_NOTE_POWER: u64 = 50_000;

/// Least number of frames of a note that counts.
pub const MIN_NOTE_DURATION: usize = 2;

/// Length of the n-grams taken from a contour query.
pub const QUERY_NGRAM_SIZE_CONTOUR: usize = 4;

/// Length of the n-grams taken from a name query.
pub const QUERY_NGRAM_SIZE_NAME: usize = 3;

/// Number of heuristic candidates that are aligned in full.
pub const QUERY_REPASS_SIZE: usize = 1200;

/// One unit of energy in the fixed-point representation of frames and scores.
pub const ENERGY_ONE: u64 = 1_000_000;

/// Largest energy a frame entry may hold.
pub const ENERGY_MAX: u64 = 0x100_0000_0000;

/// Largest number of frames a feature buffer may hold.
pub const FRAMES_MAX: usize = 0x10_0000;

/// The characters of a contour string, lowest pitch first.
pub open spec fn contour_alphabet() -> Seq<char> {
    seq![
        'a', 'b', 'c', 'd', 'e', 'f', 'g', 'h', 'i', 'j', 'k', 'l', 'm', 'n', 'o', 'p',
        'q', 'r', 's', 't', 'u', 'v', 'w', 'x', 'y', 'z', 'A', 'B', 'C', 'D', 'E', 'F',
        'G', 'H', 'I', 'J', 'K', 'L', 'M', 'N', 'O', 'P', 'Q', 'R', 'S', 'T', 'U', 'V',
    ]
}

} // verus!
