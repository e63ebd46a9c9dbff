//! Frames of semitone energies and what is done to them before decoding.

pub mod normalise;
pub mod postprocess;
pub mod signal;
pub mod types;

use crate::feature::postprocess::{
    energy_sum, fold_octaves, folded, lemma_entry_within_sum, lemma_frame_energy_is_sum,
    retain_top_k, top_entries,
};
use crate::feature::types::{
    frame_energy, frame_energy_upto, valid_features, valid_frame, Features, Frame,
};
use crate::ff_config::{ENERGY_MAX, FRAMES_MAX, RETAINED_FEATURES_PER_FRAME, SPEC_WINDOW_SIZE};
use vstd::prelude::*;

verus! {

/// The entries of a frame after octave folding and noise filtering.
pub open spec fn processed(entries: Seq<u64>) -> Seq<u64> {
    top_entries(folded(entries), RETAINED_FEATURES_PER_FRAME as nat)
}

/// Whether a frame of total energy `energy` can join a buffer of `frames` frames.
pub open spec fn frame_accepted(energy: int, frames: nat) -> bool {
    energy <= ENERGY_MAX && frames < FRAMES_MAX
}

/// How many whole windows a signal of `samples` samples holds; what is left
/// over at the end is not analysed.
pub fn window_count(samples: usize) -> (windows: usize)
    ensures
        windows == samples / SPEC_WINDOW_SIZE,
{
    samples / SPEC_WINDOW_SIZE
}

/// The total energy of a frame, if it does not exceed `ENERGY_MAX`.
fn bounded_energy(frame: &Frame) -> (energy: Option<u64>)
    ensures
        match energy {
            Some(e) => e == frame_energy(*frame) && e <= ENERGY_MAX,
            None => frame_energy(*frame) > ENERGY_MAX,
        },
{
    let mut sum: u64 = 0;
    let mut p: usize = 0;
    while p < 48
        invariant
            p <= 48,
            sum == frame_energy_upto(*frame, p as nat),
            sum <= ENERGY_MAX,
        decreases 48 - p,
    {
        if frame[p] > ENERGY_MAX - sum {
            proof {
                lemma_energy_grows(*frame, (p + 1) as nat, 48);
            }
            return None;
        }
        sum = sum + frame[p];
        p += 1;
    }
    Some(sum)
}

/// The sum of a longer prefix of a frame is no smaller.
pub proof fn lemma_energy_grows(frame: Frame, n: nat, m: nat)
    requires
        n <= m <= 48,
    ensures
        frame_energy_upto(frame, n)
            <= frame_energy_upto(frame, m),
    decreases m - n,
{
    if n < m {
        lemma_energy_grows(frame, n, (m - 1) as nat);
    }
}

/// Folds and filters a frame of interpolated energies and appends it to the buffer.
///
/// The frame is refused, and the buffer left as it is, when the frame's
/// total energy exceeds `ENERGY_MAX` or the buffer already holds `FRAMES_MAX` frames.
pub fn feed_frame(features: &mut Features, frame: &Frame) -> (accepted: bool)
    requires
        valid_features(old(features)@),
    ensures
        accepted == frame_accepted(frame_energy(*frame), old(features)@.len()),
        accepted ==> final(features)@.len() == old(features)@.len() + 1,
        accepted ==> final(features)@.subrange(0, old(features)@.len() as int) == old(features)@,
        accepted ==> final(features)@.last()@ == processed(frame@),
        !accepted ==> final(features)@ == old(features)@,
        valid_features(final(features)@),
{
    if features.len() >= FRAMES_MAX {
        return false;
    }
    let energy = match bounded_energy(frame) {
        None => {
            return false;
        },
        Some(energy) => energy,
    };
    let folded_frame = fold_octaves(frame);
    let kept = retain_top_k(&folded_frame);
    proof {
        lemma_frame_energy_is_sum(folded_frame, 48);
        lemma_entry_within_sum(folded_frame@, 48);
        assert forall|p: int| 0 <= p < 48 implies (#[trigger] kept[p]) <= ENERGY_MAX by {
            assert(kept@[p] == top_entries(folded_frame@, RETAINED_FEATURES_PER_FRAME as nat)[p]);
            assert(folded_frame@[p] <= energy_sum(folded_frame@, 48));
        }
    }
    let ghost before = features@;
    features.push(kept);
    assert(features@.subrange(0, before.len() as int) =~= before);
    assert forall|t: int| 0 <= t < features@.len() implies valid_frame(#[trigger] features@[t]) by {
        if t < before.len() {
            assert(features@[t] == before[t]);
        }
    }
    true
}

/// Empties the buffer.
pub fn flush(features: &mut Features)
    ensures
        final(features)@.len() == 0,
        valid_features(final(features)@),
{
    features.clear();
}

} // verus!
