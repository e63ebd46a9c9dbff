//! Undoing a transcription that came out an octave too high.

use crate::decode::types::{valid_contour, valid_pitch, Contour, Pitch};
use crate::ff_config::MIDI_LOW;
use vstd::prelude::*;

verus! {

/// A contour is shrill if enough of its pitches reach this one (E5, the open E of a fiddle).
pub const SHRILL_THRESHOLD_PITCH: u32 = 76;

/// How many of the first `upto` pitches lie below `threshold`.
pub open spec fn count_below(contour: Seq<Pitch>, threshold: Pitch, upto: nat) -> nat
    decreases upto,
{
    if upto == 0 {
        0
    } else {
        count_below(contour, threshold, (upto - 1) as nat) + if contour[upto - 1] < threshold {
            1nat
        } else {
            0nat
        }
    }
}

/// The place, among the pitches in rising order, of the pitch that decides:
/// fifteen hundredths of the way up, to the nearest place, a half counting downward.
pub open spec fn decision_index(len: nat) -> nat {
    (3 * len + 9) / 20
}

/// Whether the contour is shrill: the deciding pitch reaches the threshold,
/// which is to say that no more pitches lie below the threshold than places lie below the deciding one.
pub open spec fn is_shrill(contour: Seq<Pitch>) -> bool {
    count_below(contour, SHRILL_THRESHOLD_PITCH, contour.len()) <= decision_index(contour.len())
}

/// A pitch an octave lower, unless that would leave it at or below the octave above the lowest pitch.
pub open spec fn lowered(pitch: Pitch) -> Pitch {
    if pitch > MIDI_LOW + 12 {
        (pitch - 12) as u32
    } else {
        pitch
    }
}

/// The contour after correction: a shrill contour an octave lower, any other unchanged.
pub open spec fn corrected(contour: Seq<Pitch>) -> Seq<Pitch> {
    if is_shrill(contour) {
        Seq::new(contour.len(), |i: int| lowered(contour[i]))
    } else {
        contour
    }
}

/// Lowers a contour by an octave if it is shrill, as solo tin whistle
/// tends to be transcribed.
pub fn correct_contour_octave(contour: &mut Contour)
    requires
        old(contour)@.len() > 0,
    ensures
        final(contour)@ == corrected(old(contour)@),
        valid_contour(old(contour)@) ==> valid_contour(final(contour)@),
{
    let len = contour.len();
    let mut below: usize = 0;
    let mut i: usize = 0;
    while i < len
        invariant
            i <= len,
            len == contour@.len(),
            contour@ == old(contour)@,
            below == count_below(contour@, SHRILL_THRESHOLD_PITCH, i as nat),
            below <= i,
        decreases len - i,
    {
        if contour[i] < SHRILL_THRESHOLD_PITCH {
            below = below + 1;
        }
        i += 1;
    }
    let decision: u128 = (3 * len as u128 + 9) / 20;
    if below as u128 <= decision {
        let mut i: usize = 0;
        while i < len
            invariant
                i <= len,
                len == contour@.len(),
                len == old(contour)@.len(),
                forall|j: int| 0 <= j < i ==> (#[trigger] contour@[j]) == lowered(old(contour)@[j]),
                forall|j: int| i <= j < len ==> (#[trigger] contour@[j]) == old(contour)@[j],
            decreases len - i,
        {
            let pitch = contour[i];
            if pitch > MIDI_LOW + 12 {
                contour.set(i, pitch - 12);
            }
            i += 1;
        }
        assert(contour@ =~= corrected(old(contour)@));
    }
    proof {
        if valid_contour(old(contour)@) {
            assert forall|j: int| 0 <= j < contour@.len() implies valid_pitch(
                #[trigger] contour@[j],
            ) by {
                assert(valid_pitch(old(contour)@[j]));
            }
        }
    }
}

} // verus!
