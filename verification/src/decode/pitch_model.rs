//! How likely a melody is to move by a given interval.

use crate::decode::types::PitchInterval;
use crate::ff_config::PITCH_MODEL_WEIGHT;
use vstd::prelude::*;

verus! {

/// Score, before weighting, of every interval outside the tabulated octave either way.
pub const UNTABULATED_SCORE: i64 = -300_000;

/// Largest magnitude of a weighted score.
pub const SCORE_MAX: i64 = 0x1_0000_0000;

/// Log-likelihood of a move by `interval` semitones, in ten-thousandths, before weighting.
/// A move by zero semitones is no transition and has no entry of its own.
pub open spec fn tabulated_score(interval: int) -> int {
    if interval == -12 {
        -26399
    } else if interval == -11 {
        -43941
    } else if interval == -10 {
        -29723
    } else if interval == -9 {
        -21666
    } else if interval == -8 {
        -23065
    } else if interval == -7 {
        -11626
    } else if interval == -6 {
        -37312
    } else if interval == -5 {
        -6308
    } else if interval == -4 {
        -6756
    } else if interval == -3 {
        -3947
    } else if interval == -2 {
        -2396
    } else if interval == -1 {
        -13759
    } else if interval == 1 {
        -13005
    } else if interval == 2 {
        0
    } else if interval == 3 {
        -3356
    } else if interval == 4 {
        -5968
    } else if interval == 5 {
        -3042
    } else if interval == 6 {
        -30499
    } else if interval == 7 {
        -12219
    } else if interval == 8 {
        -24878
    } else if interval == 9 {
        -27728
    } else if interval == 10 {
        -35722
    } else if interval == 11 {
        -51491
    } else if interval == 12 {
        -34140
    } else {
        UNTABULATED_SCORE as int
    }
}

/// Weighted score of a move by `interval` semitones, in millionths of a unit of energy,
/// where staying on the same pitch scores `base_energy_score`.
pub open spec fn pitch_score(base_energy_score: int, interval: int) -> int {
    if interval == 0 {
        base_energy_score
    } else {
        tabulated_score(interval) * PITCH_MODEL_WEIGHT
    }
}

/// The interval scores, weighted and ready to be looked up.
pub struct PitchModel {
    scores: Vec<i64>,
    all_other_scores: i64,
    base_energy_score: i64,
}

impl PitchModel {
    /// The table holds the weighted score of every interval of at most an octave.
    pub closed spec fn wf(&self) -> bool {
        &&& self.scores@.len() == 25
        &&& forall|k: int|
            0 <= k < 25 && k != 12 ==> (#[trigger] self.scores@[k]) == tabulated_score(k - 12)
                * PITCH_MODEL_WEIGHT
        &&& self.all_other_scores == UNTABULATED_SCORE * PITCH_MODEL_WEIGHT
        &&& -SCORE_MAX <= self.base_energy_score <= SCORE_MAX
    }

    /// The score of staying on the same pitch.
    pub closed spec fn base(&self) -> int {
        self.base_energy_score as int
    }

    /// Builds the model; `base_energy_score` is the score of staying on the same pitch,
    /// in millionths of a unit of energy.
    pub fn new(base_energy_score: i32) -> (model: PitchModel)
        ensures
            model.wf(),
            model.base() == base_energy_score,
    {
        let base_scores: Vec<i64> = vec![
            -26399, -43941, -29723, -21666, -23065, -11626, -37312, -6308, -6756, -3947, -2396,
            -13759, 0, -13005, 0, -3356, -5968, -3042, -30499, -12219, -24878, -27728, -35722,
            -51491, -34140,
        ];
        let mut scores: Vec<i64> = Vec::new();
        let mut k: usize = 0;
        while k < 25
            invariant
                k <= 25,
                base_scores@.len() == 25,
                scores@.len() == k,
                forall|j: int|
                    0 <= j < 25 && j != 12 ==> (#[trigger] base_scores@[j]) == tabulated_score(
                        j - 12,
                    ),
                base_scores@[12] == 0,
                forall|j: int|
                    0 <= j < k ==> (#[trigger] scores@[j]) == base_scores@[j] * PITCH_MODEL_WEIGHT,
            decreases 25 - k,
        {
            assert(-300_000 <= base_scores@[k as int] <= 0);
            scores.push(base_scores[k] * PITCH_MODEL_WEIGHT);
            k += 1;
        }
        PitchModel {
            scores,
            all_other_scores: UNTABULATED_SCORE * PITCH_MODEL_WEIGHT,
            base_energy_score: base_energy_score as i64,
        }
    }

    /// The score of staying on the same pitch is within `SCORE_MAX`.
    pub proof fn lemma_base_bound(&self)
        requires
            self.wf(),
        ensures
            -SCORE_MAX <= self.base() <= SCORE_MAX,
    {
    }

    /// The weighted score of a move by `interval` semitones.
    pub fn score(&self, interval: &PitchInterval) -> (s: i64)
        requires
            self.wf(),
        ensures
            s == pitch_score(self.base(), *interval as int),
            -SCORE_MAX <= s <= SCORE_MAX,
    {
        let interval: i32 = *interval;
        if interval == 0 {
            self.base_energy_score
        } else if -12 <= interval && interval <= 12 {
            let k: usize = (interval + 12) as usize;
            assert(self.scores@[k as int] == tabulated_score(k - 12) * PITCH_MODEL_WEIGHT);
            self.scores[k]
        } else {
            self.all_other_scores
        }
    }
}

} // verus!
