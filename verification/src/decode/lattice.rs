//! The best pitch at every frame, found by dynamic programming over pitch and time.

use crate::decode::contour::valid_lattice_path;
use crate::decode::pitch_model::{pitch_score, PitchModel, SCORE_MAX};
use crate::decode::types::LatticePath;
use crate::decode::DecoderError;
use crate::feature::normalise::{energy_by_frame, is_normalised, lemma_energy_bounds, normalise};
use crate::feature::types::{
    energy_upto, frame_energy, total_energy, valid_features, valid_frame, Features, Frame,
};
use crate::ff_config::{ENERGY_MAX, FRAMES_MAX};
use vstd::prelude::*;

verus! {

/// The best score of arriving at pitch index `p` from one of the first `n`
/// pitch indices, whose scores so far are `prev`.
pub open spec fn best_transition(prev: Seq<int>, base: int, p: int, n: nat) -> int
    decreases n,
{
    if n <= 1 {
        prev[0] + pitch_score(base, p)
    } else {
        let rest = best_transition(prev, base, p, (n - 1) as nat);
        let last = prev[n - 1] + pitch_score(base, p - (n - 1));
        if last > rest {
            last
        } else {
            rest
        }
    }
}

/// Row `t` of the lattice: for each pitch index the score of the best path
/// that ends there at frame `t`. The first row is the first frame; every
/// later row adds the frame's energy to the best transition from the row before.
pub open spec fn lattice_row(features: Seq<Frame>, base: int, t: nat) -> Seq<int>
    decreases t,
{
    if t == 0 {
        Seq::new(48, |p: int| features[0][p] as int)
    } else {
        let prev = lattice_row(features, base, (t - 1) as nat);
        Seq::new(48, |p: int| best_transition(prev, base, p, 48) + features[t as int][p])
    }
}

/// Whether `i` is the index of the largest entry of `row`, the last such index if several tie.
pub open spec fn is_last_argmax(row: Seq<int>, i: int) -> bool {
    &&& 0 <= i < row.len()
    &&& forall|j: int| 0 <= j < row.len() ==> (#[trigger] row[j]) <= row[i]
    &&& forall|j: int| i < j < row.len() ==> (#[trigger] row[j]) < row[i]
}

/// Whether `path` takes, at every frame of `features`, the best pitch index of that frame's row.
pub open spec fn is_lattice_path(features: Seq<Frame>, base: int, path: Seq<usize>) -> bool {
    &&& path.len() == features.len()
    &&& forall|t: int|
        0 <= t < path.len() ==> is_last_argmax(
            lattice_row(features, base, t as nat),
            (#[trigger] path[t]) as int,
        )
}

/// Largest magnitude by which a score can grow from one frame to the next.
pub open spec fn step_bound() -> int {
    ENERGY_MAX + SCORE_MAX
}

/// Whether `row` has one entry per pitch, each of magnitude at most `k` steps.
pub open spec fn row_within(row: Seq<int>, k: int) -> bool {
    &&& row.len() == 48
    &&& forall|p: int|
        0 <= p < 48 ==> -k * step_bound() <= (#[trigger] row[p]) <= k * step_bound()
}

/// A weighted interval score stays within `SCORE_MAX`.
pub proof fn lemma_pitch_score_bound(base: int, interval: int)
    requires
        -SCORE_MAX <= base <= SCORE_MAX,
    ensures
        -SCORE_MAX <= pitch_score(base, interval) <= SCORE_MAX,
{
}

/// The best transition is one of the candidates, so it moves at most `SCORE_MAX` away from the row before.
pub proof fn lemma_best_transition_bound(prev: Seq<int>, base: int, p: int, n: nat, k: int)
    requires
        row_within(prev, k),
        -SCORE_MAX <= base <= SCORE_MAX,
        1 <= n <= 48,
        0 <= k,
    ensures
        -k * step_bound() - SCORE_MAX <= best_transition(prev, base, p, n) <= k * step_bound()
            + SCORE_MAX,
    decreases n,
{
    lemma_pitch_score_bound(base, p - (n - 1));
    lemma_pitch_score_bound(base, p);
    if n > 1 {
        lemma_best_transition_bound(prev, base, p, (n - 1) as nat, k);
    }
}

/// Row `t` of the lattice of a valid buffer has magnitude at most `t + 1` steps.
pub proof fn lemma_lattice_row_bound(features: Seq<Frame>, base: int, t: nat)
    requires
        valid_features(features),
        t < features.len(),
        -SCORE_MAX <= base <= SCORE_MAX,
    ensures
        row_within(lattice_row(features, base, t), (t + 1) as int),
    decreases t,
{
    let row = lattice_row(features, base, t);
    if t == 0 {
        assert forall|p: int| 0 <= p < 48 implies -1 * step_bound() <= (#[trigger] row[p]) <= 1
            * step_bound() by {
            assert(valid_frame(features[0]));
            assert(features[0][p] <= ENERGY_MAX);
        }
    } else {
        let prev = lattice_row(features, base, (t - 1) as nat);
        lemma_lattice_row_bound(features, base, (t - 1) as nat);
        assert forall|p: int| 0 <= p < 48 implies -(t + 1) * step_bound() <= (#[trigger] row[p])
            <= (t + 1) * step_bound() by {
            lemma_best_transition_bound(prev, base, p, 48, t as int);
            assert(valid_frame(features[t as int]));
            assert(features[t as int][p] <= ENERGY_MAX);
            assert((t + 1) * step_bound() == t * step_bound() + step_bound())
                by (nonlinear_arith);
        }
    }
}

/// The index of the largest entry of `row`, the last one if several tie.
fn last_argmax(row: &Vec<i64>) -> (best: usize)
    requires
        row@.len() == 48,
    ensures
        is_last_argmax(row@.map_values(|v: i64| v as int), best as int),
{
    let ghost ints = row@.map_values(|v: i64| v as int);
    let mut best: usize = 0;
    let mut p: usize = 1;
    while p < 48
        invariant
            1 <= p <= 48,
            best < p,
            row@.len() == 48,
            ints == row@.map_values(|v: i64| v as int),
            forall|j: int| 0 <= j < p ==> (#[trigger] ints[j]) <= ints[best as int],
            forall|j: int| best < j < p ==> (#[trigger] ints[j]) < ints[best as int],
        decreases 48 - p,
    {
        if row[p] >= row[best] {
            best = p;
        }
        p += 1;
    }
    best
}

/// The next row of the lattice from the row before and the frame's energies.
fn next_row(prev: &Vec<i64>, frame: &Frame, pitch_model: &PitchModel, Ghost(k): Ghost<int>) -> (row:
    Vec<i64>)
    requires
        pitch_model.wf(),
        valid_frame(*frame),
        row_within(prev@.map_values(|v: i64| v as int), k),
        1 <= k <= FRAMES_MAX,
    ensures
        row@.len() == 48,
        forall|p: int|
            0 <= p < 48 ==> (#[trigger] row@[p]) == best_transition(
                prev@.map_values(|v: i64| v as int),
                pitch_model.base(),
                p,
                48,
            ) + frame[p],
{
    let ghost ints = prev@.map_values(|v: i64| v as int);
    let ghost base = pitch_model.base();
    let mut row: Vec<i64> = Vec::new();
    let mut p: usize = 0;
    proof {
        pitch_model.lemma_base_bound();
        assert(k * step_bound() <= FRAMES_MAX * step_bound()) by (nonlinear_arith)
            requires
                k <= FRAMES_MAX,
                step_bound() >= 0,
        ;
    }
    while p < 48
        invariant
            p <= 48,
            pitch_model.wf(),
            base == pitch_model.base(),
            -SCORE_MAX <= base <= SCORE_MAX,
            valid_frame(*frame),
            ints == prev@.map_values(|v: i64| v as int),
            row_within(ints, k),
            1 <= k <= FRAMES_MAX,
            k * step_bound() <= FRAMES_MAX * step_bound(),
            row@.len() == p,
            forall|j: int|
                0 <= j < p ==> (#[trigger] row@[j]) == best_transition(ints, base, j, 48)
                    + frame[j],
        decreases 48 - p,
    {
        assert(ints[0] == prev@[0]);
        let first_interval: i32 = p as i32;
        let mut best: i64 = prev[0] + pitch_model.score(&first_interval);
        let mut q: usize = 1;
        while q < 48
            invariant
                1 <= q <= 48,
                p < 48,
                pitch_model.wf(),
                base == pitch_model.base(),
                -SCORE_MAX <= base <= SCORE_MAX,
                ints == prev@.map_values(|v: i64| v as int),
                row_within(ints, k),
                1 <= k <= FRAMES_MAX,
                k * step_bound() <= FRAMES_MAX * step_bound(),
                best == best_transition(ints, base, p as int, q as nat),
            decreases 48 - q,
        {
            assert(ints[q as int] == prev@[q as int]);
            let interval: i32 = p as i32 - q as i32;
            let candidate: i64 = prev[q] + pitch_model.score(&interval);
            if candidate > best {
                best = candidate;
            }
            q += 1;
        }
        proof {
            lemma_best_transition_bound(ints, base, p as int, 48, k);
        }
        assert(frame[p as int] <= ENERGY_MAX);
        row.push(best + frame[p] as i64);
        p += 1;
    }
    row
}

/// Normalises `features` and finds the best pitch index of every frame.
///
/// Fails when the buffer holds no energy at all (an empty buffer holds none),
/// and, once the energy has been normalised, when fewer than five frames are there.
pub fn decode(features: &mut Features, pitch_model: &PitchModel) -> (result: Result<
    LatticePath,
    DecoderError,
>)
    requires
        valid_features(old(features)@),
        pitch_model.wf(),
    ensures
        result is Err <==> total_energy(old(features)@) == 0 || old(features)@.len() < 5,
        total_energy(old(features)@) == 0 ==> final(features)@ == old(features)@,
        total_energy(old(features)@) != 0 ==> is_normalised(old(features)@, final(features)@),
        valid_features(final(features)@),
        result matches Ok(path) ==> is_lattice_path(final(features)@, pitch_model.base(), path@),
        result matches Ok(path) ==> valid_lattice_path(path@),
{
    let energies = energy_by_frame(features);
    let mut total: u128 = 0;
    let mut t: usize = 0;
    while t < energies.len()
        invariant
            t <= energies@.len(),
            energies@.len() == features@.len(),
            valid_features(features@),
            forall|u: int|
                0 <= u < energies@.len() ==> (#[trigger] energies@[u])
                    == frame_energy(features@[u]),
            total == energy_upto(features@, t as nat),
            total <= t * (48 * ENERGY_MAX),
        decreases energies@.len() - t,
    {
        proof {
            lemma_energy_bounds(features@, (t + 1) as nat);
            assert(t * (48 * ENERGY_MAX) <= FRAMES_MAX * (48 * ENERGY_MAX)) by (nonlinear_arith)
                requires
                    t <= FRAMES_MAX,
            ;
        }
        total = total + energies[t] as u128;
        t += 1;
    }
    if total == 0 {
        return Err(DecoderError);
    }
    normalise(features, &energies);
    if features.len() < 5 {
        return Err(DecoderError);
    }
    let ghost base = pitch_model.base();
    proof {
        pitch_model.lemma_base_bound();
    }
    let n = features.len();
    let mut path: Vec<usize> = Vec::new();
    let mut row: Vec<i64> = Vec::new();
    let mut p: usize = 0;
    while p < 48
        invariant
            p <= 48,
            n == features@.len(),
            n >= 5,
            valid_features(features@),
            row@.len() == p,
            forall|j: int| 0 <= j < p ==> (#[trigger] row@[j]) == features@[0][j],
        decreases 48 - p,
    {
        assert(valid_frame(features@[0]));
        assert(features@[0][p as int] <= ENERGY_MAX);
        row.push(features[0][p] as i64);
        p += 1;
    }
    assert(row@.map_values(|v: i64| v as int) =~= lattice_row(features@, base, 0));
    let first = last_argmax(&row);
    path.push(first);
    let mut t: usize = 1;
    while t < n
        invariant
            1 <= t <= n,
            n == features@.len(),
            n <= FRAMES_MAX,
            valid_features(features@),
            pitch_model.wf(),
            base == pitch_model.base(),
            -SCORE_MAX <= base <= SCORE_MAX,
            row@.len() == 48,
            row@.map_values(|v: i64| v as int) == lattice_row(features@, base, (t - 1) as nat),
            path@.len() == t,
            forall|u: int|
                0 <= u < t ==> is_last_argmax(
                    lattice_row(features@, base, u as nat),
                    (#[trigger] path@[u]) as int,
                ),
        decreases n - t,
    {
        proof {
            lemma_lattice_row_bound(features@, base, (t - 1) as nat);
            lemma_lattice_row_bound(features@, base, t as nat);
        }
        assert(valid_frame(features@[t as int]));
        let next = next_row(&row, &features[t], pitch_model, Ghost(t as int));
        assert(next@.map_values(|v: i64| v as int) =~= lattice_row(features@, base, t as nat));
        let best = last_argmax(&next);
        path.push(best);
        row = next;
        t += 1;
    }
    Ok(path)
}

} // verus!
