//! Bringing the energy of a buffer to one unit per frame on average.

use crate::feature::types::{
    energy_upto, frame_energy, frame_energy_upto, total_energy, valid_features, valid_frame,
    Features, Frame,
};
use crate::ff_config::{ENERGY_MAX, ENERGY_ONE, FRAMES_MAX};
use vstd::prelude::*;

verus! {

/// An entry `e` of a buffer of `frames` frames and total energy `total`, after
/// the buffer has been scaled to `ENERGY_ONE` per frame on average.
pub open spec fn normalised_entry(e: u64, frames: nat, total: int) -> int {
    (e * frames * ENERGY_ONE) / total
}

/// Whether `after` is `before` scaled to `ENERGY_ONE` per frame on average.
pub open spec fn is_normalised(before: Seq<Frame>, after: Seq<Frame>) -> bool {
    &&& after.len() == before.len()
    &&& forall|t: int, p: int|
        0 <= t < before.len() && 0 <= p < 48 ==> (#[trigger] after[t][p]) == normalised_entry(
            before[t][p],
            before.len(),
            total_energy(before),
        )
}

/// The sum of a prefix of a valid frame is bounded and grows with the prefix.
pub proof fn lemma_frame_energy_bounds(frame: Frame, n: nat)
    requires
        valid_frame(frame),
        n <= 48,
    ensures
        0 <= frame_energy_upto(frame, n) <= n * ENERGY_MAX,
        forall|p: int| 0 <= p < n ==> (#[trigger] frame[p]) <= frame_energy_upto(frame, n),
    decreases n,
{
    if n > 0 {
        lemma_frame_energy_bounds(frame, (n - 1) as nat);
    }
}

/// The energy of a prefix of a valid buffer is bounded and covers each of its frames.
pub proof fn lemma_energy_bounds(features: Seq<Frame>, n: nat)
    requires
        valid_features(features),
        n <= features.len(),
    ensures
        0 <= energy_upto(features, n) <= n * (48 * ENERGY_MAX),
        forall|t: int|
            0 <= t < n ==> frame_energy(#[trigger] features[t]) <= energy_upto(features, n),
    decreases n,
{
    if n > 0 {
        lemma_energy_bounds(features, (n - 1) as nat);
        lemma_frame_energy_bounds(features[n - 1], 48);
        assert(n * (48 * ENERGY_MAX) == (n - 1) * (48 * ENERGY_MAX) + 48 * ENERGY_MAX)
            by (nonlinear_arith);
    }
}

/// The energy of each frame of `features`.
pub fn energy_by_frame(features: &Features) -> (energies: Vec<u64>)
    requires
        valid_features(features@),
    ensures
        energies@.len() == features@.len(),
        forall|t: int|
            0 <= t < features@.len() ==> (#[trigger] energies@[t]) == frame_energy(features@[t]),
{
    let mut energies: Vec<u64> = Vec::new();
    let mut t: usize = 0;
    while t < features.len()
        invariant
            t <= features.len(),
            valid_features(features@),
            energies@.len() == t,
            forall|u: int| 0 <= u < t ==> (#[trigger] energies@[u]) == frame_energy(features@[u]),
        decreases features.len() - t,
    {
        let frame = &features[t];
        let mut sum: u64 = 0;
        let mut p: usize = 0;
        while p < 48
            invariant
                p <= 48,
                valid_frame(*frame),
                sum == frame_energy_upto(*frame, p as nat),
                sum <= p * ENERGY_MAX,
            decreases 48 - p,
        {
            sum = sum + frame[p];
            p += 1;
        }
        energies.push(sum);
        t += 1;
    }
    energies
}

/// Scales `features` so that a frame holds `ENERGY_ONE` on average; `energies`
/// is the energy of each frame before the call. A buffer without energy is left alone.
pub fn normalise(features: &mut Features, energies: &Vec<u64>)
    requires
        valid_features(old(features)@),
        energies@.len() == old(features)@.len(),
        forall|t: int|
            0 <= t < energies@.len() ==> (#[trigger] energies@[t]) == frame_energy(
                old(features)@[t],
            ),
    ensures
        total_energy(old(features)@) == 0 ==> final(features)@ == old(features)@,
        total_energy(old(features)@) != 0 ==> is_normalised(old(features)@, final(features)@),
        valid_features(final(features)@),
{
    let n = features.len();
    let mut total: u128 = 0;
    let mut t: usize = 0;
    while t < n
        invariant
            t <= n,
            n == features@.len(),
            features@ == old(features)@,
            valid_features(features@),
            energies@.len() == n,
            forall|u: int|
                0 <= u < n ==> (#[trigger] energies@[u]) == frame_energy(features@[u]),
            total == energy_upto(features@, t as nat),
            total <= t * (48 * ENERGY_MAX),
        decreases n - t,
    {
        proof {
            lemma_energy_bounds(features@, (t + 1) as nat);
            assert(t * (48 * ENERGY_MAX) <= FRAMES_MAX * (48 * ENERGY_MAX)) by (nonlinear_arith)
                requires
                    t <= FRAMES_MAX,
            ;
        }
        total = total + energies[t] as u128;
        t += 1;
    }
    if total == 0 {
        return ;
    }
    let mut scaled: Vec<Frame> = Vec::new();
    let mut t: usize = 0;
    while t < n
        invariant
            t <= n,
            n == features@.len(),
            features@ == old(features)@,
            valid_features(features@),
            total == total_energy(features@),
            total > 0,
            scaled@.len() == t,
            forall|u: int, p: int|
                0 <= u < t && 0 <= p < 48 ==> (#[trigger] scaled@[u][p]) == normalised_entry(
                    features@[u][p],
                    n as nat,
                    total as int,
                ),
            forall|u: int| 0 <= u < t ==> valid_frame(#[trigger] scaled@[u]),
        decreases n - t,
    {
        let frame = &features[t];
        let mut out: Frame = [0u64; 48];
        let mut p: usize = 0;
        while p < 48
            invariant
                p <= 48,
                t < n,
                n == features@.len(),
                n <= FRAMES_MAX,
                valid_features(features@),
                *frame == features@[t as int],
                total == total_energy(features@),
                total > 0,
                forall|q: int|
                    0 <= q < p ==> (#[trigger] out[q]) == normalised_entry(
                        frame[q],
                        n as nat,
                        total as int,
                    ),
                forall|q: int| 0 <= q < 48 ==> (#[trigger] out[q]) <= ENERGY_MAX,
            decreases 48 - p,
        {
            let e: u64 = frame[p];
            proof {
                lemma_energy_bounds(features@, n as nat);
                lemma_frame_energy_bounds(*frame, 48);
                assert(e <= total);
                lemma_normalised_entry_bound(e, n as nat, total as int);
            }
            let v: u128 = (e as u128 * n as u128 * ENERGY_ONE as u128) / total;
            out[p] = v as u64;
            p += 1;
        }
        scaled.push(out);
        t += 1;
    }
    *features = scaled;
}

/// A normalised entry fits: it is at most `frames` units of energy.
pub proof fn lemma_normalised_entry_bound(e: u64, frames: nat, total: int)
    requires
        e <= ENERGY_MAX,
        frames <= FRAMES_MAX,
        0 < total,
        e <= total,
    ensures
        0 <= e * frames <= ENERGY_MAX * FRAMES_MAX,
        0 <= e * frames * ENERGY_ONE <= ENERGY_MAX * FRAMES_MAX * ENERGY_ONE,
        0 <= normalised_entry(e, frames, total) <= frames * ENERGY_ONE,
        normalised_entry(e, frames, total) <= ENERGY_MAX,
{
    assert(0 <= e * frames <= ENERGY_MAX * FRAMES_MAX) by (nonlinear_arith)
        requires
            0 <= e <= ENERGY_MAX,
            0 <= frames <= FRAMES_MAX,
    ;
    assert(0 <= e * frames * ENERGY_ONE <= ENERGY_MAX * FRAMES_MAX * ENERGY_ONE)
        by (nonlinear_arith)
        requires
            0 <= e * frames <= ENERGY_MAX * FRAMES_MAX,
    ;
    let k = frames * ENERGY_ONE;
    assert(e * frames * ENERGY_ONE == e * k) by (nonlinear_arith)
        requires
            k == frames * ENERGY_ONE,
    ;
    assert((e * k) / total <= k && (e * k) / total >= 0) by (nonlinear_arith)
        requires
            0 <= e <= total,
            0 < total,
            0 <= k,
    ;
    assert(k <= FRAMES_MAX * ENERGY_ONE) by (nonlinear_arith)
        requires
            k == frames * ENERGY_ONE,
            frames <= FRAMES_MAX,
    ;
}

} // verus!
