//! Frames and the buffer that collects them.

use crate::ff_config::{ENERGY_MAX, FRAMES_MAX};
use vstd::prelude::*;

verus! {

/// The energy at each supported pitch during one analysis window, lowest pitch first.
pub type Frame = [u64; 48];

/// One frame per analysis window, in arrival order.
pub type Features = Vec<Frame>;

/// Whether no entry of `frame` exceeds `ENERGY_MAX`.
pub open spec fn valid_frame(frame: Frame) -> bool {
    forall|p: int| 0 <= p < 48 ==> (#[trigger] frame[p]) <= ENERGY_MAX
}

/// Whether `features` can be decoded: at most `FRAMES_MAX` frames, each of them valid.
pub open spec fn valid_features(features: Seq<Frame>) -> bool {
    &&& features.len() <= FRAMES_MAX
    &&& forall|t: int| 0 <= t < features.len() ==> valid_frame(#[trigger] features[t])
}

/// The sum of the first `n` entries of `frame`.
pub open spec fn frame_energy_upto(frame: Frame, n: nat) -> int
    decreases n,
{
    if n == 0 {
        0
    } else {
        frame_energy_upto(frame, (n - 1) as nat) + frame[n - 1]
    }
}

/// The total energy of `frame`.
pub open spec fn frame_energy(frame: Frame) -> int {
    frame_energy_upto(frame, 48)
}

/// The total energy of the first `n` frames of `features`.
pub open spec fn energy_upto(features: Seq<Frame>, n: nat) -> int
    decreases n,
{
    if n == 0 {
        0
    } else {
        energy_upto(features, (n - 1) as nat) + frame_energy(features[n - 1])
    }
}

/// The total energy of `features`.
pub open spec fn total_energy(features: Seq<Frame>) -> int {
    energy_upto(features, features.len())
}

/// Tells whether no entry of `frame` exceeds `ENERGY_MAX`.
pub fn is_valid_frame(frame: &Frame) -> (ok: bool)
    ensures
        ok == valid_frame(*frame),
{
    let mut p: usize = 0;
    while p < 48
        invariant
            p <= 48,
            forall|q: int| 0 <= q < p ==> (#[trigger] frame[q]) <= ENERGY_MAX,
        decreases 48 - p,
    {
        if frame[p] > ENERGY_MAX {
            return false;
        }
        p += 1;
    }
    true
}

/// Tells whether `features` can be decoded.
pub fn is_valid_features(features: &Features) -> (ok: bool)
    ensures
        ok == valid_features(features@),
{
    if features.len() > FRAMES_MAX {
        return false;
    }
    let mut t: usize = 0;
    while t < features.len()
        invariant
            t <= features.len(),
            forall|u: int| 0 <= u < t ==> valid_frame(#[trigger] features@[u]),
        decreases features.len() - t,
    {
        if !is_valid_frame(&features[t]) {
            return false;
        }
        t += 1;
    }
    true
}

} // verus!
