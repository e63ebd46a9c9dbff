//! What is done to a frame before it joins the buffer: lower harmonics are
//! folded into the stronger octave above, then all but the strongest entries are cleared.

use crate::feature::types::{frame_energy, frame_energy_upto, Frame};
use crate::ff_config::RETAINED_FEATURES_PER_FRAME;
use vstd::prelude::*;

verus! {

/// The frame index visited at step `k` of the folding: the pitch classes in
/// turn, and within a class the octaves upward.
pub open spec fn fold_index(k: int) -> int {
    k / 3 + 12 * (k % 3)
}

/// One step of the folding at index `i`: if the entry an octave above is the
/// stronger one, it takes the energy of entry `i`, which is cleared.
pub open spec fn fold_step(entries: Seq<u64>, i: int) -> Seq<u64> {
    if entries[i + 12] > entries[i] {
        entries.update(i + 12, (entries[i + 12] + entries[i]) as u64).update(i, 0)
    } else {
        entries
    }
}

/// The entries after the first `k` steps of the folding.
pub open spec fn folded_upto(entries: Seq<u64>, k: nat) -> Seq<u64>
    decreases k,
{
    if k == 0 {
        entries
    } else {
        fold_step(folded_upto(entries, (k - 1) as nat), fold_index(k - 1))
    }
}

/// The entries after octave folding.
pub open spec fn folded(entries: Seq<u64>) -> Seq<u64> {
    folded_upto(entries, 36)
}

/// The sum of the first `n` of `entries`.
pub open spec fn energy_sum(entries: Seq<u64>, n: nat) -> int
    decreases n,
{
    if n == 0 {
        0
    } else {
        energy_sum(entries, (n - 1) as nat) + entries[n - 1]
    }
}

/// The energy of a frame is the sum of its entries.
pub proof fn lemma_frame_energy_is_sum(frame: Frame, n: nat)
    requires
        n <= 48,
    ensures
        frame_energy_upto(frame, n) == energy_sum(frame@, n),
    decreases n,
{
    if n > 0 {
        lemma_frame_energy_is_sum(frame, (n - 1) as nat);
    }
}

/// Changing two entries changes the sum by what the two entries changed by.
pub proof fn lemma_energy_sum_two_changed(a: Seq<u64>, b: Seq<u64>, i: int, j: int, n: nat)
    requires
        a.len() == b.len(),
        n <= a.len(),
        0 <= i < j < a.len(),
        forall|k: int| 0 <= k < a.len() && k != i && k != j ==> a[k] == b[k],
    ensures
        energy_sum(b, n) == energy_sum(a, n) + (if i < n {
            b[i] - a[i]
        } else {
            0
        }) + (if j < n {
            b[j] - a[j]
        } else {
            0
        }),
    decreases n,
{
    if n > 0 {
        lemma_energy_sum_two_changed(a, b, i, j, (n - 1) as nat);
    }
}

/// No entry exceeds the sum of all entries.
pub proof fn lemma_entry_within_sum(a: Seq<u64>, n: nat)
    requires
        n <= a.len(),
    ensures
        0 <= energy_sum(a, n),
        forall|k: int| 0 <= k < n ==> (#[trigger] a[k]) <= energy_sum(a, n),
    decreases n,
{
    if n > 0 {
        lemma_entry_within_sum(a, (n - 1) as nat);
    }
}

/// Two distinct entries together do not exceed the sum of all entries.
pub proof fn lemma_pair_within_sum(a: Seq<u64>, i: int, j: int, n: nat)
    requires
        n <= a.len(),
        0 <= i < j < n,
    ensures
        a[i] + a[j] <= energy_sum(a, n),
    decreases n,
{
    if n - 1 == j {
        lemma_entry_within_sum(a, (n - 1) as nat);
    } else {
        lemma_pair_within_sum(a, i, j, (n - 1) as nat);
    }
}

/// A step of the folding keeps the length and the total energy.
pub proof fn lemma_fold_step_keeps_energy(entries: Seq<u64>, i: int)
    requires
        entries.len() == 48,
        0 <= i < 36,
        energy_sum(entries, 48) <= u64::MAX,
    ensures
        fold_step(entries, i).len() == 48,
        energy_sum(fold_step(entries, i), 48) == energy_sum(entries, 48),
{
    lemma_pair_within_sum(entries, i, i + 12, 48);
    lemma_energy_sum_two_changed(entries, fold_step(entries, i), i, i + 12, 48);
}

/// Octave folding moves energy between entries and neither adds nor loses any.
pub proof fn lemma_folding_keeps_energy(entries: Seq<u64>, k: nat)
    requires
        entries.len() == 48,
        k <= 36,
        energy_sum(entries, 48) <= u64::MAX,
    ensures
        folded_upto(entries, k).len() == 48,
        energy_sum(folded_upto(entries, k), 48) == energy_sum(entries, 48),
    decreases k,
{
    if k > 0 {
        lemma_folding_keeps_energy(entries, (k - 1) as nat);
        lemma_fold_step_keeps_energy(folded_upto(entries, (k - 1) as nat), fold_index(k - 1));
    }
}

/// The energy of the pitch class `class`: the sum of its entries in all four octaves.
pub open spec fn class_energy(entries: Seq<u64>, class: int) -> int {
    entries[class] + entries[class + 12] + entries[class + 24] + entries[class + 36]
}

/// Octave folding moves energy within a pitch class only: every pitch class keeps its energy.
pub proof fn lemma_folding_keeps_class_energy(entries: Seq<u64>, k: nat, class: int)
    requires
        entries.len() == 48,
        k <= 36,
        0 <= class < 12,
        energy_sum(entries, 48) <= u64::MAX,
    ensures
        class_energy(folded_upto(entries, k), class) == class_energy(entries, class),
    decreases k,
{
    if k > 0 {
        lemma_folding_keeps_class_energy(entries, (k - 1) as nat, class);
        lemma_folding_keeps_energy(entries, (k - 1) as nat);
        let before = folded_upto(entries, (k - 1) as nat);
        let i = fold_index(k - 1);
        assert(0 <= i < 36);
        lemma_pair_within_sum(before, i, i + 12, 48);
    }
}

/// Folds the energy of lower harmonics into the stronger octave above.
///
/// For each pitch class, going up by octaves from the lowest entry: where the
/// entry an octave above is strictly the stronger, it receives the energy of
/// the lower entry, and the lower entry is cleared. The total energy of the
/// frame is unchanged.
pub fn fold_octaves(frame: &Frame) -> (out: Frame)
    requires
        frame_energy(*frame) <= u64::MAX,
    ensures
        out@ == folded(frame@),
        frame_energy(out) == frame_energy(*frame),
{
    let mut out: Frame = *frame;
    let mut class: usize = 0;
    proof {
        lemma_frame_energy_is_sum(*frame, 48);
    }
    while class < 12
        invariant
            class <= 12,
            energy_sum(frame@, 48) <= u64::MAX,
            out@ == folded_upto(frame@, (3 * class) as nat),
        decreases 12 - class,
    {
        let mut octave: usize = 0;
        while octave < 3
            invariant
                octave <= 3,
                class < 12,
                energy_sum(frame@, 48) <= u64::MAX,
                out@ == folded_upto(frame@, (3 * class + octave) as nat),
            decreases 3 - octave,
        {
            let i: usize = class + 12 * octave;
            let ghost k = (3 * class + octave) as nat;
            proof {
                assert(fold_index(k as int) == i) by (nonlinear_arith)
                    requires
                        k == 3 * class + octave,
                        i == class + 12 * octave,
                        0 <= octave < 3,
                        0 <= class,
                        fold_index(k as int) == (k as int) / 3 + 12 * ((k as int) % 3),
                ;
                lemma_folding_keeps_energy(frame@, k);
                lemma_pair_within_sum(out@, i as int, i + 12, 48);
            }
            if out[i + 12] > out[i] {
                let sum: u64 = out[i + 12] + out[i];
                out[i + 12] = sum;
                out[i] = 0;
            }
            assert(out@ =~= fold_step(folded_upto(frame@, k), i as int));
            octave += 1;
        }
        class += 1;
    }
    proof {
        lemma_folding_keeps_energy(frame@, 36);
        lemma_frame_energy_is_sum(out, 48);
    }
    out
}

/// Whether entry `i` comes before entry `j` when the strongest entries are
/// picked: the larger entry first, of two equal entries the one at the lower index.
pub open spec fn outranks(entries: Seq<u64>, i: int, j: int) -> bool {
    entries[i] > entries[j] || (entries[i] == entries[j] && i < j)
}

/// How many of the first `n` entries come before entry `j`.
pub open spec fn rank_upto(entries: Seq<u64>, j: int, n: nat) -> nat
    decreases n,
{
    if n == 0 {
        0
    } else {
        rank_upto(entries, j, (n - 1) as nat) + if outranks(entries, n - 1, j) {
            1nat
        } else {
            0nat
        }
    }
}

/// How many entries come before entry `j`.
pub open spec fn rank(entries: Seq<u64>, j: int) -> nat {
    rank_upto(entries, j, entries.len())
}

/// The entries after all but the `keep` first-ranked ones have been cleared.
pub open spec fn top_entries(entries: Seq<u64>, keep: nat) -> Seq<u64> {
    Seq::new(
        entries.len(),
        |j: int|
            if rank(entries, j) < keep {
                entries[j]
            } else {
                0
            },
    )
}

/// How many of the first `upto` entries are not zero.
pub open spec fn count_nonzero(entries: Seq<u64>, upto: nat) -> nat
    decreases upto,
{
    if upto == 0 {
        0
    } else {
        count_nonzero(entries, (upto - 1) as nat) + if entries[upto - 1] != 0 {
            1nat
        } else {
            0nat
        }
    }
}

/// How many of the first `upto` entries have exactly `place` entries before them.
pub open spec fn count_at_place(entries: Seq<u64>, place: nat, upto: nat) -> nat
    decreases upto,
{
    if upto == 0 {
        0
    } else {
        count_at_place(entries, place, (upto - 1) as nat) + if rank(entries, upto - 1) == place {
            1nat
        } else {
            0nat
        }
    }
}

/// How many of the first `upto` entries have fewer than `keep` entries before them.
pub open spec fn count_kept(entries: Seq<u64>, keep: nat, upto: nat) -> nat
    decreases upto,
{
    if upto == 0 {
        0
    } else {
        count_kept(entries, keep, (upto - 1) as nat) + if rank(entries, upto - 1) < keep {
            1nat
        } else {
            0nat
        }
    }
}

/// An entry does not come before itself, so fewer than all entries come before it.
pub proof fn lemma_rank_below_len(entries: Seq<u64>, j: int, upto: nat)
    requires
        0 <= j < entries.len(),
        upto <= entries.len(),
    ensures
        rank_upto(entries, j, upto) + (if j < upto {
            1nat
        } else {
            0nat
        }) <= upto,
    decreases upto,
{
    if upto > 0 {
        lemma_rank_below_len(entries, j, (upto - 1) as nat);
    }
}

/// Of two entries, the one that comes first has fewer entries before it.
pub proof fn lemma_rank_rises(entries: Seq<u64>, i: int, j: int, upto: nat)
    requires
        0 <= i < entries.len(),
        0 <= j < entries.len(),
        outranks(entries, i, j),
        upto <= entries.len(),
    ensures
        rank_upto(entries, i, upto) + (if i < upto {
            1nat
        } else {
            0nat
        }) <= rank_upto(entries, j, upto),
    decreases upto,
{
    if upto > 0 {
        lemma_rank_rises(entries, i, j, (upto - 1) as nat);
    }
}

/// Two different entries have different numbers of entries before them.
pub proof fn lemma_ranks_differ(entries: Seq<u64>, i: int, j: int)
    requires
        0 <= i < entries.len(),
        0 <= j < entries.len(),
        i != j,
    ensures
        rank(entries, i) != rank(entries, j),
{
    if outranks(entries, i, j) {
        lemma_rank_rises(entries, i, j, entries.len());
    } else {
        assert(outranks(entries, j, i));
        lemma_rank_rises(entries, j, i, entries.len());
    }
}

/// Where some entry is counted at a place, there is an entry at that place.
pub proof fn lemma_place_taken(entries: Seq<u64>, place: nat, upto: nat)
    requires
        count_at_place(entries, place, upto) >= 1,
    ensures
        exists|i: int| 0 <= i < upto && #[trigger] rank(entries, i) == place,
    decreases upto,
{
    if upto > 0 {
        if rank(entries, upto - 1) == place {
            assert(0 <= upto - 1 < upto && rank(entries, upto - 1) == place);
        } else {
            lemma_place_taken(entries, place, (upto - 1) as nat);
            let i = choose|i: int| 0 <= i < upto - 1 && #[trigger] rank(entries, i) == place;
            assert(0 <= i < upto && rank(entries, i) == place);
        }
    }
}

/// No place is taken by two entries.
pub proof fn lemma_place_taken_once(entries: Seq<u64>, place: nat, upto: nat)
    requires
        upto <= entries.len(),
    ensures
        count_at_place(entries, place, upto) <= 1,
    decreases upto,
{
    if upto > 0 {
        lemma_place_taken_once(entries, place, (upto - 1) as nat);
        if rank(entries, upto - 1) == place && count_at_place(entries, place, (upto - 1) as nat)
            >= 1 {
            lemma_place_taken(entries, place, (upto - 1) as nat);
            let i = choose|i: int| 0 <= i < upto - 1 && #[trigger] rank(entries, i) == place;
            lemma_ranks_differ(entries, i, upto - 1);
        }
    }
}

/// Keeping one place more keeps the entries at that place besides.
pub proof fn lemma_count_kept_step(entries: Seq<u64>, keep: nat, upto: nat)
    ensures
        count_kept(entries, keep + 1, upto) == count_kept(entries, keep, upto) + count_at_place(
            entries,
            keep,
            upto,
        ),
    decreases upto,
{
    if upto > 0 {
        lemma_count_kept_step(entries, keep, (upto - 1) as nat);
    }
}

/// Keeping more places keeps at most one entry more per place.
pub proof fn lemma_count_kept_grows(entries: Seq<u64>, fewer: nat, more: nat)
    requires
        fewer <= more,
    ensures
        count_kept(entries, fewer, entries.len()) <= count_kept(entries, more, entries.len()),
        count_kept(entries, more, entries.len()) <= count_kept(entries, fewer, entries.len()) + (
        more - fewer),
    decreases more - fewer,
{
    if fewer < more {
        lemma_count_kept_grows(entries, fewer, (more - 1) as nat);
        lemma_count_kept_step(entries, (more - 1) as nat, entries.len());
        lemma_place_taken_once(entries, (more - 1) as nat, entries.len());
    }
}

/// Keeping as many places as there are entries keeps every entry.
pub proof fn lemma_count_kept_all(entries: Seq<u64>, upto: nat)
    requires
        upto <= entries.len(),
    ensures
        count_kept(entries, entries.len(), upto) == upto,
    decreases upto,
{
    if upto > 0 {
        lemma_count_kept_all(entries, (upto - 1) as nat);
        lemma_rank_below_len(entries, upto - 1, entries.len());
    }
}

/// Keeping `keep` places keeps exactly `keep` entries, as long as there are that many.
pub proof fn lemma_count_kept_exact(entries: Seq<u64>, keep: nat)
    requires
        keep <= entries.len(),
    ensures
        count_kept(entries, keep, entries.len()) == keep,
{
    lemma_count_kept_grows(entries, 0, keep);
    lemma_count_kept_grows(entries, keep, entries.len());
    lemma_count_kept_all(entries, entries.len());
    lemma_count_kept_none(entries, entries.len());
}

/// Keeping no place keeps no entry.
pub proof fn lemma_count_kept_none(entries: Seq<u64>, upto: nat)
    ensures
        count_kept(entries, 0, upto) == 0,
    decreases upto,
{
    if upto > 0 {
        lemma_count_kept_none(entries, (upto - 1) as nat);
    }
}

/// Only entries that are not zero come before an entry that is not zero.
pub proof fn lemma_rank_of_nonzero(entries: Seq<u64>, j: int, upto: nat)
    requires
        0 <= j < entries.len(),
        entries[j] != 0,
        upto <= entries.len(),
    ensures
        rank_upto(entries, j, upto) + (if j < upto {
            1nat
        } else {
            0nat
        }) <= count_nonzero(entries, upto),
    decreases upto,
{
    if upto > 0 {
        lemma_rank_of_nonzero(entries, j, (upto - 1) as nat);
    }
}

/// Every entry that is not zero comes before an entry that is zero.
pub proof fn lemma_rank_of_zero(entries: Seq<u64>, j: int, upto: nat)
    requires
        0 <= j < entries.len(),
        entries[j] == 0,
        upto <= entries.len(),
    ensures
        rank_upto(entries, j, upto) >= count_nonzero(entries, upto),
    decreases upto,
{
    if upto > 0 {
        lemma_rank_of_zero(entries, j, (upto - 1) as nat);
    }
}

/// Two sequences that are zero at the same places have equally many entries that are not zero.
pub proof fn lemma_count_nonzero_same(a: Seq<u64>, b: Seq<u64>, upto: nat)
    requires
        upto <= a.len(),
        upto <= b.len(),
        forall|j: int| 0 <= j < upto ==> ((#[trigger] a[j]) != 0 <==> b[j] != 0),
    ensures
        count_nonzero(a, upto) == count_nonzero(b, upto),
    decreases upto,
{
    if upto > 0 {
        lemma_count_nonzero_same(a, b, (upto - 1) as nat);
        assert(a[upto - 1] != 0 <==> b[upto - 1] != 0);
    }
}

/// Where the kept entries are exactly those that are not zero in `out`, as
/// many are not zero as are kept.
pub proof fn lemma_count_nonzero_kept(out: Seq<u64>, entries: Seq<u64>, keep: nat, upto: nat)
    requires
        upto <= out.len(),
        forall|j: int| 0 <= j < upto ==> ((#[trigger] out[j]) != 0 <==> rank(entries, j) < keep),
    ensures
        count_nonzero(out, upto) == count_kept(entries, keep, upto),
    decreases upto,
{
    if upto > 0 {
        lemma_count_nonzero_kept(out, entries, keep, (upto - 1) as nat);
        assert(out[upto - 1] != 0 <==> rank(entries, upto - 1) < keep);
    }
}

/// After all but the `keep` strongest entries are cleared, as many entries
/// are left as were not zero before, but no more than `keep`.
pub proof fn lemma_top_entries_count(entries: Seq<u64>, keep: nat)
    ensures
        count_nonzero(top_entries(entries, keep), entries.len()) == if keep <= count_nonzero(
            entries,
            entries.len(),
        ) {
            keep
        } else {
            count_nonzero(entries, entries.len())
        },
{
    let n = entries.len();
    let out = top_entries(entries, keep);
    let before = count_nonzero(entries, n);
    lemma_count_nonzero_bound(entries, n);
    if keep <= before {
        assert forall|j: int| 0 <= j < n implies ((#[trigger] out[j]) != 0 <==> rank(entries, j)
            < keep) by {
            if entries[j] == 0 {
                lemma_rank_of_zero(entries, j, n);
            }
        }
        lemma_count_nonzero_kept(out, entries, keep, n);
        lemma_count_kept_exact(entries, keep);
    } else {
        assert forall|j: int| 0 <= j < n implies ((#[trigger] out[j]) != 0 <==> entries[j]
            != 0) by {
            if entries[j] != 0 {
                lemma_rank_of_nonzero(entries, j, n);
            }
        }
        lemma_count_nonzero_same(out, entries, n);
    }
}

/// No more entries are not zero than there are entries.
pub proof fn lemma_count_nonzero_bound(entries: Seq<u64>, upto: nat)
    ensures
        count_nonzero(entries, upto) <= upto,
    decreases upto,
{
    if upto > 0 {
        lemma_count_nonzero_bound(entries, (upto - 1) as nat);
    }
}

/// Clears all but the five strongest entries of a frame; of two equal
/// entries the one at the lower index is the stronger.
pub fn retain_top_k(frame: &Frame) -> (out: Frame)
    ensures
        out@ == top_entries(frame@, RETAINED_FEATURES_PER_FRAME as nat),
        count_nonzero(out@, 48) == if count_nonzero(frame@, 48) < RETAINED_FEATURES_PER_FRAME {
            count_nonzero(frame@, 48)
        } else {
            RETAINED_FEATURES_PER_FRAME as nat
        },
{
    let mut out: Frame = [0u64; 48];
    let mut j: usize = 0;
    while j < 48
        invariant
            j <= 48,
            forall|q: int|
                0 <= q < j ==> (#[trigger] out@[q]) == top_entries(
                    frame@,
                    RETAINED_FEATURES_PER_FRAME as nat,
                )[q],
            forall|q: int| j <= q < 48 ==> (#[trigger] out@[q]) == 0,
        decreases 48 - j,
    {
        let mut before: u32 = 0;
        let mut i: usize = 0;
        while i < 48
            invariant
                i <= 48,
                j < 48,
                before == rank_upto(frame@, j as int, i as nat),
                before <= i,
            decreases 48 - i,
        {
            if frame[i] > frame[j] || (frame[i] == frame[j] && i < j) {
                before = before + 1;
            }
            i += 1;
        }
        assert(before == rank(frame@, j as int));
        if before < RETAINED_FEATURES_PER_FRAME {
            out[j] = frame[j];
        }
        j += 1;
    }
    assert(out@ =~= top_entries(frame@, RETAINED_FEATURES_PER_FRAME as nat));
    proof {
        lemma_top_entries_count(frame@, RETAINED_FEATURES_PER_FRAME as nat);
    }
    out
}

} // verus!
