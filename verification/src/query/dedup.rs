//! Keeping only the first candidate of every tune.

use crate::text::texts;
use fnv::FnvHashSet;
use vstd::prelude::*;

verus! {

/// The hasher of the `fnv` crate. Nothing inside it is visible here.
#[verifier::external_type_specification]
#[verifier::external_body]
pub struct ExFnvHasher(fnv::FnvHasher);

/// The factory of hashers that `fnv` sets are built with. Nothing inside it is visible here.
#[verifier::external_type_specification]
#[verifier::external_body]
#[verifier::reject_recursive_types(H)]
pub struct ExBuildHasherDefault<H>(std::hash::BuildHasherDefault<H>);

/// The tune identifiers that a set holds.
pub uninterp spec fn seen_tunes(set: FnvHashSet<String>) -> Set<Seq<char>>;

/// `FnvHashSet::default`: a set that holds nothing.
#[verifier::external_body]
fn new_tune_set() -> (set: FnvHashSet<String>)
    ensures
        seen_tunes(set) == Set::<Seq<char>>::empty(),
{
    FnvHashSet::default()
}

/// `HashSet::insert` on an `fnv` set: the set holds the identifier
/// afterwards, and the result tells whether it was new to the set.
#[verifier::external_body]
fn mark_tune(set: &mut FnvHashSet<String>, tune: String) -> (fresh: bool)
    ensures
        seen_tunes(*final(set)) == seen_tunes(*old(set)).insert(tune@),
        fresh == !seen_tunes(*old(set)).contains(tune@),
{
    set.insert(tune)
}

/// Whether no earlier candidate belongs to the tune of candidate `p`.
pub open spec fn is_first_of_tune(tunes: Seq<Seq<char>>, p: int) -> bool {
    forall|earlier: int| 0 <= earlier < p ==> #[trigger] tunes[earlier] != tunes[p]
}

/// The positions kept among the first `upto` candidates, whose tunes are
/// `tunes`: a candidate is kept if it is the first of its tune and fewer
/// than `limit` candidates were kept before it.
pub open spec fn kept_positions(tunes: Seq<Seq<char>>, limit: nat, upto: nat) -> Seq<usize>
    decreases upto,
{
    if upto == 0 {
        Seq::empty()
    } else {
        let kept = kept_positions(tunes, limit, (upto - 1) as nat);
        if kept.len() < limit && is_first_of_tune(tunes, upto - 1) {
            kept.push((upto - 1) as usize)
        } else {
            kept
        }
    }
}

/// Kept positions are positions of candidates, in rising order, and at most `limit` of them.
pub proof fn lemma_kept_positions(tunes: Seq<Seq<char>>, limit: nat, upto: nat)
    requires
        upto <= tunes.len(),
    ensures
        kept_positions(tunes, limit, upto).len() <= limit,
        kept_positions(tunes, limit, upto).len() <= upto,
        forall|r: int|
            0 <= r < kept_positions(tunes, limit, upto).len() ==> (#[trigger] kept_positions(
                tunes,
                limit,
                upto,
            )[r]) < upto,
    decreases upto,
{
    if upto > 0 {
        lemma_kept_positions(tunes, limit, (upto - 1) as nat);
    }
}

/// No two kept candidates belong to one tune, and each is the first of its tune.
pub proof fn lemma_kept_tunes_distinct(tunes: Seq<Seq<char>>, limit: nat, upto: nat)
    requires
        upto <= tunes.len() <= usize::MAX,
    ensures
        forall|r: int|
            0 <= r < kept_positions(tunes, limit, upto).len() ==> is_first_of_tune(
                tunes,
                (#[trigger] kept_positions(tunes, limit, upto)[r]) as int,
            ),
        forall|r: int, s: int|
            0 <= r < s < kept_positions(tunes, limit, upto).len() ==> kept_positions(
                tunes,
                limit,
                upto,
            )[r] < kept_positions(tunes, limit, upto)[s] && tunes[kept_positions(
                tunes,
                limit,
                upto,
            )[r] as int] != tunes[kept_positions(tunes, limit, upto)[s] as int],
    decreases upto,
{
    if upto > 0 {
        lemma_kept_tunes_distinct(tunes, limit, (upto - 1) as nat);
        lemma_kept_positions(tunes, limit, (upto - 1) as nat);
        let before = kept_positions(tunes, limit, (upto - 1) as nat);
        let now = kept_positions(tunes, limit, upto);
        assert forall|r: int| 0 <= r < now.len() implies is_first_of_tune(
            tunes,
            (#[trigger] now[r]) as int,
        ) by {
            if r < before.len() {
                assert(now[r] == before[r]);
            }
        }
        assert forall|r: int, s: int| 0 <= r < s < now.len() implies now[r] < now[s]
            && tunes[now[r] as int] != tunes[now[s] as int] by {
            assert(now[r] == before[r]);
            if s == before.len() {
                assert(before[r] < upto - 1);
                assert(now[s] == upto - 1);
                assert(is_first_of_tune(tunes, upto - 1));
            } else {
                assert(now[s] == before[s]);
            }
        }
    }
}

/// Once `limit` candidates are kept, no later candidate is.
pub proof fn lemma_kept_positions_full(tunes: Seq<Seq<char>>, limit: nat, upto: nat, later: nat)
    requires
        upto <= later,
        kept_positions(tunes, limit, upto).len() >= limit,
    ensures
        kept_positions(tunes, limit, later) == kept_positions(tunes, limit, upto),
    decreases later,
{
    if later > upto {
        lemma_kept_positions_full(tunes, limit, upto, (later - 1) as nat);
    }
}

/// Picks, from candidates whose tunes are `tunes`, the first candidate of
/// every tune, until `limit` candidates are picked.
pub fn first_per_tune(tunes: &Vec<String>, limit: usize) -> (kept: Vec<usize>)
    ensures
        kept@ == kept_positions(texts(tunes@), limit as nat, tunes@.len()),
        kept@.len() <= limit,
        forall|r: int| 0 <= r < kept@.len() ==> (#[trigger] kept@[r]) < tunes@.len(),
{
    let ghost all = texts(tunes@);
    let mut seen = new_tune_set();
    let mut kept: Vec<usize> = Vec::new();
    let mut p: usize = 0;
    while p < tunes.len() && kept.len() < limit
        invariant
            p <= tunes@.len(),
            all == texts(tunes@),
            kept@ == kept_positions(all, limit as nat, p as nat),
            forall|tune: Seq<char>|
                seen_tunes(seen).contains(tune) <==> exists|earlier: int|
                    0 <= earlier < p && #[trigger] all[earlier] == tune,
        decreases tunes@.len() - p,
    {
        let ghost before = seen_tunes(seen);
        let fresh = mark_tune(&mut seen, tunes[p].clone());
        proof {
            assert(all[p as int] == tunes@[p as int]@);
            if fresh {
                assert forall|earlier: int| 0 <= earlier < p implies #[trigger] all[earlier]
                    != all[p as int] by {
                    if all[earlier] == all[p as int] {
                        assert(before.contains(all[p as int]));
                    }
                }
            } else {
                let earlier = choose|earlier: int|
                    0 <= earlier < p && #[trigger] all[earlier] == all[p as int];
                assert(!is_first_of_tune(all, p as int));
            }
            assert(fresh == is_first_of_tune(all, p as int));
            assert forall|tune: Seq<char>|
                seen_tunes(seen).contains(tune) <==> exists|earlier: int|
                    0 <= earlier < p + 1 && #[trigger] all[earlier] == tune by {
                if seen_tunes(seen).contains(tune) {
                    if tune == all[p as int] {
                        assert(0 <= p < p + 1 && all[p as int] == tune);
                    } else {
                        assert(before.contains(tune));
                        let earlier = choose|earlier: int|
                            0 <= earlier < p && #[trigger] all[earlier] == tune;
                        assert(0 <= earlier < p + 1 && all[earlier] == tune);
                    }
                }
                if exists|earlier: int| 0 <= earlier < p + 1 && #[trigger] all[earlier] == tune {
                    let earlier = choose|earlier: int|
                        0 <= earlier < p + 1 && #[trigger] all[earlier] == tune;
                    if earlier < p {
                        assert(before.contains(tune));
                    }
                }
            }
        }
        if fresh {
            kept.push(p);
        }
        p += 1;
    }
    proof {
        lemma_kept_positions(all, limit as nat, p as nat);
        if p < tunes@.len() {
            lemma_kept_positions_full(all, limit as nat, p as nat, tunes@.len());
        }
        lemma_kept_positions(all, limit as nat, tunes@.len());
    }
    kept
}

} // verus!
