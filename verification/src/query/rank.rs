//! Putting candidates in order.

use vstd::prelude::*;
use vstd::relations::{sorted_by, total_ordering};
use vstd::seq_lib::lemma_sorted_unique;

verus! {

/// A candidate with a place in a ranking: any two candidates compare, and
/// two candidates that each come no later than the other are the same.
pub trait Ranked: Copy + Sized {
    /// Whether `self` comes no later than `other`.
    spec fn precedes(self, other: Self) -> bool;

    /// Coming no later than another candidate is a total order.
    proof fn lemma_total_order()
        ensures
            total_ordering(|a: Self, b: Self| a.precedes(b)),
    ;

    /// Tells whether `self` comes no later than `other`.
    fn comes_first(&self, other: &Self) -> (first: bool)
        ensures
            first == self.precedes(*other),
    ;
}

/// The order in which candidates of type `T` are ranked.
pub open spec fn ranking_order<T: Ranked>() -> spec_fn(T, T) -> bool {
    |a: T, b: T| a.precedes(b)
}

/// Whether `ranking` holds exactly the candidates of `items`, each as often
/// as `items` does, first-ranked first.
pub open spec fn is_ranking_of<T: Ranked>(ranking: Seq<T>, items: Seq<T>) -> bool {
    &&& sorted_by(ranking, ranking_order::<T>())
    &&& ranking.to_multiset() == items.to_multiset()
}

/// The ranking of `items` is `items` sorted by the order of its candidates.
pub proof fn lemma_ranking_is_sort<T: Ranked>(ranking: Seq<T>, items: Seq<T>)
    requires
        is_ranking_of(ranking, items),
    ensures
        ranking == items.sort_by(ranking_order::<T>()),
{
    T::lemma_total_order();
    assert(ranking_order::<T>() == (|a: T, b: T| a.precedes(b)));
    items.lemma_sort_by_ensures(ranking_order::<T>());
    lemma_sorted_unique(ranking, items.sort_by(ranking_order::<T>()), ranking_order::<T>());
}

/// A ranking holds as many candidates as were ranked, and each of them is one of those.
pub proof fn lemma_ranking_members<T: Ranked>(ranking: Seq<T>, items: Seq<T>)
    requires
        is_ranking_of(ranking, items),
    ensures
        ranking.len() == items.len(),
        forall|i: int| 0 <= i < ranking.len() ==> items.contains(#[trigger] ranking[i]),
        forall|j: int| 0 <= j < items.len() ==> ranking.contains(#[trigger] items[j]),
{
    broadcast use vstd::seq_lib::group_to_multiset_ensures;

    assert(ranking.len() == ranking.to_multiset().len());
    assert(items.len() == items.to_multiset().len());
    assert forall|i: int| 0 <= i < ranking.len() implies items.contains(#[trigger] ranking[i]) by {
        assert(ranking.contains(ranking[i]));
        assert(ranking.to_multiset().count(ranking[i]) > 0);
    }
    assert forall|j: int| 0 <= j < items.len() implies ranking.contains(#[trigger] items[j]) by {
        assert(items.contains(items[j]));
        assert(items.to_multiset().count(items[j]) > 0);
    }
}

/// Merges two rankings into the ranking of all their candidates.
fn merge<T: Ranked>(left: &Vec<T>, right: &Vec<T>) -> (merged: Vec<T>)
    requires
        sorted_by(left@, ranking_order::<T>()),
        sorted_by(right@, ranking_order::<T>()),
    ensures
        sorted_by(merged@, ranking_order::<T>()),
        merged@.to_multiset() == left@.to_multiset().add(right@.to_multiset()),
{
    broadcast use vstd::seq_lib::group_to_multiset_ensures;
    broadcast use vstd::multiset::group_multiset_axioms;

    let ghost leq = ranking_order::<T>();
    proof {
        T::lemma_total_order();
        assert(leq == (|a: T, b: T| a.precedes(b)));
    }
    let mut merged: Vec<T> = Vec::new();
    let mut i: usize = 0;
    let mut j: usize = 0;
    assert(left@.subrange(0, 0) =~= Seq::<T>::empty());
    assert(right@.subrange(0, 0) =~= Seq::<T>::empty());
    while i < left.len() || j < right.len()
        invariant
            i <= left@.len(),
            j <= right@.len(),
            leq == ranking_order::<T>(),
            total_ordering(leq),
            sorted_by(left@, leq),
            sorted_by(right@, leq),
            sorted_by(merged@, leq),
            merged@.to_multiset() == left@.subrange(0, i as int).to_multiset().add(
                right@.subrange(0, j as int).to_multiset(),
            ),
            forall|k: int, l: int|
                0 <= k < merged@.len() && i <= l < left@.len() ==> leq(
                    #[trigger] merged@[k],
                    #[trigger] left@[l],
                ),
            forall|k: int, l: int|
                0 <= k < merged@.len() && j <= l < right@.len() ==> leq(
                    #[trigger] merged@[k],
                    #[trigger] right@[l],
                ),
        decreases left@.len() - i + right@.len() - j,
    {
        let take_left: bool = if i == left.len() {
            false
        } else if j == right.len() {
            true
        } else {
            left[i].comes_first(&right[j])
        };
        let ghost before = merged@;
        if take_left {
            let item = left[i];
            proof {
                assert(left@.subrange(0, i + 1) =~= left@.subrange(0, i as int).push(item));
                assert forall|l: int| i + 1 <= l < left@.len() implies leq(
                    item,
                    #[trigger] left@[l],
                ) by {
                    assert(leq(left@[i as int], left@[l]));
                }
                assert forall|l: int| j <= l < right@.len() implies leq(
                    item,
                    #[trigger] right@[l],
                ) by {
                    assert(leq(item, right@[j as int]));
                    if l > j {
                        assert(leq(right@[j as int], right@[l]));
                    }
                }
            }
            merged.push(item);
            i += 1;
            proof {
                let l0 = left@.subrange(0, i - 1).to_multiset();
                let r0 = right@.subrange(0, j as int).to_multiset();
                assert(merged@ == before.push(item));
                vstd::seq_lib::to_multiset_build(before, item);
                assert(left@.subrange(0, i as int) == left@.subrange(0, i - 1).push(item));
                vstd::seq_lib::to_multiset_build(left@.subrange(0, i - 1), item);
                assert(l0.add(r0).insert(item) =~= l0.insert(item).add(r0));
            }
        } else {
            let item = right[j];
            proof {
                assert(right@.subrange(0, j + 1) =~= right@.subrange(0, j as int).push(item));
                assert forall|l: int| j + 1 <= l < right@.len() implies leq(
                    item,
                    #[trigger] right@[l],
                ) by {
                    assert(leq(right@[j as int], right@[l]));
                }
                assert forall|l: int| i <= l < left@.len() implies leq(
                    item,
                    #[trigger] left@[l],
                ) by {
                    assert(leq(left@[i as int], item) || leq(item, left@[i as int]));
                    assert(leq(item, left@[i as int]));
                    if l > i {
                        assert(leq(left@[i as int], left@[l]));
                    }
                }
            }
            merged.push(item);
            j += 1;
            proof {
                let l0 = left@.subrange(0, i as int).to_multiset();
                let r0 = right@.subrange(0, j - 1).to_multiset();
                assert(merged@ == before.push(item));
                vstd::seq_lib::to_multiset_build(before, item);
                assert(right@.subrange(0, j as int) == right@.subrange(0, j - 1).push(item));
                vstd::seq_lib::to_multiset_build(right@.subrange(0, j - 1), item);
                assert(l0.add(r0).insert(item) =~= l0.add(r0.insert(item)));
            }
        }
        assert forall|k: int, l: int| 0 <= k < l < merged@.len() implies leq(
            #[trigger] merged@[k],
            #[trigger] merged@[l],
        ) by {
            if l < before.len() {
                assert(leq(before[k], before[l]));
            }
        }
    }
    assert(left@.subrange(0, i as int) =~= left@);
    assert(right@.subrange(0, j as int) =~= right@);
    merged
}

/// Ranks the candidates `items[lo..hi]`.
fn sort_range<T: Ranked>(items: &Vec<T>, lo: usize, hi: usize) -> (sorted: Vec<T>)
    requires
        lo <= hi <= items@.len(),
    ensures
        is_ranking_of(sorted@, items@.subrange(lo as int, hi as int)),
    decreases hi - lo,
{
    broadcast use vstd::seq_lib::group_to_multiset_ensures;
    broadcast use vstd::multiset::group_multiset_axioms;

    let ghost leq = ranking_order::<T>();
    if hi - lo <= 1 {
        let mut sorted: Vec<T> = Vec::new();
        if hi - lo == 1 {
            sorted.push(items[lo]);
        }
        assert(sorted@ =~= items@.subrange(lo as int, hi as int));
        sorted
    } else {
        let mid: usize = lo + (hi - lo) / 2;
        let left = sort_range(items, lo, mid);
        let right = sort_range(items, mid, hi);
        let sorted = merge(&left, &right);
        proof {
            let l = items@.subrange(lo as int, mid as int);
            let r = items@.subrange(mid as int, hi as int);
            assert(items@.subrange(lo as int, hi as int) =~= l + r);
            vstd::seq_lib::lemma_multiset_commutative(l, r);
        }
        sorted
    }
}

/// Ranks `items`: the result holds the same candidates, first-ranked first.
pub fn sort_ranked<T: Ranked>(items: &Vec<T>) -> (sorted: Vec<T>)
    ensures
        is_ranking_of(sorted@, items@),
        sorted@.len() == items@.len(),
        sorted@ == items@.sort_by(ranking_order::<T>()),
{
    broadcast use vstd::seq_lib::group_to_multiset_ensures;

    let sorted = sort_range(items, 0, items.len());
    proof {
        assert(items@.subrange(0, items@.len() as int) =~= items@);
        lemma_ranking_is_sort(sorted@, items@);
        assert(sorted@.len() == sorted@.to_multiset().len());
        assert(items@.len() == items@.to_multiset().len());
    }
    sorted
}

} // verus!
