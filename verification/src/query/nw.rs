//! Alignment of two contour strings, in the memory of one row.
//!
//! A match scores two, a mismatch minus two, a gap minus one, and either
//! string may skip a prefix for free. The score of two strings is the best
//! cell of the whole table, so a short query is rewarded for matching
//! anywhere inside a long reference.

use vstd::prelude::*;
use vstd::utf8::encode_utf8;

verus! {

/// Score of aligning a matching pair of characters.
pub const MATCH_SCORE: i128 = 2;

/// Score of aligning a pair of characters that differ.
pub const MISMATCH_SCORE: i128 = -2;

/// Score of leaving a character unaligned.
pub const GAP_SCORE: i128 = -1;

/// The result of an alignment: the best cell of the table and the length of
/// the shorter string. The normalised score is `max_cell / (2 * shorter_len)`,
/// and zero when the shorter string is empty.
#[derive(Debug, Clone, Copy, PartialEq, Eq, Structural)]
pub struct AlignmentScore {
    pub max_cell: u128,
    pub shorter_len: usize,
}

/// Score of aligning `x` with `y`.
pub open spec fn pair_score(x: u8, y: u8) -> int {
    if x == y {
        MATCH_SCORE as int
    } else {
        MISMATCH_SCORE as int
    }
}

/// The larger of two integers.
pub open spec fn max2(x: int, y: int) -> int {
    if x >= y {
        x
    } else {
        y
    }
}

/// Cell `(i, j)` of the table: the best score of aligning a suffix of the
/// first `i` characters of `a` with a suffix of the first `j` characters of `b`.
pub open spec fn cell(a: Seq<u8>, b: Seq<u8>, i: nat, j: nat) -> int
    decreases i + j,
{
    if i == 0 || j == 0 {
        0
    } else {
        max2(
            cell(a, b, (i - 1) as nat, (j - 1) as nat) + pair_score(a[i - 1], b[j - 1]),
            max2(
                cell(a, b, (i - 1) as nat, j) + GAP_SCORE,
                cell(a, b, i, (j - 1) as nat) + GAP_SCORE,
            ),
        )
    }
}

/// The best of the cells `(0, j)` to `(i, j)`.
pub open spec fn best_in_row(a: Seq<u8>, b: Seq<u8>, j: nat, i: nat) -> int
    decreases i,
{
    if i == 0 {
        0
    } else {
        max2(best_in_row(a, b, j, (i - 1) as nat), cell(a, b, i, j))
    }
}

/// The best cell of the rows `0` to `j`.
pub open spec fn best_upto_row(a: Seq<u8>, b: Seq<u8>, j: nat) -> int
    decreases j,
{
    if j == 0 {
        0
    } else {
        max2(best_upto_row(a, b, (j - 1) as nat), best_in_row(a, b, j, a.len()))
    }
}

/// The best cell of the whole table of `a` against `b`.
pub open spec fn max_cell(a: Seq<u8>, b: Seq<u8>) -> int {
    best_upto_row(a, b, b.len())
}

/// The length of the shorter of two strings.
pub open spec fn shorter_len(a: Seq<u8>, b: Seq<u8>) -> nat {
    if a.len() <= b.len() {
        a.len()
    } else {
        b.len()
    }
}

/// A cell never exceeds two points per character of the shorter prefix, and
/// never falls below minus one point per character of either prefix.
pub proof fn lemma_cell_bounds(a: Seq<u8>, b: Seq<u8>, i: nat, j: nat)
    ensures
        cell(a, b, i, j) <= 2 * i,
        cell(a, b, i, j) <= 2 * j,
        cell(a, b, i, j) >= -(i as int),
        cell(a, b, i, j) >= -(j as int),
    decreases i + j,
{
    if i != 0 && j != 0 {
        lemma_cell_bounds(a, b, (i - 1) as nat, (j - 1) as nat);
        lemma_cell_bounds(a, b, (i - 1) as nat, j);
        lemma_cell_bounds(a, b, i, (j - 1) as nat);
    }
}

/// The table of `b` against `a` is the table of `a` against `b`, transposed.
pub proof fn lemma_cell_symmetric(a: Seq<u8>, b: Seq<u8>, i: nat, j: nat)
    ensures
        cell(a, b, i, j) == cell(b, a, j, i),
    decreases i + j,
{
    if i != 0 && j != 0 {
        lemma_cell_symmetric(a, b, (i - 1) as nat, (j - 1) as nat);
        lemma_cell_symmetric(a, b, (i - 1) as nat, j);
        lemma_cell_symmetric(a, b, i, (j - 1) as nat);
    }
}

/// The best of a row is one of its cells and no smaller than any of them.
pub proof fn lemma_best_in_row(a: Seq<u8>, b: Seq<u8>, j: nat, i: nat)
    ensures
        forall|k: nat| k <= i ==> #[trigger] cell(a, b, k, j) <= best_in_row(a, b, j, i),
        exists|k: nat| k <= i && #[trigger] cell(a, b, k, j) == best_in_row(a, b, j, i),
    decreases i,
{
    if i == 0 {
        assert(cell(a, b, 0, j) == best_in_row(a, b, j, 0));
    } else {
        lemma_best_in_row(a, b, j, (i - 1) as nat);
        let k0 = choose|k: nat|
            k <= i - 1 && #[trigger] cell(a, b, k, j) == best_in_row(a, b, j, (i - 1) as nat);
        if best_in_row(a, b, j, (i - 1) as nat) >= cell(a, b, i, j) {
            assert(k0 <= i && cell(a, b, k0, j) == best_in_row(a, b, j, i));
        } else {
            assert(i <= i && cell(a, b, i, j) == best_in_row(a, b, j, i));
        }
    }
}

/// The best of the first rows is one of their cells and no smaller than any of them.
pub proof fn lemma_best_upto_row(a: Seq<u8>, b: Seq<u8>, j: nat)
    ensures
        forall|k: nat, l: nat|
            k <= a.len() && l <= j ==> #[trigger] cell(a, b, k, l) <= best_upto_row(a, b, j),
        exists|k: nat, l: nat|
            k <= a.len() && l <= j && #[trigger] cell(a, b, k, l) == best_upto_row(a, b, j),
    decreases j,
{
    if j == 0 {
        assert(0 <= a.len() && 0 <= j && cell(a, b, 0, 0) == best_upto_row(a, b, 0));
    } else {
        lemma_best_upto_row(a, b, (j - 1) as nat);
        lemma_best_in_row(a, b, j, a.len());
        let (k0, l0) = choose|k: nat, l: nat|
            k <= a.len() && l <= j - 1 && #[trigger] cell(a, b, k, l) == best_upto_row(
                a,
                b,
                (j - 1) as nat,
            );
        let k1 = choose|k: nat|
            k <= a.len() && #[trigger] cell(a, b, k, j) == best_in_row(a, b, j, a.len());
        if best_upto_row(a, b, (j - 1) as nat) >= best_in_row(a, b, j, a.len()) {
            assert(k0 <= a.len() && l0 <= j && cell(a, b, k0, l0) == best_upto_row(a, b, j));
        } else {
            assert(k1 <= a.len() && j <= j && cell(a, b, k1, j) == best_upto_row(a, b, j));
        }
        assert forall|k: nat, l: nat| k <= a.len() && l <= j implies #[trigger] cell(a, b, k, l)
            <= best_upto_row(a, b, j) by {
            if l == j {
                assert(cell(a, b, k, j) <= best_in_row(a, b, j, a.len()));
            }
        }
    }
}

/// The best cell of the table is a cell of the table and no smaller than any other.
pub proof fn lemma_max_cell_is_maximum(a: Seq<u8>, b: Seq<u8>)
    ensures
        forall|i: nat, j: nat|
            i <= a.len() && j <= b.len() ==> #[trigger] cell(a, b, i, j) <= max_cell(a, b),
        exists|i: nat, j: nat|
            i <= a.len() && j <= b.len() && #[trigger] cell(a, b, i, j) == max_cell(a, b),
{
    lemma_best_upto_row(a, b, b.len());
}

/// The alignment score lies between zero and two points per character of the shorter string.
pub proof fn lemma_max_cell_bounds(a: Seq<u8>, b: Seq<u8>)
    ensures
        0 <= max_cell(a, b),
        max_cell(a, b) <= 2 * a.len(),
        max_cell(a, b) <= 2 * b.len(),
{
    lemma_max_cell_is_maximum(a, b);
    assert(cell(a, b, 0, 0) <= max_cell(a, b));
    let (i, j) = choose|i: nat, j: nat|
        i <= a.len() && j <= b.len() && #[trigger] cell(a, b, i, j) == max_cell(a, b);
    lemma_cell_bounds(a, b, i, j);
}

/// Swapping the two strings does not change the alignment score.
pub proof fn lemma_max_cell_symmetric(a: Seq<u8>, b: Seq<u8>)
    ensures
        max_cell(a, b) == max_cell(b, a),
{
    lemma_max_cell_is_maximum(a, b);
    lemma_max_cell_is_maximum(b, a);
    let (i, j) = choose|i: nat, j: nat|
        i <= a.len() && j <= b.len() && #[trigger] cell(a, b, i, j) == max_cell(a, b);
    lemma_cell_symmetric(a, b, i, j);
    assert(cell(b, a, j, i) <= max_cell(b, a));
    let (k, l) = choose|k: nat, l: nat|
        k <= b.len() && l <= a.len() && #[trigger] cell(b, a, k, l) == max_cell(b, a);
    lemma_cell_symmetric(b, a, k, l);
    assert(cell(a, b, l, k) <= max_cell(a, b));
}

/// An empty string aligns with nothing: the score is zero.
pub proof fn lemma_max_cell_empty(a: Seq<u8>, b: Seq<u8>)
    requires
        a.len() == 0 || b.len() == 0,
    ensures
        max_cell(a, b) == 0,
{
    lemma_max_cell_bounds(a, b);
}

/// Along the diagonal of a shared stretch every character scores a match,
/// wherever in `b` the stretch begins.
pub proof fn lemma_cell_of_shared_stretch(a: Seq<u8>, b: Seq<u8>, start: nat, k: nat)
    requires
        k <= a.len(),
        start + k <= b.len(),
        forall|i: int| 0 <= i < k ==> a[i] == b[start + i],
    ensures
        cell(a, b, k, start + k) == 2 * k,
    decreases k,
{
    lemma_cell_bounds(a, b, k, start + k);
    if k > 0 {
        lemma_cell_of_shared_stretch(a, b, start, (k - 1) as nat);
        assert(a[k - 1] == b[start + (k - 1)]);
    }
}

/// When one string lies somewhere inside the other, the score is the full
/// two points per character of the string inside.
pub proof fn lemma_max_cell_of_substring(a: Seq<u8>, b: Seq<u8>, start: nat)
    requires
        start + a.len() <= b.len(),
        forall|i: int| 0 <= i < a.len() ==> a[i] == b[start + i],
    ensures
        max_cell(a, b) == 2 * a.len(),
        max_cell(b, a) == 2 * a.len(),
{
    lemma_cell_of_shared_stretch(a, b, start, a.len());
    lemma_max_cell_is_maximum(a, b);
    assert(cell(a, b, a.len(), start + a.len()) <= max_cell(a, b));
    lemma_max_cell_bounds(a, b);
    lemma_max_cell_symmetric(a, b);
}

/// When one string is a prefix of the other, the score is the full two
/// points per character of the shorter string.
pub proof fn lemma_max_cell_of_prefix(a: Seq<u8>, b: Seq<u8>)
    requires
        a.len() <= b.len(),
        forall|i: int| 0 <= i < a.len() ==> a[i] == b[i],
    ensures
        max_cell(a, b) == 2 * a.len(),
        max_cell(b, a) == 2 * a.len(),
{
    lemma_max_cell_of_substring(a, b, 0);
}

/// Aligns two strings, byte by byte.
///
/// The table is filled row by row over the longer string, with one row of
/// the shorter string's length in memory, and the best cell seen is kept.
pub fn needleman_wunsch(a: &String, b: &String) -> (score: AlignmentScore)
    ensures
        score.max_cell == max_cell(encode_utf8(a@), encode_utf8(b@)),
        score.shorter_len == shorter_len(encode_utf8(a@), encode_utf8(b@)),
        score.max_cell <= 2 * score.shorter_len,
{
    let x = a.as_str().as_bytes();
    let y = b.as_str().as_bytes();
    proof {
        lemma_max_cell_symmetric(x@, y@);
    }
    let (s, l) = if x.len() > y.len() {
        (y, x)
    } else {
        (x, y)
    };
    let n = s.len();
    let m = l.len();
    proof {
        lemma_max_cell_bounds(s@, l@);
    }
    if n == 0 {
        return AlignmentScore { max_cell: 0, shorter_len: 0 };
    }
    let mut row: Vec<i128> = vec![0i128; n];
    let mut best: i128 = 0;
    let mut r: usize = 0;
    while r < m
        invariant
            r <= m,
            n == s@.len(),
            m == l@.len(),
            row@.len() == n,
            forall|k: int| 0 <= k < n ==> (#[trigger] row@[k]) == cell(s@, l@, (k + 1) as nat, r as nat),
            best == best_upto_row(s@, l@, r as nat),
        decreases m - r,
    {
        let mut diag: i128 = 0;
        let mut left: i128 = 0;
        let mut row_best: i128 = 0;
        let mut c: usize = 0;
        while c < n
            invariant
                c <= n,
                r < m,
                n == s@.len(),
                m == l@.len(),
                row@.len() == n,
                forall|k: int|
                    0 <= k < c ==> (#[trigger] row@[k]) == cell(
                        s@,
                        l@,
                        (k + 1) as nat,
                        (r + 1) as nat,
                    ),
                forall|k: int|
                    c <= k < n ==> (#[trigger] row@[k]) == cell(s@, l@, (k + 1) as nat, r as nat),
                diag == cell(s@, l@, c as nat, r as nat),
                left == cell(s@, l@, c as nat, (r + 1) as nat),
                row_best == best_in_row(s@, l@, (r + 1) as nat, c as nat),
            decreases n - c,
        {
            let up: i128 = row[c];
            proof {
                lemma_cell_bounds(s@, l@, c as nat, r as nat);
                lemma_cell_bounds(s@, l@, c as nat, (r + 1) as nat);
                lemma_cell_bounds(s@, l@, (c + 1) as nat, r as nat);
                lemma_cell_bounds(s@, l@, (c + 1) as nat, (r + 1) as nat);
            }
            let pair: i128 = if s[c] == l[r] {
                MATCH_SCORE
            } else {
                MISMATCH_SCORE
            };
            let aligned: i128 = diag + pair;
            let skipped: i128 = if up >= left {
                up + GAP_SCORE
            } else {
                left + GAP_SCORE
            };
            let value: i128 = if aligned >= skipped {
                aligned
            } else {
                skipped
            };
            assert(value == cell(s@, l@, (c + 1) as nat, (r + 1) as nat));
            row.set(c, value);
            diag = up;
            left = value;
            if value > row_best {
                row_best = value;
            }
            c += 1;
        }
        if row_best > best {
            best = row_best;
        }
        r += 1;
    }
    AlignmentScore { max_cell: best as u128, shorter_len: n }
}

} // verus!
