//! The first, cheap pass over the catalogue: how many n-grams of the query
//! occur in each contour, or in each name.

use crate::ff_config::{QUERY_NGRAM_SIZE_CONTOUR, QUERY_NGRAM_SIZE_NAME};
use crate::index::TuneIndex;
use crate::query::automaton::{
    automaton_patterns, build_automaton, count_overlapping, countable, lemma_text_has_bytes,
    lemma_total_occurrences_bound, pattern_bytes, total_occurrences,
};
use crate::query::rank::{is_ranking_of, sort_ranked, Ranked};
use crate::text::push_char;
use vstd::prelude::*;
use vstd::relations::total_ordering;
use vstd::utf8::encode_utf8;

verus! {

/// A setting, by its position in the catalogue, with its n-gram score.
#[derive(Debug, Clone, Copy, PartialEq, Eq, Structural)]
pub struct ScoredSetting {
    pub index: usize,
    pub ngram_score: usize,
}

/// A name of a tune, by the positions of the tune and of the name, with its
/// n-gram score and its length in bytes.
#[derive(Debug, Clone, Copy, PartialEq, Eq, Structural)]
pub struct ScoredName {
    pub tune_index: usize,
    pub alias_index: usize,
    pub ngram_score: usize,
    pub alias_len: usize,
}

impl Ranked for ScoredSetting {
    /// The higher score first; of equal scores the earlier setting of the catalogue.
    open spec fn precedes(self, other: Self) -> bool {
        self.ngram_score > other.ngram_score || (self.ngram_score == other.ngram_score
            && self.index <= other.index)
    }

    proof fn lemma_total_order() {
        let leq = |a: Self, b: Self| a.precedes(b);
        assert(total_ordering(leq)) by {
            assert forall|x: Self, y: Self| #[trigger] leq(x, y) && #[trigger] leq(y, x) implies x
                == y by {}
        }
    }

    fn comes_first(&self, other: &Self) -> (first: bool) {
        self.ngram_score > other.ngram_score || (self.ngram_score == other.ngram_score
            && self.index <= other.index)
    }
}

impl Ranked for ScoredName {
    /// The higher score first; of equal scores the shorter name; of equally
    /// long names the earlier one of the catalogue.
    open spec fn precedes(self, other: Self) -> bool {
        if self.ngram_score != other.ngram_score {
            self.ngram_score > other.ngram_score
        } else if self.alias_len != other.alias_len {
            self.alias_len < other.alias_len
        } else if self.tune_index != other.tune_index {
            self.tune_index < other.tune_index
        } else {
            self.alias_index <= other.alias_index
        }
    }

    proof fn lemma_total_order() {
        let leq = |a: Self, b: Self| a.precedes(b);
        assert(total_ordering(leq)) by {
            assert forall|x: Self, y: Self| #[trigger] leq(x, y) && #[trigger] leq(y, x) implies x
                == y by {}
        }
    }

    fn comes_first(&self, other: &Self) -> (first: bool) {
        if self.ngram_score != other.ngram_score {
            self.ngram_score > other.ngram_score
        } else if self.alias_len != other.alias_len {
            self.alias_len < other.alias_len
        } else if self.tune_index != other.tune_index {
            self.tune_index < other.tune_index
        } else {
            self.alias_index <= other.alias_index
        }
    }
}

/// The overlapping n-grams of `query`, first to last. A query shorter than
/// `n` has itself as its only n-gram.
pub open spec fn ngrams(query: Seq<char>, n: nat) -> Seq<Seq<char>> {
    if query.len() < n {
        seq![query]
    } else {
        Seq::new((query.len() - n + 1) as nat, |i: int| query.subrange(i, i + n))
    }
}

/// The n-grams of `query`, each as bytes.
pub open spec fn gram_bytes(query: Seq<char>, n: nat) -> Seq<Seq<u8>> {
    Seq::new(ngrams(query, n).len(), |i: int| encode_utf8(ngrams(query, n)[i]))
}

/// How many occurrences of n-grams of `query` the text holds. Overlapping
/// occurrences all count, and an n-gram that the query holds twice counts twice.
pub open spec fn ngram_score(query: Seq<char>, n: nat, text: Seq<char>) -> nat {
    total_occurrences(gram_bytes(query, n), encode_utf8(text))
}

/// Whether the n-gram score of any `text` against `query` is sure to fit in a `usize`.
pub open spec fn score_fits(query: Seq<char>, n: nat, text: Seq<char>) -> bool {
    ngrams(query, n).len() * (encode_utf8(text).len() + 1) <= usize::MAX
}

/// Every setting of the catalogue with its score, in the order of the catalogue.
pub open spec fn scored_settings(query: Seq<char>, index: TuneIndex) -> Seq<ScoredSetting> {
    Seq::new(
        index.settings@.len(),
        |i: int|
            ScoredSetting {
                index: i as usize,
                ngram_score: ngram_score(
                    query,
                    QUERY_NGRAM_SIZE_CONTOUR as nat,
                    index.setting_contour(i),
                ) as usize,
            },
    )
}

/// The names of the tune at position `k` with their scores, canonical name first.
pub open spec fn scored_names_of(query: Seq<char>, index: TuneIndex, k: int) -> Seq<ScoredName> {
    Seq::new(
        index.tune_names(k).len(),
        |a: int|
            ScoredName {
                tune_index: k as usize,
                alias_index: a as usize,
                ngram_score: ngram_score(
                    query,
                    QUERY_NGRAM_SIZE_NAME as nat,
                    index.tune_names(k)[a]@,
                ) as usize,
                alias_len: encode_utf8(index.tune_names(k)[a]@).len() as usize,
            },
    )
}

/// The names of the first `upto` tunes of the catalogue with their scores, in the order of the catalogue.
pub open spec fn scored_names(query: Seq<char>, index: TuneIndex, upto: nat) -> Seq<ScoredName>
    decreases upto,
{
    if upto == 0 {
        Seq::empty()
    } else {
        scored_names(query, index, (upto - 1) as nat) + scored_names_of(query, index, upto - 1)
    }
}

/// Whether every contour of the catalogue has a score against `query` that fits.
pub open spec fn contour_scores_fit(query: Seq<char>, index: TuneIndex) -> bool {
    forall|i: int|
        0 <= i < index.settings@.len() ==> score_fits(
            query,
            QUERY_NGRAM_SIZE_CONTOUR as nat,
            #[trigger] index.setting_contour(i),
        )
}

/// Whether every name of the catalogue has a score against `query` that fits.
pub open spec fn name_scores_fit(query: Seq<char>, index: TuneIndex) -> bool {
    forall|k: int, a: int|
        0 <= k < index.aliases@.len() && 0 <= a < index.tune_names(k).len() ==> score_fits(
            query,
            QUERY_NGRAM_SIZE_NAME as nat,
            (#[trigger] index.tune_names(k)[a])@,
        )
}

/// The result of lowercasing a text by the rules of Unicode.
pub uninterp spec fn lowercase(text: Seq<char>) -> Seq<char>;

/// `str::to_lowercase`: the lowercase equivalent of the text, which depends on the text alone.
#[verifier::external_body]
pub(crate) fn to_lowercase(text: &str) -> (lowered: String)
    ensures
        lowered@ == lowercase(text@),
{
    text.to_lowercase()
}

/// The overlapping n-grams of `query`.
pub fn ngrams_str(query: &String, n: usize) -> (grams: Vec<String>)
    requires
        n >= 1,
    ensures
        grams@.len() == ngrams(query@, n as nat).len(),
        forall|i: int| 0 <= i < grams@.len() ==> (#[trigger] grams@[i])@ == ngrams(query@, n as nat)[i],
        pattern_bytes(grams@) == gram_bytes(query@, n as nat),
        grams@.len() == 1 || forall|i: int| 0 <= i < grams@.len() ==> (#[trigger] grams@[i])@.len() > 0,
        countable(gram_bytes(query@, n as nat)),
{
    let mut chars: Vec<char> = Vec::new();
    for c in it: query.as_str().chars()
        invariant
            it.seq() == query@,
            chars@ == query@.subrange(0, it.index()),
    {
        proof {
            assert(query@.subrange(0, it.index() + 1) =~= query@.subrange(0, it.index()).push(c));
        }
        chars.push(c);
    }
    assert(chars@ =~= query@);
    let mut grams: Vec<String> = Vec::new();
    if chars.len() < n {
        grams.push(query.clone());
        assert(pattern_bytes(grams@) =~= gram_bytes(query@, n as nat));
        return grams;
    }
    let count: usize = chars.len() - (n - 1);
    let mut i: usize = 0;
    while i < count
        invariant
            i <= count,
            n >= 1,
            chars@ == query@,
            chars@.len() >= n,
            count == chars.len() - n + 1,
            count == chars@.len() - n + 1,
            grams@.len() == i,
            forall|k: int| 0 <= k < i ==> (#[trigger] grams@[k])@ == query@.subrange(k, k + n),
        decreases count - i,
    {
        let mut gram = String::new();
        let mut j: usize = 0;
        while j < n
            invariant
                j <= n,
                i < count,
                n >= 1,
                chars@ == query@,
                chars@.len() >= n,
                i + n <= chars.len(),
                count == chars@.len() - n + 1,
                gram@ == query@.subrange(i as int, i + j),
            decreases n - j,
        {
            proof {
                assert(query@.subrange(i as int, i + j + 1) =~= query@.subrange(i as int, i + j).push(
                    chars@[i + j],
                ));
            }
            push_char(&mut gram, chars[i + j]);
            j += 1;
        }
        grams.push(gram);
        i += 1;
    }
    assert(pattern_bytes(grams@) =~= gram_bytes(query@, n as nat));
    assert forall|k: int| 0 <= k < grams@.len() implies (#[trigger] gram_bytes(
        query@,
        n as nat,
    )[k]).len() > 0 by {
        assert(grams@[k]@.len() == n);
        lemma_text_has_bytes(grams@[k]@);
    }
    grams
}

/// Tells whether `count` patterns have a number of occurrences in `text` that is sure to fit in a `usize`.
fn counts_fit(count: usize, text: &String) -> (fits: bool)
    ensures
        fits == (count * (encode_utf8(text@).len() + 1) <= usize::MAX),
{
    let len: usize = text.as_str().as_bytes().len();
    if count == 0 {
        return true;
    }
    if len == usize::MAX {
        proof {
            assert(count * (len + 1) > usize::MAX) by (nonlinear_arith)
                requires
                    count >= 1,
                    len == usize::MAX,
            ;
        }
        return false;
    }
    let limit: usize = usize::MAX / count;
    proof {
        let c = count as int;
        let l = (len + 1) as int;
        let m = usize::MAX as int;
        assert((l <= m / c) <==> (c * l <= m)) by (nonlinear_arith)
            requires
                c >= 1,
                l >= 0,
                m >= 0,
        ;
    }
    len + 1 <= limit
}

/// Scores every setting of the catalogue against a contour query and ranks
/// them: the higher score first, of equal scores the earlier setting.
///
/// The score of a setting is the number of occurrences, in its contour, of
/// the overlapping 4-grams of the query. `None` when a score might not fit
/// in a `usize`.
pub fn run_transcription_query(query: &String, tune_index: &TuneIndex) -> (ranking: Option<
    Vec<ScoredSetting>,
>)
    ensures
        ranking is Some <==> contour_scores_fit(query@, *tune_index),
        ranking matches Some(r) ==> is_ranking_of(r@, scored_settings(query@, *tune_index)),
{
    let grams = ngrams_str(query, QUERY_NGRAM_SIZE_CONTOUR);
    let n = tune_index.settings.len();
    let mut i: usize = 0;
    while i < n
        invariant
            i <= n,
            n == tune_index.settings@.len(),
            grams@.len() == ngrams(query@, QUERY_NGRAM_SIZE_CONTOUR as nat).len(),
            forall|j: int|
                0 <= j < i ==> score_fits(
                    query@,
                    QUERY_NGRAM_SIZE_CONTOUR as nat,
                    #[trigger] tune_index.setting_contour(j),
                ),
        decreases n - i,
    {
        if !counts_fit(grams.len(), &tune_index.settings[i].1.contour) {
            assert(!score_fits(
                query@,
                QUERY_NGRAM_SIZE_CONTOUR as nat,
                tune_index.setting_contour(i as int),
            ));
            return None;
        }
        i += 1;
    }
    let automaton = build_automaton(&grams);
    let mut scored: Vec<ScoredSetting> = Vec::new();
    let mut i: usize = 0;
    while i < n
        invariant
            i <= n,
            n == tune_index.settings@.len(),
            contour_scores_fit(query@, *tune_index),
            automaton_patterns(automaton) == gram_bytes(query@, QUERY_NGRAM_SIZE_CONTOUR as nat),
            countable(automaton_patterns(automaton)),
            scored@.len() == i,
            forall|j: int|
                0 <= j < i ==> (#[trigger] scored@[j]) == scored_settings(query@, *tune_index)[j],
        decreases n - i,
    {
        let contour = &tune_index.settings[i].1.contour;
        proof {
            assert(score_fits(
                query@,
                QUERY_NGRAM_SIZE_CONTOUR as nat,
                tune_index.setting_contour(i as int),
            ));
            lemma_total_occurrences_bound(automaton_patterns(automaton), encode_utf8(contour@));
        }
        let score = count_overlapping(&automaton, contour.as_str());
        scored.push(ScoredSetting { index: i, ngram_score: score });
        i += 1;
    }
    assert(scored@ =~= scored_settings(query@, *tune_index));
    Some(sort_ranked(&scored))
}

/// Scores every name of the catalogue against a name query already in
/// lowercase and ranks them: the higher score first, of equal scores the
/// shorter name, of equally long names the earlier one of the catalogue.
///
/// The score of a name is the number of occurrences, in the name, of the
/// overlapping 3-grams of the query. `None` when a score might not fit in a `usize`.
pub fn rank_names(lowered: &String, tune_index: &TuneIndex) -> (ranking: Option<Vec<ScoredName>>)
    ensures
        ranking is Some <==> name_scores_fit(lowered@, *tune_index),
        ranking matches Some(r) ==> is_ranking_of(
            r@,
            scored_names(lowered@, *tune_index, tune_index.aliases@.len()),
        ),
{
    let grams = ngrams_str(lowered, QUERY_NGRAM_SIZE_NAME);
    let m = tune_index.aliases.len();
    let mut k: usize = 0;
    while k < m
        invariant
            k <= m,
            m == tune_index.aliases@.len(),
            grams@.len() == ngrams(lowered@, QUERY_NGRAM_SIZE_NAME as nat).len(),
            forall|l: int, a: int|
                0 <= l < k && 0 <= a < tune_index.tune_names(l).len() ==> score_fits(
                    lowered@,
                    QUERY_NGRAM_SIZE_NAME as nat,
                    (#[trigger] tune_index.tune_names(l)[a])@,
                ),
        decreases m - k,
    {
        let names = &tune_index.aliases[k].1;
        let mut a: usize = 0;
        while a < names.len()
            invariant
                a <= names@.len(),
                k < m,
                m == tune_index.aliases@.len(),
                names@ == tune_index.tune_names(k as int),
                grams@.len() == ngrams(lowered@, QUERY_NGRAM_SIZE_NAME as nat).len(),
                forall|b: int|
                    0 <= b < a ==> score_fits(
                        lowered@,
                        QUERY_NGRAM_SIZE_NAME as nat,
                        (#[trigger] tune_index.tune_names(k as int)[b])@,
                    ),
            decreases names@.len() - a,
        {
            if !counts_fit(grams.len(), &names[a]) {
                assert(!score_fits(
                    lowered@,
                    QUERY_NGRAM_SIZE_NAME as nat,
                    tune_index.tune_names(k as int)[a as int]@,
                ));
                return None;
            }
            a += 1;
        }
        k += 1;
    }
    let automaton = build_automaton(&grams);
    let mut scored: Vec<ScoredName> = Vec::new();
    let mut k: usize = 0;
    while k < m
        invariant
            k <= m,
            m == tune_index.aliases@.len(),
            name_scores_fit(lowered@, *tune_index),
            automaton_patterns(automaton) == gram_bytes(lowered@, QUERY_NGRAM_SIZE_NAME as nat),
            countable(automaton_patterns(automaton)),
            scored@ == scored_names(lowered@, *tune_index, k as nat),
        decreases m - k,
    {
        let names = &tune_index.aliases[k].1;
        let ghost before = scored@;
        let mut a: usize = 0;
        while a < names.len()
            invariant
                a <= names@.len(),
                k < m,
                m == tune_index.aliases@.len(),
                names@ == tune_index.tune_names(k as int),
                name_scores_fit(lowered@, *tune_index),
                automaton_patterns(automaton) == gram_bytes(
                    lowered@,
                    QUERY_NGRAM_SIZE_NAME as nat,
                ),
                countable(automaton_patterns(automaton)),
                scored@.len() == before.len() + a,
                forall|j: int| 0 <= j < before.len() ==> scored@[j] == before[j],
                forall|b: int|
                    0 <= b < a ==> (#[trigger] scored@[before.len() + b]) == scored_names_of(
                        lowered@,
                        *tune_index,
                        k as int,
                    )[b],
            decreases names@.len() - a,
        {
            let name = &names[a];
            proof {
                assert(score_fits(
                    lowered@,
                    QUERY_NGRAM_SIZE_NAME as nat,
                    tune_index.tune_names(k as int)[a as int]@,
                ));
                lemma_total_occurrences_bound(automaton_patterns(automaton), encode_utf8(name@));
            }
            let score = count_overlapping(&automaton, name.as_str());
            scored.push(
                ScoredName {
                    tune_index: k,
                    alias_index: a,
                    ngram_score: score,
                    alias_len: name.as_str().len(),
                },
            );
            a += 1;
        }
        proof {
            let added = scored_names_of(lowered@, *tune_index, k as int);
            assert forall|j: int| before.len() <= j < scored@.len() implies scored@[j] == added[j
                - before.len()] by {
                let b = j - before.len();
                assert(scored@[before.len() + b] == added[b]);
            }
            assert(scored@ =~= before + added);
        }
        k += 1;
    }
    Some(sort_ranked(&scored))
}

/// Scores every name of the catalogue against a name query and ranks them,
/// as `rank_names` does for the query put in lowercase.
pub fn run_name_query(query: &String, tune_index: &TuneIndex) -> (ranking: Option<Vec<ScoredName>>)
    ensures
        ranking is Some <==> name_scores_fit(lowercase(query@), *tune_index),
        ranking matches Some(r) ==> is_ranking_of(
            r@,
            scored_names(lowercase(query@), *tune_index, tune_index.aliases@.len()),
        ),
{
    let lowered = to_lowercase(query.as_str());
    rank_names(&lowered, tune_index)
}

} // verus!
