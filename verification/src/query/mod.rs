//! Ranking the catalogue against a contour or a name: a cheap pass over
//! everything, then, for contours, a full alignment of the best candidates.

pub mod automaton;
pub mod dedup;
pub mod engine;
pub mod heuristic;
pub mod nw;
pub mod rank;

pub use crate::query::engine::QueryEngine;

use crate::decode::types::{contour_to_contour_string, encode_contour, valid_contour, Contour};
use crate::ff_config::QUERY_REPASS_SIZE;
use crate::index::schema::{id_number, Setting, SettingID, SettingText};
use crate::index::TuneIndex;
use crate::query::dedup::kept_positions;
use crate::query::heuristic::{scored_names, scored_settings, ScoredName, ScoredSetting};
use crate::query::nw::{max_cell, shorter_len, AlignmentScore};
use crate::query::rank::{ranking_order, Ranked};
use vstd::prelude::*;
use vstd::relations::total_ordering;
use vstd::utf8::encode_utf8;

verus! {

/// How many results a contour query returns at most.
pub const QUERY_OUTPUT_SIZE: usize = 100;

/// How many results a name query returns at most.
pub const NAME_QUERY_OUTPUT_SIZE: usize = 20;

/// A query was made of an engine that holds no catalogue, or of a text so
/// long that its scores cannot be represented.
#[derive(Debug, Clone, Copy, PartialEq, Eq, Structural)]
pub struct QueryError;

impl QueryError {
    /// What to tell the user.
    pub fn message(&self) -> (text: String)
        ensures
            text@ == "query engine has not loaded index"@,
    {
        "query engine has not loaded index".to_owned()
    }
}

/// One result of a contour query.
#[derive(Debug, Clone)]
pub struct TranscriptionQueryRecord {
    pub setting_id: SettingID,
    pub setting: Setting,
    pub display_name: String,
    pub score: AlignmentScore,
}

/// One result of a name query.
#[derive(Debug, Clone)]
pub struct NameQueryRecord {
    pub setting: Setting,
    pub display_name: String,
}

/// The text and the score of a result of a contour query.
pub struct TranscriptionQueryText {
    pub setting_id: Seq<char>,
    pub setting: SettingText,
    pub display_name: Seq<char>,
    pub score: AlignmentScore,
}

/// The text of a result of a name query.
pub struct NameQueryText {
    pub setting: SettingText,
    pub display_name: Seq<char>,
}

impl View for TranscriptionQueryRecord {
    type V = TranscriptionQueryText;

    open spec fn view(&self) -> TranscriptionQueryText {
        TranscriptionQueryText {
            setting_id: self.setting_id@,
            setting: self.setting@,
            display_name: self.display_name@,
            score: self.score,
        }
    }
}

impl View for NameQueryRecord {
    type V = NameQueryText;

    open spec fn view(&self) -> NameQueryText {
        NameQueryText { setting: self.setting@, display_name: self.display_name@ }
    }
}

pub type TranscriptionQueryResults = Vec<TranscriptionQueryRecord>;

pub type NameQueryResults = Vec<NameQueryRecord>;

/// A setting, by its position in the catalogue, with the number its identifier holds.
#[derive(Debug, Clone, Copy, PartialEq, Eq, Structural)]
pub struct NumberedSetting {
    pub index: usize,
    pub number: i32,
}

impl Ranked for NumberedSetting {
    /// The lower number first; of equal numbers the earlier setting of the catalogue.
    open spec fn precedes(self, other: Self) -> bool {
        self.number < other.number || (self.number == other.number && self.index <= other.index)
    }

    proof fn lemma_total_order() {
        let leq = |a: Self, b: Self| a.precedes(b);
        assert(total_ordering(leq)) by {
            assert forall|x: Self, y: Self| #[trigger] leq(x, y) && #[trigger] leq(y, x) implies x
                == y by {}
        }
    }

    fn comes_first(&self, other: &Self) -> (first: bool) {
        self.number < other.number || (self.number == other.number && self.index <= other.index)
    }
}

/// A shortlisted setting with its alignment against the query: `index` is
/// its position in the catalogue, `order` its place on the shortlist, and
/// its score is `max_cell / (2 * shorter_len)`.
#[derive(Debug, Clone, Copy, PartialEq, Eq, Structural)]
pub struct AlignedSetting {
    pub index: usize,
    pub order: usize,
    pub max_cell: u64,
    pub shorter_len: u32,
}

impl AlignedSetting {
    /// What the best cell is divided by: the length of the shorter string, or one if that is empty.
    pub open spec fn divisor(self) -> int {
        if self.shorter_len == 0 {
            1
        } else {
            self.shorter_len as int
        }
    }

    /// Whether the score of `self` is strictly the higher one.
    pub open spec fn scores_above(self, other: Self) -> bool {
        self.max_cell * other.divisor() > other.max_cell * self.divisor()
    }

    /// Whether `self` comes no later than `other` among candidates of equal score.
    pub open spec fn breaks_tie(self, other: Self) -> bool {
        if self.order != other.order {
            self.order < other.order
        } else if self.index != other.index {
            self.index < other.index
        } else if self.max_cell != other.max_cell {
            self.max_cell < other.max_cell
        } else {
            self.shorter_len <= other.shorter_len
        }
    }
}

/// Comparing fractions with positive divisors is transitive, strictly so if
/// either comparison is strict.
pub proof fn lemma_fractions_transitive(a: int, b: int, c: int, d: int, e: int, f: int)
    requires
        b > 0,
        d > 0,
        f > 0,
        a * d >= c * b,
        c * f >= e * d,
    ensures
        a * f >= e * b,
        (a * d > c * b || c * f > e * d) ==> a * f > e * b,
{
    assert((a * d) * f >= (c * b) * f) by (nonlinear_arith)
        requires
            a * d >= c * b,
            f > 0,
    ;
    assert((c * f) * b >= (e * d) * b) by (nonlinear_arith)
        requires
            c * f >= e * d,
            b > 0,
    ;
    assert((a * d) * f == (a * f) * d && (c * b) * f == (c * f) * b && (e * d) * b == (e * b) * d)
        by (nonlinear_arith);
    assert(a * f >= e * b) by (nonlinear_arith)
        requires
            (a * f) * d >= (e * b) * d,
            d > 0,
    ;
    if a * d > c * b {
        assert((a * d) * f > (c * b) * f) by (nonlinear_arith)
            requires
                a * d > c * b,
                f > 0,
        ;
        assert(a * f > e * b) by (nonlinear_arith)
            requires
                (a * f) * d > (e * b) * d,
                d > 0,
        ;
    }
    if c * f > e * d {
        assert((c * f) * b > (e * d) * b) by (nonlinear_arith)
            requires
                c * f > e * d,
                b > 0,
        ;
        assert(a * f > e * b) by (nonlinear_arith)
            requires
                (a * f) * d > (e * b) * d,
                d > 0,
        ;
    }
}

impl Ranked for AlignedSetting {
    /// The higher score first; of equal scores the candidate that the shortlist has first.
    open spec fn precedes(self, other: Self) -> bool {
        self.scores_above(other) || (!other.scores_above(self) && self.breaks_tie(other))
    }

    proof fn lemma_total_order() {
        let leq = |a: Self, b: Self| a.precedes(b);
        assert(total_ordering(leq)) by {
            assert forall|x: Self, y: Self| #[trigger] leq(x, y) && #[trigger] leq(y, x) implies x
                == y by {}
            assert forall|x: Self, y: Self, z: Self| #[trigger]
                leq(x, y) && #[trigger] leq(y, z) implies leq(x, z) by {
                lemma_fractions_transitive(
                    x.max_cell as int,
                    x.divisor(),
                    y.max_cell as int,
                    y.divisor(),
                    z.max_cell as int,
                    z.divisor(),
                );
                if !x.scores_above(z) {
                    lemma_fractions_transitive(
                        z.max_cell as int,
                        z.divisor(),
                        x.max_cell as int,
                        x.divisor(),
                        y.max_cell as int,
                        y.divisor(),
                    );
                    lemma_fractions_transitive(
                        y.max_cell as int,
                        y.divisor(),
                        z.max_cell as int,
                        z.divisor(),
                        x.max_cell as int,
                        x.divisor(),
                    );
                }
            }
        }
    }

    fn comes_first(&self, other: &Self) -> (first: bool) {
        let own_divisor: u128 = if self.shorter_len == 0 {
            1
        } else {
            self.shorter_len as u128
        };
        let other_divisor: u128 = if other.shorter_len == 0 {
            1
        } else {
            other.shorter_len as u128
        };
        assert(self.max_cell * other_divisor <= u64::MAX * u32::MAX) by (nonlinear_arith)
            requires
                self.max_cell <= u64::MAX,
                other_divisor <= u32::MAX,
        ;
        assert(other.max_cell * own_divisor <= u64::MAX * u32::MAX) by (nonlinear_arith)
            requires
                other.max_cell <= u64::MAX,
                own_divisor <= u32::MAX,
        ;
        let own: u128 = self.max_cell as u128 * other_divisor;
        let theirs: u128 = other.max_cell as u128 * own_divisor;
        if own != theirs {
            own > theirs
        } else if self.order != other.order {
            self.order < other.order
        } else if self.index != other.index {
            self.index < other.index
        } else if self.max_cell != other.max_cell {
            self.max_cell < other.max_cell
        } else {
            self.shorter_len <= other.shorter_len
        }
    }
}

/// Writes a contour as the string that the catalogue is searched with.
pub fn query_string_from_contour(contour: &Contour) -> (query: String)
    requires
        valid_contour(contour@),
    ensures
        query@ == encode_contour(contour@),
{
    contour_to_contour_string(contour)
}

/// The settings of the tune at position `k` among the first `upto` settings
/// of the catalogue, each with the number of its identifier.
pub open spec fn tune_members(index: TuneIndex, k: int, upto: nat) -> Seq<NumberedSetting>
    decreases upto,
{
    if upto == 0 {
        Seq::empty()
    } else {
        let members = tune_members(index, k, (upto - 1) as nat);
        if index.setting_tune(upto - 1) == index.tune_id(k) {
            members.push(
                NumberedSetting {
                    index: (upto - 1) as usize,
                    number: id_number(index.setting_id(upto - 1)).unwrap() as i32,
                },
            )
        } else {
            members
        }
    }
}

/// The settings of the tune at position `k`, by rising number of their identifiers.
pub open spec fn tune_settings(index: TuneIndex, k: int) -> Seq<NumberedSetting> {
    tune_members(index, k, index.settings@.len()).sort_by(ranking_order::<NumberedSetting>())
}

/// The identifiers of the settings of the tune at position `k`, by rising number.
pub open spec fn tune_setting_ids(index: TuneIndex, k: int) -> Seq<Seq<char>> {
    Seq::new(
        tune_settings(index, k).len(),
        |r: int| index.setting_id(tune_settings(index, k)[r].index as int),
    )
}

/// The settings of the tune at position `k` under their identifiers, by rising number.
pub open spec fn tune_setting_texts(index: TuneIndex, k: int) -> Seq<(Seq<char>, SettingText)> {
    Seq::new(
        tune_settings(index, k).len(),
        |r: int|
            (
                index.setting_id(tune_settings(index, k)[r].index as int),
                index.settings@[tune_settings(index, k)[r].index as int].1@,
            ),
    )
}

/// The candidates that are aligned in full: the best of the cheap pass, up to `QUERY_REPASS_SIZE`.
pub open spec fn shortlist(query: Seq<char>, index: TuneIndex) -> Seq<ScoredSetting> {
    let ranking = scored_settings(query, index).sort_by(ranking_order::<ScoredSetting>());
    if ranking.len() > QUERY_REPASS_SIZE {
        ranking.take(QUERY_REPASS_SIZE as int)
    } else {
        ranking
    }
}

/// The candidates of `shortlist`, each aligned with the query.
pub open spec fn aligned_settings(
    query: Seq<char>,
    index: TuneIndex,
    shortlist: Seq<ScoredSetting>,
) -> Seq<AlignedSetting> {
    Seq::new(
        shortlist.len(),
        |o: int|
            AlignedSetting {
                index: shortlist[o].index,
                order: o as usize,
                max_cell: max_cell(
                    encode_utf8(query),
                    encode_utf8(index.setting_contour(shortlist[o].index as int)),
                ) as u64,
                shorter_len: shorter_len(
                    encode_utf8(query),
                    encode_utf8(index.setting_contour(shortlist[o].index as int)),
                ) as u32,
            },
    )
}

/// The shortlisted candidates by falling alignment score.
pub open spec fn reranked(query: Seq<char>, index: TuneIndex) -> Seq<AlignedSetting> {
    aligned_settings(query, index, shortlist(query, index)).sort_by(
        ranking_order::<AlignedSetting>(),
    )
}

/// The tune of each of `candidates`.
pub open spec fn candidate_tunes(index: TuneIndex, candidates: Seq<AlignedSetting>) -> Seq<
    Seq<char>,
> {
    Seq::new(candidates.len(), |p: int| index.setting_tune(candidates[p].index as int))
}

/// The first name of the tune `tune`.
pub open spec fn canonical_name(index: TuneIndex, tune: Seq<char>) -> Seq<char> {
    let k = choose|k: int| index.is_tune_position(tune, k);
    index.tune_names(k)[0]@
}

/// What a contour query reports of a candidate.
pub open spec fn transcription_text(index: TuneIndex, item: AlignedSetting) -> TranscriptionQueryText {
    TranscriptionQueryText {
        setting_id: index.setting_id(item.index as int),
        setting: index.settings@[item.index as int].1@,
        display_name: canonical_name(index, index.setting_tune(item.index as int)),
        score: AlignmentScore {
            max_cell: item.max_cell as u128,
            shorter_len: item.shorter_len as usize,
        },
    }
}

/// The results of a contour query: of the shortlisted candidates by falling
/// alignment score, the first of every tune, up to `QUERY_OUTPUT_SIZE` of them.
pub open spec fn contour_query_results(query: Seq<char>, index: TuneIndex) -> Seq<
    TranscriptionQueryText,
> {
    let ranked = reranked(query, index);
    let kept = kept_positions(
        candidate_tunes(index, ranked),
        QUERY_OUTPUT_SIZE as nat,
        ranked.len(),
    );
    Seq::new(kept.len(), |r: int| transcription_text(index, ranked[kept[r] as int]))
}

/// All names of the catalogue by falling score against a query in lowercase.
pub open spec fn name_ranking(lowered: Seq<char>, index: TuneIndex) -> Seq<ScoredName> {
    scored_names(lowered, index, index.aliases@.len()).sort_by(ranking_order::<ScoredName>())
}

/// The tune of each of `names`.
pub open spec fn name_tunes(index: TuneIndex, names: Seq<ScoredName>) -> Seq<Seq<char>> {
    Seq::new(names.len(), |p: int| index.tune_id(names[p].tune_index as int))
}

/// What a name query reports of a name: the name, and the tune's setting with the lowest number.
pub open spec fn name_text(index: TuneIndex, item: ScoredName) -> NameQueryText {
    NameQueryText {
        setting: index.settings@[tune_settings(index, item.tune_index as int)[0].index as int].1@,
        display_name: index.tune_names(item.tune_index as int)[item.alias_index as int]@,
    }
}

/// The results of a name query in lowercase: of all names by falling score,
/// the first of every tune, up to `NAME_QUERY_OUTPUT_SIZE` of them.
pub open spec fn name_query_results(lowered: Seq<char>, index: TuneIndex) -> Seq<NameQueryText> {
    let ranked = name_ranking(lowered, index);
    let kept = kept_positions(name_tunes(index, ranked), NAME_QUERY_OUTPUT_SIZE as nat, ranked.len());
    Seq::new(kept.len(), |r: int| name_text(index, ranked[kept[r] as int]))
}

/// The text of each of `records`.
pub open spec fn transcription_texts(records: Seq<TranscriptionQueryRecord>) -> Seq<
    TranscriptionQueryText,
> {
    Seq::new(records.len(), |r: int| records[r]@)
}

/// The text of each of `records`.
pub open spec fn name_texts(records: Seq<NameQueryRecord>) -> Seq<NameQueryText> {
    Seq::new(records.len(), |r: int| records[r]@)
}

/// Every member of a tune is a setting of the catalogue that belongs to the
/// tune, and every such setting is a member.
pub proof fn lemma_tune_members(index: TuneIndex, k: int, upto: nat)
    requires
        upto <= index.settings@.len(),
    ensures
        forall|r: int|
            0 <= r < tune_members(index, k, upto).len() ==> (#[trigger] tune_members(
                index,
                k,
                upto,
            )[r]).index < upto && index.setting_tune(tune_members(index, k, upto)[r].index as int)
                == index.tune_id(k),
        forall|i: int|
            0 <= i < upto && index.setting_tune(i) == index.tune_id(k) ==> exists|r: int|
                0 <= r < tune_members(index, k, upto).len() && (#[trigger] tune_members(
                    index,
                    k,
                    upto,
                )[r]).index == i,
    decreases upto,
{
    if upto > 0 {
        assert(index.settings.len() == index.settings@.len());
        lemma_tune_members(index, k, (upto - 1) as nat);
        let before = tune_members(index, k, (upto - 1) as nat);
        let now = tune_members(index, k, upto);
        assert forall|i: int|
            0 <= i < upto && index.setting_tune(i) == index.tune_id(k) implies exists|r: int|
            0 <= r < now.len() && (#[trigger] now[r]).index == i by {
            if i < upto - 1 {
                let r = choose|r: int| 0 <= r < before.len() && (#[trigger] before[r]).index == i;
                assert(now[r].index == i);
            } else {
                assert(now[now.len() - 1].index == i);
            }
        }
    }
}

/// The settings of a tune of a well-formed catalogue: there is at least one,
/// and each is a setting of the catalogue that belongs to the tune.
pub proof fn lemma_tune_settings(index: TuneIndex, k: int)
    requires
        index.wf(),
        0 <= k < index.aliases@.len(),
    ensures
        tune_settings(index, k).len() > 0,
        forall|r: int|
            0 <= r < tune_settings(index, k).len() ==> (#[trigger] tune_settings(
                index,
                k,
            )[r]).index < index.settings@.len() && index.setting_tune(
                tune_settings(index, k)[r].index as int,
            ) == index.tune_id(k),
{
    let members = tune_members(index, k, index.settings@.len());
    let sorted = tune_settings(index, k);
    lemma_tune_members(index, k, index.settings@.len());
    NumberedSetting::lemma_total_order();
    assert(ranking_order::<NumberedSetting>() == (|a: NumberedSetting, b: NumberedSetting|
        a.precedes(b)));
    members.lemma_sort_by_ensures(ranking_order::<NumberedSetting>());
    crate::query::rank::lemma_ranking_members(sorted, members);
    assert(index.tune_has_setting(index.tune_id(k)));
    let i = choose|i: int| #[trigger] index.is_setting_of(index.tune_id(k), i);
    assert(members.len() > 0);
    assert forall|r: int| 0 <= r < sorted.len() implies (#[trigger] sorted[r]).index
        < index.settings@.len() && index.setting_tune(sorted[r].index as int) == index.tune_id(
        k,
    ) by {
        assert(members.contains(sorted[r]));
        let j = choose|j: int| 0 <= j < members.len() && members[j] == sorted[r];
        assert(members[j].index < index.settings@.len());
    }
}

} // verus!
