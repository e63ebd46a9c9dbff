//! The query engine: a catalogue, and the two searches over it.

use crate::decode::types::ContourString;
use crate::ff_config::QUERY_REPASS_SIZE;
use crate::index::schema::{id_number, parse_id, Setting, SettingID, SettingText, TuneID};
use crate::index::TuneIndex;
use crate::query::dedup::first_per_tune;
use crate::query::heuristic::{
    contour_scores_fit, lowercase, name_scores_fit, rank_names, run_transcription_query,
    scored_names, scored_settings, to_lowercase, ScoredName, ScoredSetting,
};
use crate::query::nw::{max_cell, needleman_wunsch, shorter_len, AlignmentScore};
use crate::query::rank::{lemma_ranking_is_sort, lemma_ranking_members, sort_ranked};
use crate::query::{
    aligned_settings, candidate_tunes, contour_query_results, lemma_tune_settings,
    name_query_results, name_text, name_texts, name_tunes, reranked, shortlist,
    transcription_text, transcription_texts, tune_members, tune_setting_ids, tune_setting_texts,
    tune_settings, AlignedSetting, NameQueryRecord, NameQueryResults, NumberedSetting, QueryError,
    TranscriptionQueryRecord, TranscriptionQueryResults, NAME_QUERY_OUTPUT_SIZE,
    QUERY_OUTPUT_SIZE,
};
use crate::text::{duplicate_texts, texts};
use vstd::prelude::*;
use vstd::utf8::encode_utf8;

verus! {

/// Searches a catalogue by contour and by name. Without a catalogue every query fails.
pub struct QueryEngine {
    tune_index: Option<TuneIndex>,
    settings_by_tune: Vec<Vec<NumberedSetting>>,
    num_repass: usize,
    num_output: usize,
}

/// In a catalogue without repeated tune identifiers a tune has one position.
pub proof fn lemma_tune_position_unique(index: TuneIndex, tune: Seq<char>, k: int, l: int)
    requires
        index.tunes_distinct(),
        index.is_tune_position(tune, k),
        index.is_tune_position(tune, l),
    ensures
        k == l,
{
    if k < l {
        assert(index.tune_id(k) != index.tune_id(l));
    } else if l < k {
        assert(index.tune_id(l) != index.tune_id(k));
    }
}

/// The settings of the tune at position `k`, by rising number of their identifiers.
fn settings_of_tune(index: &TuneIndex, k: usize) -> (sorted: Vec<NumberedSetting>)
    requires
        index.wf(),
        k < index.aliases@.len(),
    ensures
        sorted@ == tune_settings(*index, k as int),
{
    let n = index.settings.len();
    let mut members: Vec<NumberedSetting> = Vec::new();
    let mut i: usize = 0;
    while i < n
        invariant
            i <= n,
            n == index.settings@.len(),
            index.wf(),
            k < index.aliases@.len(),
            members@ == tune_members(*index, k as int, i as nat),
        decreases n - i,
    {
        if index.settings[i].1.tune_id == index.aliases[k].0 {
            assert(id_number(index.setting_id(i as int)) is Some);
            let number = parse_id(&index.settings[i].0).unwrap();
            members.push(NumberedSetting { index: i, number });
        }
        i += 1;
    }
    sort_ranked(&members)
}

/// Aligns the query with each of the first `cut` candidates of `ranking`.
fn align_shortlist(
    contour: &ContourString,
    index: &TuneIndex,
    ranking: &Vec<ScoredSetting>,
    cut: usize,
) -> (aligned: Vec<AlignedSetting>)
    requires
        cut <= ranking@.len(),
        encode_utf8(contour@).len() <= u32::MAX,
        forall|o: int| 0 <= o < ranking@.len() ==> (#[trigger] ranking@[o]).index < index.settings@.len(),
    ensures
        aligned@ == aligned_settings(contour@, *index, ranking@.take(cut as int)),
{
    let mut aligned: Vec<AlignedSetting> = Vec::new();
    let mut o: usize = 0;
    while o < cut
        invariant
            o <= cut <= ranking@.len(),
            encode_utf8(contour@).len() <= u32::MAX,
            forall|o: int|
                0 <= o < ranking@.len() ==> (#[trigger] ranking@[o]).index < index.settings@.len(),
            aligned@.len() == o,
            forall|q: int|
                0 <= q < o ==> (#[trigger] aligned@[q]) == aligned_settings(
                    contour@,
                    *index,
                    ranking@.take(cut as int),
                )[q],
        decreases cut - o,
    {
        let item = ranking[o];
        assert(ranking@[o as int].index < index.settings@.len());
        let score = needleman_wunsch(contour, &index.settings[item.index].1.contour);
        aligned.push(
            AlignedSetting {
                index: item.index,
                order: o,
                max_cell: score.max_cell as u64,
                shorter_len: score.shorter_len as u32,
            },
        );
        o += 1;
    }
    assert(aligned@ =~= aligned_settings(contour@, *index, ranking@.take(cut as int)));
    aligned
}

/// What a contour query reports of `item`.
fn transcription_record(index: &TuneIndex, item: AlignedSetting) -> (record:
    TranscriptionQueryRecord)
    requires
        index.wf(),
        item.index < index.settings@.len(),
    ensures
        record@ == transcription_text(*index, item),
{
    let entry = &index.settings[item.index];
    let ghost tune = index.setting_tune(item.index as int);
    proof {
        assert(index.tune_named(tune));
        let named = choose|k: int| #[trigger]
            index.is_tune_position(tune, k) && index.tune_names(k).len() > 0;
        let chosen = choose|k: int| index.is_tune_position(tune, k);
        lemma_tune_position_unique(*index, tune, named, chosen);
    }
    let found = index.find_tune(&entry.1.tune_id);
    proof {
        let chosen = choose|k: int| index.is_tune_position(tune, k);
        if found is Some {
            lemma_tune_position_unique(*index, tune, found.unwrap() as int, chosen);
        } else {
            assert(!index.is_tune_position(tune, chosen));
        }
    }
    let k = found.unwrap();
    TranscriptionQueryRecord {
        setting_id: entry.0.clone(),
        setting: entry.1.duplicate(),
        display_name: index.aliases[k].1[0].clone(),
        score: AlignmentScore {
            max_cell: item.max_cell as u128,
            shorter_len: item.shorter_len as usize,
        },
    }
}

impl QueryEngine {
    /// The catalogue the engine holds, if it holds one.
    pub closed spec fn index(&self) -> Option<TuneIndex> {
        self.tune_index
    }

    /// Whether the engine is one that queries can rely on: its catalogue, if
    /// there is one, is well formed, and the settings of every tune are at hand.
    pub closed spec fn wf(&self) -> bool {
        &&& self.num_repass == QUERY_REPASS_SIZE
        &&& self.num_output == QUERY_OUTPUT_SIZE
        &&& match self.tune_index {
            None => self.settings_by_tune@.len() == 0,
            Some(index) => {
                &&& index.wf()
                &&& self.settings_by_tune@.len() == index.aliases@.len()
                &&& forall|k: int|
                    0 <= k < index.aliases@.len() ==> (#[trigger] self.settings_by_tune@[k])@
                        == tune_settings(index, k)
            },
        }
    }

    /// An engine without a catalogue.
    pub fn new() -> (engine: QueryEngine)
        ensures
            engine.wf(),
            engine.index() is None,
    {
        QueryEngine {
            tune_index: None,
            settings_by_tune: Vec::new(),
            num_repass: QUERY_REPASS_SIZE,
            num_output: QUERY_OUTPUT_SIZE,
        }
    }

    /// Takes `tune_index` as the engine's catalogue and lists, for every
    /// tune, its settings by rising number of their identifiers.
    pub fn use_tune_index(&mut self, tune_index: TuneIndex)
        requires
            old(self).wf(),
            tune_index.wf(),
        ensures
            final(self).wf(),
            final(self).index() == Some(tune_index),
    {
        let m = tune_index.aliases.len();
        let mut groups: Vec<Vec<NumberedSetting>> = Vec::new();
        let mut k: usize = 0;
        while k < m
            invariant
                k <= m,
                m == tune_index.aliases@.len(),
                tune_index.wf(),
                groups@.len() == k,
                forall|l: int| 0 <= l < k ==> (#[trigger] groups@[l])@ == tune_settings(tune_index, l),
            decreases m - k,
        {
            groups.push(settings_of_tune(&tune_index, k));
            k += 1;
        }
        self.settings_by_tune = groups;
        self.tune_index = Some(tune_index);
    }

    /// The catalogue the engine holds, if it holds one.
    pub fn tune_index(&self) -> (index: Option<&TuneIndex>)
        ensures
            match index {
                Some(i) => self.index() == Some(*i),
                None => self.index() is None,
            },
    {
        self.tune_index.as_ref()
    }

    /// Ranks the catalogue against a contour.
    ///
    /// Every setting is scored by the n-grams it shares with the query;
    /// the best `QUERY_REPASS_SIZE` are aligned with the query in full and
    /// ranked by their alignment; of these the best setting of every tune
    /// is reported under the tune's first name, up to `QUERY_OUTPUT_SIZE` results.
    ///
    /// Fails when the engine holds no catalogue, when the query is longer
    /// than `u32::MAX` bytes, and when an n-gram score might not fit in a `usize`.
    pub fn run_contour_query(&self, contour: &ContourString) -> (result: Result<
        TranscriptionQueryResults,
        QueryError,
    >)
        requires
            self.wf(),
        ensures
            result is Err <==> (self.index() is None || encode_utf8(contour@).len() > u32::MAX
                || !contour_scores_fit(contour@, self.index().unwrap())),
            result matches Ok(records) ==> transcription_texts(records@) == contour_query_results(
                contour@,
                self.index().unwrap(),
            ),
    {
        let index = match &self.tune_index {
            None => {
                return Err(QueryError);
            },
            Some(index) => index,
        };
        if contour.as_str().as_bytes().len() > u32::MAX as usize {
            return Err(QueryError);
        }
        let ranking = match run_transcription_query(contour, index) {
            None => {
                return Err(QueryError);
            },
            Some(ranking) => ranking,
        };
        let ghost scored = scored_settings(contour@, *index);
        proof {
            lemma_ranking_is_sort(ranking@, scored);
            lemma_ranking_members(ranking@, scored);
            assert forall|o: int| 0 <= o < ranking@.len() implies (#[trigger] ranking@[o]).index
                < index.settings@.len() by {
                assert(scored.contains(ranking@[o]));
                let j = choose|j: int| 0 <= j < scored.len() && scored[j] == ranking@[o];
                assert(index.settings.len() == index.settings@.len());
            }
        }
        let cut: usize = if ranking.len() > self.num_repass {
            self.num_repass
        } else {
            ranking.len()
        };
        assert(ranking@.take(cut as int) =~= shortlist(contour@, *index));
        let aligned = align_shortlist(contour, index, &ranking, cut);
        let ranked = sort_ranked(&aligned);
        proof {
            lemma_ranking_members(ranked@, aligned@);
            assert forall|p: int| 0 <= p < ranked@.len() implies (#[trigger] ranked@[p]).index
                < index.settings@.len() by {
                assert(aligned@.contains(ranked@[p]));
                let j = choose|j: int| 0 <= j < aligned@.len() && aligned@[j] == ranked@[p];
                assert(aligned@[j].index == ranking@.take(cut as int)[j].index);
            }
            assert(ranked@ == reranked(contour@, *index));
        }
        let mut tunes: Vec<String> = Vec::new();
        let mut p: usize = 0;
        while p < ranked.len()
            invariant
                p <= ranked@.len(),
                forall|p: int|
                    0 <= p < ranked@.len() ==> (#[trigger] ranked@[p]).index < index.settings@.len(),
                tunes@.len() == p,
                forall|q: int|
                    0 <= q < p ==> (#[trigger] tunes@[q])@ == index.setting_tune(
                        ranked@[q].index as int,
                    ),
            decreases ranked@.len() - p,
        {
            assert(ranked@[p as int].index < index.settings@.len());
            tunes.push(index.settings[ranked[p].index].1.tune_id.clone());
            p += 1;
        }
        assert(texts(tunes@) =~= candidate_tunes(*index, ranked@));
        let kept = first_per_tune(&tunes, self.num_output);
        let mut records: Vec<TranscriptionQueryRecord> = Vec::new();
        let mut r: usize = 0;
        while r < kept.len()
            invariant
                r <= kept@.len(),
                index.wf(),
                tunes@.len() == ranked@.len(),
                forall|p: int|
                    0 <= p < ranked@.len() ==> (#[trigger] ranked@[p]).index < index.settings@.len(),
                forall|r: int| 0 <= r < kept@.len() ==> (#[trigger] kept@[r]) < tunes@.len(),
                records@.len() == r,
                forall|q: int|
                    0 <= q < r ==> (#[trigger] records@[q])@ == transcription_text(
                        *index,
                        ranked@[kept@[q] as int],
                    ),
            decreases kept@.len() - r,
        {
            assert(kept@[r as int] < tunes@.len());
            let item = ranked[kept[r]];
            assert(ranked@[kept@[r as int] as int].index < index.settings@.len());
            records.push(transcription_record(index, item));
            r += 1;
        }
        assert(transcription_texts(records@) =~= contour_query_results(contour@, *index));
        Ok(records)
    }

    /// Ranks the names of the catalogue against a name already in lowercase.
    ///
    /// Every name is scored by the n-grams it shares with the query; of all
    /// names by falling score the first of every tune is reported, with the
    /// tune's lowest-numbered setting, up to `NAME_QUERY_OUTPUT_SIZE` results.
    ///
    /// Fails when the engine holds no catalogue, and when an n-gram score
    /// might not fit in a `usize`.
    pub fn run_lowercase_name_query(&self, lowered: &String) -> (result: Result<
        NameQueryResults,
        QueryError,
    >)
        requires
            self.wf(),
        ensures
            result is Err <==> (self.index() is None || !name_scores_fit(
                lowered@,
                self.index().unwrap(),
            )),
            result matches Ok(records) ==> name_texts(records@) == name_query_results(
                lowered@,
                self.index().unwrap(),
            ),
    {
        let index = match &self.tune_index {
            None => {
                return Err(QueryError);
            },
            Some(index) => index,
        };
        let ranked = match rank_names(lowered, index) {
            None => {
                return Err(QueryError);
            },
            Some(ranked) => ranked,
        };
        let ghost scored = scored_names(lowered@, *index, index.aliases@.len());
        proof {
            lemma_ranking_is_sort(ranked@, scored);
            lemma_ranking_members(ranked@, scored);
            lemma_scored_names(lowered@, *index, index.aliases@.len());
            assert forall|p: int| 0 <= p < ranked@.len() implies names_item(
                *index,
                #[trigger] ranked@[p],
            ) by {
                assert(scored.contains(ranked@[p]));
            }
        }
        let mut tunes: Vec<String> = Vec::new();
        let mut p: usize = 0;
        while p < ranked.len()
            invariant
                p <= ranked@.len(),
                forall|p: int| 0 <= p < ranked@.len() ==> names_item(*index, #[trigger] ranked@[p]),
                tunes@.len() == p,
                forall|q: int|
                    0 <= q < p ==> (#[trigger] tunes@[q])@ == index.tune_id(
                        ranked@[q].tune_index as int,
                    ),
            decreases ranked@.len() - p,
        {
            assert(names_item(*index, ranked@[p as int]));
            tunes.push(index.aliases[ranked[p].tune_index].0.clone());
            p += 1;
        }
        assert(texts(tunes@) =~= name_tunes(*index, ranked@));
        let kept = first_per_tune(&tunes, NAME_QUERY_OUTPUT_SIZE);
        let mut records: Vec<NameQueryRecord> = Vec::new();
        let mut r: usize = 0;
        while r < kept.len()
            invariant
                r <= kept@.len(),
                self.wf(),
                self.tune_index == Some(*index),
                tunes@.len() == ranked@.len(),
                forall|p: int| 0 <= p < ranked@.len() ==> names_item(*index, #[trigger] ranked@[p]),
                forall|r: int| 0 <= r < kept@.len() ==> (#[trigger] kept@[r]) < tunes@.len(),
                records@.len() == r,
                forall|q: int|
                    0 <= q < r ==> (#[trigger] records@[q])@ == name_text(
                        *index,
                        ranked@[kept@[q] as int],
                    ),
            decreases kept@.len() - r,
        {
            assert(kept@[r as int] < tunes@.len());
            let item = ranked[kept[r]];
            assert(names_item(*index, ranked@[kept@[r as int] as int]));
            let k = item.tune_index;
            proof {
                lemma_tune_settings(*index, k as int);
                assert(self.settings_by_tune@[k as int]@ == tune_settings(*index, k as int));
            }
            let first = self.settings_by_tune[k][0];
            records.push(
                NameQueryRecord {
                    setting: index.settings[first.index].1.duplicate(),
                    display_name: index.aliases[k].1[item.alias_index].clone(),
                },
            );
            r += 1;
        }
        assert(name_texts(records@) =~= name_query_results(lowered@, *index));
        Ok(records)
    }

    /// Ranks the names of the catalogue against a name, whatever its case:
    /// the query is put in lowercase and then ranked as
    /// `run_lowercase_name_query` does.
    pub fn run_name_query(&self, query: &String) -> (result: Result<NameQueryResults, QueryError>)
        requires
            self.wf(),
        ensures
            result is Err <==> (self.index() is None || !name_scores_fit(
                lowercase(query@),
                self.index().unwrap(),
            )),
            result matches Ok(records) ==> name_texts(records@) == name_query_results(
                lowercase(query@),
                self.index().unwrap(),
            ),
    {
        let lowered = to_lowercase(query.as_str());
        self.run_lowercase_name_query(&lowered)
    }

    /// The identifiers of the settings of a tune, by rising number.
    ///
    /// Fails when the engine holds no catalogue or the catalogue does not list the tune.
    pub fn setting_ids_from_tune_id(&self, tune_id: TuneID) -> (result: Result<
        Vec<SettingID>,
        QueryError,
    >)
        requires
            self.wf(),
        ensures
            result is Err <==> (self.index() is None || !tune_listed(
                self.index().unwrap(),
                tune_id@,
            )),
            result matches Ok(ids) ==> texts(ids@) == tune_setting_ids(
                self.index().unwrap(),
                position_of_tune(self.index().unwrap(), tune_id@),
            ),
    {
        let index = match &self.tune_index {
            None => {
                return Err(QueryError);
            },
            Some(index) => index,
        };
        let k = match index.find_tune(&tune_id) {
            None => {
                return Err(QueryError);
            },
            Some(k) => k,
        };
        proof {
            lemma_tune_position_unique(
                *index,
                tune_id@,
                k as int,
                position_of_tune(*index, tune_id@),
            );
            lemma_tune_settings(*index, k as int);
        }
        let group = &self.settings_by_tune[k];
        let mut ids: Vec<SettingID> = Vec::new();
        let mut r: usize = 0;
        while r < group.len()
            invariant
                r <= group@.len(),
                k < index.aliases@.len(),
                group@ == tune_settings(*index, k as int),
                forall|r: int|
                    0 <= r < group@.len() ==> (#[trigger] tune_settings(*index, k as int)[r]).index
                        < index.settings@.len(),
                ids@.len() == r,
                forall|q: int|
                    0 <= q < r ==> (#[trigger] ids@[q])@ == index.setting_id(group@[q].index as int),
            decreases group@.len() - r,
        {
            assert(tune_settings(*index, k as int)[r as int].index < index.settings@.len());
            ids.push(index.settings[group[r].index].0.clone());
            r += 1;
        }
        assert(texts(ids@) =~= tune_setting_ids(*index, k as int));
        Ok(ids)
    }

    /// The settings of a tune under their identifiers, by rising number of the identifiers.
    ///
    /// Fails when the engine holds no catalogue or the catalogue does not list the tune.
    pub fn settings_from_tune_id(&self, tune_id: TuneID) -> (result: Result<
        Vec<(SettingID, Setting)>,
        QueryError,
    >)
        requires
            self.wf(),
        ensures
            result is Err <==> (self.index() is None || !tune_listed(
                self.index().unwrap(),
                tune_id@,
            )),
            result matches Ok(settings) ==> setting_texts(settings@) == tune_setting_texts(
                self.index().unwrap(),
                position_of_tune(self.index().unwrap(), tune_id@),
            ),
    {
        let index = match &self.tune_index {
            None => {
                return Err(QueryError);
            },
            Some(index) => index,
        };
        let k = match index.find_tune(&tune_id) {
            None => {
                return Err(QueryError);
            },
            Some(k) => k,
        };
        proof {
            lemma_tune_position_unique(
                *index,
                tune_id@,
                k as int,
                position_of_tune(*index, tune_id@),
            );
            lemma_tune_settings(*index, k as int);
        }
        let group = &self.settings_by_tune[k];
        let mut settings: Vec<(SettingID, Setting)> = Vec::new();
        let mut r: usize = 0;
        while r < group.len()
            invariant
                r <= group@.len(),
                k < index.aliases@.len(),
                group@ == tune_settings(*index, k as int),
                forall|r: int|
                    0 <= r < group@.len() ==> (#[trigger] tune_settings(*index, k as int)[r]).index
                        < index.settings@.len(),
                settings@.len() == r,
                forall|q: int|
                    0 <= q < r ==> (#[trigger] settings@[q]).0@ == index.setting_id(
                        group@[q].index as int,
                    ) && settings@[q].1@ == index.settings@[group@[q].index as int].1@,
            decreases group@.len() - r,
        {
            assert(tune_settings(*index, k as int)[r as int].index < index.settings@.len());
            let entry = &index.settings[group[r].index];
            settings.push((entry.0.clone(), entry.1.duplicate()));
            r += 1;
        }
        assert(setting_texts(settings@) =~= tune_setting_texts(*index, k as int));
        Ok(settings)
    }

    /// The names of a tune, the canonical name first.
    ///
    /// Fails when the engine holds no catalogue or the catalogue does not list the tune.
    pub fn aliases_from_tune_id(&self, tune_id: TuneID) -> (result: Result<Vec<String>, QueryError>)
        requires
            self.wf(),
        ensures
            result is Err <==> (self.index() is None || !tune_listed(
                self.index().unwrap(),
                tune_id@,
            )),
            result matches Ok(names) ==> texts(names@) == texts(
                self.index().unwrap().tune_names(
                    position_of_tune(self.index().unwrap(), tune_id@),
                ),
            ),
    {
        let index = match &self.tune_index {
            None => {
                return Err(QueryError);
            },
            Some(index) => index,
        };
        let k = match index.find_tune(&tune_id) {
            None => {
                return Err(QueryError);
            },
            Some(k) => k,
        };
        proof {
            lemma_tune_position_unique(
                *index,
                tune_id@,
                k as int,
                position_of_tune(*index, tune_id@),
            );
        }
        Ok(duplicate_texts(&index.aliases[k].1))
    }
}

/// Whether the catalogue lists the tune `tune`.
pub open spec fn tune_listed(index: TuneIndex, tune: Seq<char>) -> bool {
    exists|k: int| index.is_tune_position(tune, k)
}

/// The position of the tune `tune` in a catalogue that lists it.
pub open spec fn position_of_tune(index: TuneIndex, tune: Seq<char>) -> int {
    choose|k: int| index.is_tune_position(tune, k)
}

/// The text of each of `settings` and of its identifier.
pub open spec fn setting_texts(settings: Seq<(SettingID, Setting)>) -> Seq<(Seq<char>, SettingText)> {
    Seq::new(settings.len(), |r: int| (settings[r].0@, settings[r].1@))
}

/// Whether `item` names a name of the catalogue.
pub open spec fn names_item(index: TuneIndex, item: ScoredName) -> bool {
    &&& item.tune_index < index.aliases@.len()
    &&& item.alias_index < index.tune_names(item.tune_index as int).len()
}

/// Every scored name is a name of the catalogue.
pub proof fn lemma_scored_names(query: Seq<char>, index: TuneIndex, upto: nat)
    requires
        upto <= index.aliases@.len(),
    ensures
        forall|item: ScoredName| #[trigger]
            scored_names(query, index, upto).contains(item) ==> names_item(index, item),
    decreases upto,
{
    if upto > 0 {
        lemma_scored_names(query, index, (upto - 1) as nat);
        let before = scored_names(query, index, (upto - 1) as nat);
        let added = crate::query::heuristic::scored_names_of(query, index, upto - 1);
        assert(index.aliases.len() == index.aliases@.len());
        assert(index.aliases@[upto - 1].1.len() == index.tune_names(upto - 1).len());
        assert forall|item: ScoredName| #[trigger]
            scored_names(query, index, upto).contains(item) implies names_item(index, item) by {
            let j = choose|j: int|
                0 <= j < (before + added).len() && (before + added)[j] == item;
            if j < before.len() {
                assert(before.contains(item));
            } else {
                assert(item == added[j - before.len()]);
            }
        }
    }
}

} // verus!

