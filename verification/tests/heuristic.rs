use folkfriend::index::schema::Setting;
use folkfriend::index::TuneIndex;
use folkfriend::query::heuristic::{
    ngrams_str, rank_names, run_name_query, run_transcription_query, ScoredName, ScoredSetting,
};

fn setting(tune_id: &str, contour: &str) -> Setting {
    Setting {
        tune_id: tune_id.to_string(),
        meter: "4/4".to_string(),
        mode: "Gmajor".to_string(),
        abc: "|:GABc:|".to_string(),
        dance: "reel".to_string(),
        contour: contour.to_string(),
    }
}

fn catalogue() -> TuneIndex {
    TuneIndex {
        settings: vec![
            ("10".to_string(), setting("1", "abcdabcd")),
            ("11".to_string(), setting("1", "xxxxxxxx")),
            ("12".to_string(), setting("2", "abcdefgh")),
            ("13".to_string(), setting("3", "abcabcab")),
        ],
        aliases: vec![
            ("1".to_string(), vec!["The Banshee".to_string(), "McMahon's".to_string()]),
            ("2".to_string(), vec!["banshee".to_string()]),
            ("3".to_string(), vec!["Cooley's".to_string()]),
        ],
    }
}

#[test]
fn ngrams_overlap() {
    assert_eq!(ngrams_str(&"abcde".to_string(), 3), vec!["abc", "bcd", "cde"]);
    assert_eq!(ngrams_str(&"abcde".to_string(), 5), vec!["abcde"]);
    assert_eq!(ngrams_str(&"abcd".to_string(), 1), vec!["a", "b", "c", "d"]);
}

#[test]
fn short_query_is_its_own_ngram() {
    assert_eq!(ngrams_str(&"ab".to_string(), 3), vec!["ab"]);
    assert_eq!(ngrams_str(&"".to_string(), 4), vec![""]);
}

#[test]
fn ngrams_count_characters_not_bytes() {
    assert_eq!(ngrams_str(&"héllo".to_string(), 4), vec!["héll", "éllo"]);
}

#[test]
fn settings_ranked_by_shared_ngrams() {
    // The query has the 4-grams abcd and bcda.
    let ranking = run_transcription_query(&"abcda".to_string(), &catalogue()).unwrap();
    assert_eq!(
        ranking,
        vec![
            // abcd twice, bcda once
            ScoredSetting { index: 0, ngram_score: 3 },
            // abcd once
            ScoredSetting { index: 2, ngram_score: 1 },
            // nothing: the earlier setting first
            ScoredSetting { index: 1, ngram_score: 0 },
            ScoredSetting { index: 3, ngram_score: 0 },
        ]
    );
}

#[test]
fn repeated_ngram_counts_twice() {
    // The query has the 4-grams aaaa, aaaa: each occurs twice in the contour.
    let index = TuneIndex {
        settings: vec![("1".to_string(), setting("1", "aaaaa"))],
        aliases: vec![("1".to_string(), vec!["A".to_string()])],
    };
    let ranking = run_transcription_query(&"aaaaa".to_string(), &index).unwrap();
    assert_eq!(ranking, vec![ScoredSetting { index: 0, ngram_score: 4 }]);
}

#[test]
fn query_shorter_than_an_ngram_is_searched_whole() {
    let ranking = run_transcription_query(&"abc".to_string(), &catalogue()).unwrap();
    assert_eq!(
        ranking,
        vec![
            // equal scores come in the order of the catalogue
            ScoredSetting { index: 0, ngram_score: 2 },
            ScoredSetting { index: 3, ngram_score: 2 },
            ScoredSetting { index: 2, ngram_score: 1 },
            ScoredSetting { index: 1, ngram_score: 0 },
        ]
    );
}

#[test]
fn empty_query_matches_at_every_offset() {
    let ranking = run_transcription_query(&"".to_string(), &catalogue()).unwrap();
    // The empty n-gram occurs once at each of the nine offsets of every contour.
    assert_eq!(
        ranking,
        vec![
            ScoredSetting { index: 0, ngram_score: 9 },
            ScoredSetting { index: 1, ngram_score: 9 },
            ScoredSetting { index: 2, ngram_score: 9 },
            ScoredSetting { index: 3, ngram_score: 9 },
        ]
    );
}

#[test]
fn names_ranked_by_score_then_length() {
    // 3-grams of "banshee": ban ans nsh she hee
    let ranking = rank_names(&"banshee".to_string(), &catalogue()).unwrap();
    assert_eq!(
        ranking,
        vec![
            // all five 3-grams
            ScoredName { tune_index: 1, alias_index: 0, ngram_score: 5, alias_len: 7 },
            // "The Banshee" has a capital B: ans nsh she hee
            ScoredName { tune_index: 0, alias_index: 0, ngram_score: 4, alias_len: 11 },
            // nothing in common: the shorter name first
            ScoredName { tune_index: 2, alias_index: 0, ngram_score: 0, alias_len: 8 },
            ScoredName { tune_index: 0, alias_index: 1, ngram_score: 0, alias_len: 9 },
        ]
    );
}

#[test]
fn name_query_is_put_in_lowercase() {
    let index = catalogue();
    assert_eq!(
        run_name_query(&"BANSHEE".to_string(), &index),
        rank_names(&"banshee".to_string(), &index)
    );
    assert_ne!(
        run_name_query(&"BANSHEE".to_string(), &index),
        rank_names(&"BANSHEE".to_string(), &index)
    );
}

#[test]
fn empty_catalogue_has_empty_rankings() {
    let index = TuneIndex { settings: vec![], aliases: vec![] };
    assert_eq!(run_transcription_query(&"abcd".to_string(), &index), Some(vec![]));
    assert_eq!(run_name_query(&"abc".to_string(), &index), Some(vec![]));
}
