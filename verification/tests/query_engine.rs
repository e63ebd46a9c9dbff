use folkfriend::index::schema::{parse_id, Setting};
use folkfriend::index::TuneIndex;
use folkfriend::query::nw::AlignmentScore;
use folkfriend::query::dedup::first_per_tune;
use folkfriend::query::heuristic::ScoredSetting;
use folkfriend::query::rank::{sort_ranked, Ranked};
use folkfriend::query::{AlignedSetting, QueryEngine, QueryError};

fn setting(tune_id: &str, contour: &str) -> Setting {
    Setting {
        tune_id: tune_id.to_string(),
        meter: "6/8".to_string(),
        mode: "Dmajor".to_string(),
        abc: format!("abc of {}", contour),
        dance: "jig".to_string(),
        contour: contour.to_string(),
    }
}

fn catalogue() -> TuneIndex {
    TuneIndex {
        settings: vec![
            ("30".to_string(), setting("7", "abcdefgh")),
            ("4".to_string(), setting("7", "abcdefgx")),
            ("100".to_string(), setting("8", "abcdxxxx")),
            ("9".to_string(), setting("9", "qrstuvwx")),
            ("21".to_string(), setting("7", "abcdefzz")),
        ],
        aliases: vec![
            ("7".to_string(), vec!["The Kesh".to_string(), "Kesh Jig".to_string()]),
            ("8".to_string(), vec!["Out on the Ocean".to_string()]),
            ("9".to_string(), vec!["Morrison's".to_string(), "The Stick Across the Hob".to_string()]),
        ],
    }
}

fn engine() -> QueryEngine {
    let index = catalogue();
    assert!(index.is_well_formed());
    let mut engine = QueryEngine::new();
    engine.use_tune_index(index);
    engine
}

#[test]
fn query_without_catalogue_fails() {
    let engine = QueryEngine::new();
    assert_eq!(engine.run_contour_query(&"abcd".to_string()).err(), Some(QueryError));
    assert_eq!(engine.run_name_query(&"kesh".to_string()).err(), Some(QueryError));
    assert_eq!(engine.setting_ids_from_tune_id("7".to_string()).err(), Some(QueryError));
    assert_eq!(engine.settings_from_tune_id("7".to_string()).err(), Some(QueryError));
    assert_eq!(engine.aliases_from_tune_id("7".to_string()).err(), Some(QueryError));
    assert!(engine.tune_index().is_none());
    assert_eq!(QueryError.message(), "query engine has not loaded index");
}

#[test]
fn contour_query_reports_best_setting_of_each_tune() {
    let results = engine().run_contour_query(&"abcdefgh".to_string()).unwrap();
    let summary: Vec<(&str, &str, &str, AlignmentScore)> = results
        .iter()
        .map(|r| (r.setting_id.as_str(), r.setting.tune_id.as_str(), r.display_name.as_str(), r.score))
        .collect();
    assert_eq!(
        summary,
        vec![
            ("30", "7", "The Kesh", AlignmentScore { max_cell: 16, shorter_len: 8 }),
            ("100", "8", "Out on the Ocean", AlignmentScore { max_cell: 8, shorter_len: 8 }),
            ("9", "9", "Morrison's", AlignmentScore { max_cell: 0, shorter_len: 8 }),
        ]
    );
    assert_eq!(results[0].setting.contour, "abcdefgh");
    assert_eq!(results[0].setting.abc, "abc of abcdefgh");
    assert_eq!(results[0].setting.meter, "6/8");
    assert_eq!(results[0].setting.mode, "Dmajor");
    assert_eq!(results[0].setting.dance, "jig");
}

#[test]
fn contour_query_orders_by_alignment_not_by_ngrams() {
    // "abcdabcd" shares more 4-grams with the second setting, but aligns better with the first.
    let index = TuneIndex {
        settings: vec![
            ("1".to_string(), setting("1", "abcdabc")),
            ("2".to_string(), setting("2", "abcdxabcdxabcdxabcd")),
        ],
        aliases: vec![
            ("1".to_string(), vec!["One".to_string()]),
            ("2".to_string(), vec!["Two".to_string()]),
        ],
    };
    let mut engine = QueryEngine::new();
    engine.use_tune_index(index);
    let results = engine.run_contour_query(&"abcdabcd".to_string()).unwrap();
    let ids: Vec<&str> = results.iter().map(|r| r.setting_id.as_str()).collect();
    assert_eq!(ids, vec!["1", "2"]);
    assert_eq!(results[0].score, AlignmentScore { max_cell: 14, shorter_len: 7 });
    // Two runs of abcd with one gap between them: sixteen points less one.
    assert_eq!(results[1].score, AlignmentScore { max_cell: 15, shorter_len: 8 });
}

#[test]
fn contour_query_returns_at_most_a_hundred_tunes() {
    let mut settings = Vec::new();
    let mut aliases = Vec::new();
    for i in 0..150 {
        settings.push((format!("{}", i), setting(&format!("{}", 1000 + i), "abcdefgh")));
        aliases.push((format!("{}", 1000 + i), vec![format!("Tune {}", i)]));
    }
    let index = TuneIndex { settings, aliases };
    assert!(index.is_well_formed());
    let mut engine = QueryEngine::new();
    engine.use_tune_index(index);
    let results = engine.run_contour_query(&"abcdefgh".to_string()).unwrap();
    assert_eq!(results.len(), 100);
    // Equal scores throughout: the order of the catalogue decides.
    for (i, record) in results.iter().enumerate() {
        assert_eq!(record.setting_id, format!("{}", i));
        assert_eq!(record.display_name, format!("Tune {}", i));
    }
}

#[test]
fn name_query_reports_first_name_of_each_tune() {
    let results = engine().run_name_query(&"KESH".to_string()).unwrap();
    let summary: Vec<(&str, &str)> = results
        .iter()
        .map(|r| (r.display_name.as_str(), r.setting.contour.as_str()))
        .collect();
    // "kesh" has the 3-grams kes and esh; only "esh" occurs in the names of tune 7,
    // once in each. The shorter name comes first and stands for the tune, whose
    // lowest-numbered setting is setting 4.
    assert_eq!(
        summary,
        vec![
            ("The Kesh", "abcdefgx"),
            ("Morrison's", "qrstuvwx"),
            ("Out on the Ocean", "abcdxxxx"),
        ]
    );
}

#[test]
fn name_query_returns_at_most_twenty_tunes() {
    let mut settings = Vec::new();
    let mut aliases = Vec::new();
    for i in 0..30 {
        settings.push((format!("{}", i), setting(&format!("{}", i), "abcd")));
        aliases.push((format!("{}", i), vec![format!("reel {:02}", i), "another reel".to_string()]));
    }
    let mut engine = QueryEngine::new();
    engine.use_tune_index(TuneIndex { settings, aliases });
    let results = engine.run_name_query(&"Reel".to_string()).unwrap();
    assert_eq!(results.len(), 20);
    for (i, record) in results.iter().enumerate() {
        assert_eq!(record.display_name, format!("reel {:02}", i));
    }
}

#[test]
fn settings_of_a_tune_come_in_numeric_order() {
    let engine = engine();
    assert_eq!(engine.setting_ids_from_tune_id("7".to_string()).unwrap(), vec!["4", "21", "30"]);
    assert_eq!(engine.setting_ids_from_tune_id("8".to_string()).unwrap(), vec!["100"]);
    let settings = engine.settings_from_tune_id("7".to_string()).unwrap();
    let contours: Vec<(&str, &str)> =
        settings.iter().map(|(id, s)| (id.as_str(), s.contour.as_str())).collect();
    assert_eq!(contours, vec![("4", "abcdefgx"), ("21", "abcdefzz"), ("30", "abcdefgh")]);
}

#[test]
fn names_of_a_tune_come_canonical_first() {
    let engine = engine();
    assert_eq!(
        engine.aliases_from_tune_id("9".to_string()).unwrap(),
        vec!["Morrison's", "The Stick Across the Hob"]
    );
}

#[test]
fn unknown_tune_is_an_error() {
    let engine = engine();
    assert_eq!(engine.setting_ids_from_tune_id("70".to_string()).err(), Some(QueryError));
    assert_eq!(engine.settings_from_tune_id("".to_string()).err(), Some(QueryError));
    assert_eq!(engine.aliases_from_tune_id("x".to_string()).err(), Some(QueryError));
}

#[test]
fn engine_hands_out_its_catalogue() {
    let engine = engine();
    let index = engine.tune_index().unwrap();
    assert_eq!(index.settings.len(), 5);
    assert_eq!(index.find_tune(&"8".to_string()), Some(1));
    assert_eq!(index.find_tune(&"80".to_string()), None);
    assert_eq!(index.find_setting_of(&"7".to_string()), Some(0));
    assert_eq!(index.find_setting_of(&"10".to_string()), None);
}

#[test]
fn identifiers_are_signed_decimal_numbers() {
    assert_eq!(parse_id(&"0".to_string()), Some(0));
    assert_eq!(parse_id(&"007".to_string()), Some(7));
    assert_eq!(parse_id(&"+12".to_string()), Some(12));
    assert_eq!(parse_id(&"-12".to_string()), Some(-12));
    assert_eq!(parse_id(&"2147483647".to_string()), Some(i32::MAX));
    assert_eq!(parse_id(&"-2147483648".to_string()), Some(i32::MIN));
    assert_eq!(parse_id(&"2147483648".to_string()), None);
    assert_eq!(parse_id(&"-2147483649".to_string()), None);
    assert_eq!(parse_id(&"99999999999999999999999".to_string()), None);
    assert_eq!(parse_id(&"".to_string()), None);
    assert_eq!(parse_id(&"-".to_string()), None);
    assert_eq!(parse_id(&"+".to_string()), None);
    assert_eq!(parse_id(&"12a".to_string()), None);
    assert_eq!(parse_id(&"1-2".to_string()), None);
    assert_eq!(parse_id(&" 1".to_string()), None);
    assert_eq!(parse_id(&"١".to_string()), None);
}

#[test]
fn catalogue_checks() {
    assert!(catalogue().is_well_formed());
    assert!(TuneIndex { settings: vec![], aliases: vec![] }.is_well_formed());

    let mut repeated_setting = catalogue();
    repeated_setting.settings.push(("4".to_string(), setting("9", "abcd")));
    assert!(!repeated_setting.is_well_formed());

    let mut repeated_tune = catalogue();
    repeated_tune.aliases.push(("8".to_string(), vec!["Again".to_string()]));
    assert!(!repeated_tune.is_well_formed());

    let mut not_a_number = catalogue();
    not_a_number.settings.push(("four".to_string(), setting("9", "abcd")));
    assert!(!not_a_number.is_well_formed());

    let mut unnamed = catalogue();
    unnamed.settings.push(("5".to_string(), setting("10", "abcd")));
    assert!(!unnamed.is_well_formed());

    let mut no_names = catalogue();
    no_names.settings.push(("5".to_string(), setting("10", "abcd")));
    no_names.aliases.push(("10".to_string(), vec![]));
    assert!(!no_names.is_well_formed());

    let mut no_setting = catalogue();
    no_setting.aliases.push(("10".to_string(), vec!["Lonely".to_string()]));
    assert!(!no_setting.is_well_formed());
}

#[test]
fn first_candidate_of_each_tune_is_kept() {
    let tunes: Vec<String> =
        ["a", "b", "a", "c", "b", "d", "e"].iter().map(|t| t.to_string()).collect();
    assert_eq!(first_per_tune(&tunes, 10), vec![0, 1, 3, 5, 6]);
    assert_eq!(first_per_tune(&tunes, 3), vec![0, 1, 3]);
    assert_eq!(first_per_tune(&tunes, 0), Vec::<usize>::new());
    assert_eq!(first_per_tune(&Vec::new(), 5), Vec::<usize>::new());
}

#[test]
fn candidates_are_put_in_order() {
    let items: Vec<ScoredSetting> = [(0, 3), (1, 7), (2, 3), (3, 9), (4, 0), (5, 7)]
        .iter()
        .map(|(index, ngram_score)| ScoredSetting { index: *index, ngram_score: *ngram_score })
        .collect();
    let order: Vec<usize> = sort_ranked(&items).iter().map(|item| item.index).collect();
    assert_eq!(order, vec![3, 1, 5, 0, 2, 4]);
    assert_eq!(sort_ranked(&Vec::<ScoredSetting>::new()), vec![]);
}

#[test]
fn alignment_scores_compare_as_fractions() {
    let aligned = |index, order, max_cell, shorter_len| AlignedSetting {
        index,
        order,
        max_cell,
        shorter_len,
    };
    // 7/10 of the way lies between 6/8 and 5/8.
    let items = vec![
        aligned(0, 0, 5, 4),
        aligned(1, 1, 7, 5),
        aligned(2, 2, 6, 4),
        aligned(3, 3, 14, 10),
        aligned(4, 4, 0, 0),
    ];
    let order: Vec<usize> = sort_ranked(&items).iter().map(|item| item.index).collect();
    assert_eq!(order, vec![2, 1, 3, 0, 4]);
    assert!(aligned(0, 0, 1, 2).comes_first(&aligned(1, 1, 2, 4)));
    assert!(!aligned(1, 1, 2, 4).comes_first(&aligned(0, 0, 1, 2)));
}

#[test]
fn catalogue_is_put_in_numeric_order() {
    let settings = vec![
        ("30".to_string(), setting("7", "c")),
        ("x".to_string(), setting("7", "d")),
        ("4".to_string(), setting("8", "a")),
        ("-1".to_string(), setting("8", "z")),
        ("04".to_string(), setting("9", "b")),
        ("".to_string(), setting("9", "e")),
    ];
    let aliases = vec![
        ("9".to_string(), vec!["Nine".to_string(), "IX".to_string()]),
        ("tune".to_string(), vec![]),
        ("7".to_string(), vec!["Seven".to_string()]),
        ("8".to_string(), vec!["Eight".to_string()]),
    ];
    let index = TuneIndex::ordered(settings, aliases);
    let ids: Vec<(&str, &str)> =
        index.settings.iter().map(|(id, s)| (id.as_str(), s.contour.as_str())).collect();
    // Numbers first, by rising number; "4" and "04" hold the same number and keep their
    // order; the identifiers without a number keep theirs.
    assert_eq!(ids, vec![("-1", "z"), ("4", "a"), ("04", "b"), ("30", "c"), ("x", "d"), ("", "e")]);
    assert_eq!(index.settings[1].1.tune_id, "8");
    let tunes: Vec<(&str, usize)> =
        index.aliases.iter().map(|(id, names)| (id.as_str(), names.len())).collect();
    assert_eq!(tunes, vec![("7", 1), ("8", 1), ("9", 2), ("tune", 0)]);
    assert_eq!(index.aliases[2].1, vec!["Nine", "IX"]);
    let empty = TuneIndex::ordered(vec![], vec![]);
    assert!(empty.settings.is_empty() && empty.aliases.is_empty());
}
