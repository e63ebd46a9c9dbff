use folkfriend::query::nw::{needleman_wunsch, AlignmentScore};

fn align(a: &str, b: &str) -> AlignmentScore {
    needleman_wunsch(&a.to_string(), &b.to_string())
}

fn normalised(score: AlignmentScore) -> f64 {
    if score.shorter_len == 0 {
        0.0
    } else {
        0.5 * score.max_cell as f64 / score.shorter_len as f64
    }
}

#[test]
fn identical_strings_score_one() {
    let score = align("abcde", "abcde");
    assert_eq!(score, AlignmentScore { max_cell: 10, shorter_len: 5 });
    assert_eq!(normalised(score), 1.0);
}

#[test]
fn short_string_inside_long_scores_one() {
    let score = align("abcde", "abcdefgh");
    assert_eq!(score, AlignmentScore { max_cell: 10, shorter_len: 5 });
    assert_eq!(normalised(score), 1.0);
}

#[test]
fn single_mismatch_costs_four_points() {
    let score = align("abcde", "abhde");
    assert_eq!(score, AlignmentScore { max_cell: 6, shorter_len: 5 });
    assert!((normalised(score) - 0.6).abs() < 1e-12);
}

#[test]
fn mismatch_at_the_edge_costs_a_gap() {
    let score = align("abcde", "cbcde");
    assert_eq!(score, AlignmentScore { max_cell: 7, shorter_len: 5 });
    assert!((normalised(score) - 0.7).abs() < 1e-12);
}

#[test]
fn empty_string_scores_zero() {
    assert_eq!(align("", "abc"), AlignmentScore { max_cell: 0, shorter_len: 0 });
    assert_eq!(align("abc", ""), AlignmentScore { max_cell: 0, shorter_len: 0 });
    assert_eq!(align("", ""), AlignmentScore { max_cell: 0, shorter_len: 0 });
    assert_eq!(normalised(align("", "abc")), 0.0);
}

#[test]
fn swapping_the_strings_keeps_the_score() {
    let pairs = [
        ("abcde", "cbcde"),
        ("abcdefgh", "abcde"),
        ("aXbXc", "abc"),
        ("hello", "yellow"),
        ("ab", "ba"),
        ("kitten", "sitting"),
    ];
    for (a, b) in pairs {
        assert_eq!(align(a, b), align(b, a));
    }
}

#[test]
fn score_stays_within_zero_and_one() {
    let pairs = [("abc", "xyz"), ("a", "b"), ("aaaa", "aa"), ("abcabc", "cba")];
    for (a, b) in pairs {
        let score = align(a, b);
        assert!(score.max_cell <= 2 * score.shorter_len as u128);
        assert!((0.0..=1.0).contains(&normalised(score)));
    }
}

#[test]
fn nothing_in_common_scores_zero() {
    assert_eq!(align("abc", "xyz"), AlignmentScore { max_cell: 0, shorter_len: 3 });
}

#[test]
fn match_after_a_free_prefix() {
    // "cde" lies at the end of the longer string: three matches, no penalty.
    assert_eq!(align("cde", "abcde"), AlignmentScore { max_cell: 6, shorter_len: 3 });
    // One gap inside the match costs one point.
    assert_eq!(align("abde", "abcde"), AlignmentScore { max_cell: 7, shorter_len: 4 });
}

#[test]
fn string_anywhere_inside_scores_one() {
    for (a, b) in [("cde", "abcdefg"), ("g", "abcdefg"), ("abcdefg", "abcdefg"), ("fg", "abcdefg")]
    {
        let score = align(a, b);
        assert_eq!(score.max_cell, 2 * a.len() as u128);
        assert_eq!(score.shorter_len, a.len());
        assert_eq!(align(b, a), score);
    }
}
