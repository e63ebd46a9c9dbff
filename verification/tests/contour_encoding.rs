use folkfriend::decode::types::{
    contour_string_to_contour, contour_to_contour_string, is_valid_contour,
    is_valid_contour_string,
};
use folkfriend::query::query_string_from_contour;

#[test]
fn contour_round_trip_keeps_the_pitches() {
    let contour: Vec<u32> = vec![60, 62, 64, 67, 69];
    let s = contour_to_contour_string(&contour);
    assert_eq!(s, "moqtv");
    assert_eq!(contour_string_to_contour(&s), contour);
}

#[test]
fn alphabet_runs_from_lowest_to_highest_pitch() {
    let all: Vec<u32> = (48..=95).collect();
    let s = contour_to_contour_string(&all);
    assert_eq!(s, "abcdefghijklmnopqrstuvwxyzABCDEFGHIJKLMNOPQRSTUV");
    assert_eq!(contour_string_to_contour(&s), all);
}

#[test]
fn string_round_trip_keeps_the_characters() {
    let s = "azAVmM".to_string();
    let contour = contour_string_to_contour(&s);
    assert_eq!(contour, vec![48, 73, 74, 95, 60, 86]);
    assert_eq!(contour_to_contour_string(&contour), s);
}

#[test]
fn empty_contour_is_the_empty_string() {
    assert_eq!(contour_to_contour_string(&Vec::new()), "");
    assert_eq!(contour_string_to_contour(&String::new()), Vec::<u32>::new());
}

#[test]
fn validity_checks_tell_the_range() {
    assert!(is_valid_contour(&vec![48, 95]));
    assert!(!is_valid_contour(&vec![47]));
    assert!(!is_valid_contour(&vec![60, 96]));
    assert!(is_valid_contour_string(&"abcV".to_string()));
    assert!(!is_valid_contour_string(&"abW".to_string()));
    assert!(!is_valid_contour_string(&"a b".to_string()));
    assert!(!is_valid_contour_string(&"é".to_string()));
}

#[test]
fn query_string_is_the_contour_string() {
    let contour: Vec<u32> = vec![48, 60, 95];
    assert_eq!(query_string_from_contour(&contour), "amV");
}
