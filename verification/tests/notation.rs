use folkfriend::abc::contour_to_abc;
use folkfriend::abc::key_converter::{
    contour_to_midi_durations, detect_key_and_mode, get_abc_vocab, get_major_key_signature,
    get_mode_as_abc, is_accidental, key_by_relative_midi, parse_rel_major,
};
use folkfriend::abc::key_types::{get_relative_midi, AbcNote, MusicalKey, MusicalMode};

fn key(letter: char, modifier: i32) -> MusicalKey {
    MusicalKey { letter, modifier }
}

fn mode(tonic: i32) -> MusicalMode {
    MusicalMode { tonic }
}

#[test]
fn scale_of_c_is_written_in_c_major() {
    let contour: Vec<u32> = vec![60, 62, 64, 65, 67, 69, 71, 72];
    assert_eq!(contour_to_abc(&contour), "K:Cmaj\nCDEF GABc |");
}

#[test]
fn held_pitches_become_longer_notes() {
    let contour: Vec<u32> = vec![62, 62, 62, 62, 62, 62, 64, 66, 67, 69, 71, 73, 74, 74];
    assert_eq!(contour_to_abc(&contour), "K:Dmaj\nD4D2EF GABc |d2 |");
}

#[test]
fn modifiers_are_written_once_in_a_bar() {
    let contour: Vec<u32> = vec![57, 59, 60, 62, 64, 65, 67, 69, 69, 68, 69, 57];
    assert_eq!(contour_to_abc(&contour), "K:Ador\nA,B,CD E=FGA2 |^GAA, |");
}

#[test]
fn four_bars_go_on_a_line() {
    let contour: Vec<u32> = vec![
        67, 71, 74, 67, 71, 74, 66, 69, 74, 66, 69, 74, 64, 67, 72, 64, 67, 72, 62, 66, 69, 62,
        66, 69, 67, 67, 67, 67, 79, 83, 86, 79, 83, 86, 78, 81, 86, 78, 81, 86, 76, 79, 84, 76,
        79, 84, 74, 78, 81,
    ];
    assert_eq!(
        contour_to_abc(&contour),
        "K:Gmaj\nGBdG BdFA |dFAd EGcE |GcDF ADFA |G4gbd' gbd'f |\nad'fa d'egc' |egc'd fa |"
    );
}

#[test]
fn notes_at_the_ends_of_the_range() {
    let contour: Vec<u32> =
        vec![60, 61, 60, 61, 61, 60, 63, 63, 60, 66, 66, 66, 66, 66, 48, 95, 72, 73, 60, 60];
    assert_eq!(contour_to_abc(&contour), "K:Abmix\nBCBC2 BD2BF4 |FB,=b'^b cB2 |");
}

#[test]
fn single_note_tune() {
    assert_eq!(contour_to_abc(&vec![70, 70, 70]), "K:Bbdor\nB3 |");
}

#[test]
fn notation_module_and_converter_agree() {
    let contour: Vec<u32> = vec![60, 64, 67, 72, 67, 64, 60];
    assert_eq!(
        contour_to_abc(&contour),
        folkfriend::abc::notation::contour_to_abc(&contour)
    );
}

#[test]
fn quavers_merge_up_to_four() {
    assert_eq!(contour_to_midi_durations(&vec![60]), vec![(60, 1)]);
    assert_eq!(contour_to_midi_durations(&vec![60, 60, 62]), vec![(60, 2), (62, 1)]);
    assert_eq!(
        contour_to_midi_durations(&vec![60, 60, 60, 60, 60, 60, 60, 60, 60]),
        vec![(60, 4), (60, 4), (60, 1)]
    );
    assert_eq!(
        contour_to_midi_durations(&vec![60, 62, 62, 62, 62, 62, 60]),
        vec![(60, 1), (62, 4), (62, 1), (60, 1)]
    );
}

#[test]
fn keys_by_pitch_class() {
    let names: Vec<String> = (0..12).map(|r| key_by_relative_midi(r).to_abc()).collect();
    assert_eq!(
        names,
        vec!["C", "C#", "D", "Eb", "E", "F", "F#", "G", "Ab", "A", "Bb", "B"]
    );
    for r in 0..12 {
        assert_eq!(get_relative_midi(&key_by_relative_midi(r)), r);
    }
    assert_eq!(get_relative_midi(&key('C', -1)), 11);
    assert_eq!(get_relative_midi(&key('B', 1)), 0);
    assert_eq!(get_relative_midi(&key('F', 2)), 7);
    assert_eq!(get_relative_midi(&key('G', -2)), 5);
}

#[test]
fn mode_names() {
    assert_eq!(get_mode_as_abc(mode(MusicalMode::IONIAN)), "maj");
    assert_eq!(get_mode_as_abc(mode(MusicalMode::DORIAN)), "dor");
    assert_eq!(get_mode_as_abc(mode(MusicalMode::MIXOLYDIAN)), "mix");
    assert_eq!(get_mode_as_abc(mode(MusicalMode::AEOLIAN)), "min");
}

#[test]
fn relative_major_of_a_mode() {
    // A minor has the notes of C major, D dorian too, G mixolydian too.
    assert_eq!(parse_rel_major(key('A', 0), mode(MusicalMode::AEOLIAN)), key('C', 0));
    assert_eq!(parse_rel_major(key('D', 0), mode(MusicalMode::DORIAN)), key('C', 0));
    assert_eq!(parse_rel_major(key('G', 0), mode(MusicalMode::MIXOLYDIAN)), key('C', 0));
    assert_eq!(parse_rel_major(key('G', 0), mode(MusicalMode::IONIAN)), key('G', 0));
    // The tonic may exceed the pitch class of the key: C mixolydian has the notes of F major.
    assert_eq!(parse_rel_major(key('C', 0), mode(MusicalMode::MIXOLYDIAN)), key('F', 0));
    assert_eq!(parse_rel_major(key('C', 0), mode(MusicalMode::AEOLIAN)), key('E', -1));
    assert_eq!(parse_rel_major(key('C', 0), mode(MusicalMode::LOCRIAN)), key('C', 1));
    assert_eq!(parse_rel_major(key('C', 0), mode(-1)), key('C', 1));
    assert_eq!(parse_rel_major(key('C', 0), mode(i32::MIN)), key('A', -1));
}

#[test]
fn accidentals_of_a_major_scale() {
    let g = key('G', 0);
    let in_scale: Vec<bool> = (55..67).map(|midi| !is_accidental(g, midi)).collect();
    assert_eq!(
        in_scale,
        vec![true, false, true, false, true, true, false, true, false, true, false, true]
    );
    // B major has C sharp, not C. Below the first note of the key the difference is negative.
    assert!(is_accidental(key('B', 0), 48));
    assert!(!is_accidental(key('B', 0), 47));
    assert!(is_accidental(key('B', 0), 0));
    assert!(!is_accidental(key('B', 0), 1));
}

#[test]
fn key_signatures() {
    // modifiers of A B C D E F G
    assert_eq!(get_major_key_signature(key('C', 0)), [0, 0, 0, 0, 0, 0, 0]);
    assert_eq!(get_major_key_signature(key('F', 0)), [0, -1, 0, 0, 0, 0, 0]);
    assert_eq!(get_major_key_signature(key('G', 0)), [0, 0, 0, 0, 0, 1, 0]);
    assert_eq!(get_major_key_signature(key('D', 0)), [0, 0, 1, 0, 0, 1, 0]);
    assert_eq!(get_major_key_signature(key('A', 0)), [0, 0, 1, 0, 0, 1, 1]);
    assert_eq!(get_major_key_signature(key('E', 0)), [0, 0, 1, 1, 0, 1, 1]);
    assert_eq!(get_major_key_signature(key('B', 0)), [1, 0, 1, 1, 0, 1, 1]);
    assert_eq!(get_major_key_signature(key('B', -1)), [0, -1, 0, 0, -1, 0, 0]);
    assert_eq!(get_major_key_signature(key('E', -1)), [-1, -1, 0, 0, -1, 0, 0]);
    assert_eq!(get_major_key_signature(key('F', 1)), [1, 0, 1, 1, 1, 1, 1]);
}

#[test]
fn vocabulary_of_g_major() {
    let vocab = get_abc_vocab(key('G', 0));
    assert_eq!(vocab.len(), 48);
    let octave: Vec<(char, i32, i32)> =
        vocab[12..24].iter().map(|n| (n.letter, n.modifier, n.octave)).collect();
    assert_eq!(
        octave,
        vec![
            ('C', 0, 4),
            ('C', 1, 4),
            ('D', 0, 4),
            ('D', 1, 4),
            ('E', 0, 4),
            ('F', 0, 4),
            ('F', 1, 4),
            ('G', 0, 4),
            ('G', 1, 4),
            ('A', 0, 4),
            ('B', -1, 4),
            ('B', 0, 4),
        ]
    );
    assert_eq!(vocab[0], AbcNote { letter: 'C', modifier: 0, octave: 3 });
    assert_eq!(vocab[47], AbcNote { letter: 'B', modifier: 0, octave: 6 });
}

#[test]
fn vocabulary_of_a_flat_major() {
    let vocab = get_abc_vocab(key('A', -1));
    let octave: Vec<(char, i32)> = vocab[12..24].iter().map(|n| (n.letter, n.modifier)).collect();
    assert_eq!(
        octave,
        vec![
            ('C', 0),
            ('D', -1),
            ('D', 0),
            ('E', -1),
            ('E', 0),
            ('F', 0),
            ('G', -1),
            ('G', 0),
            ('A', -1),
            ('A', 0),
            ('B', -1),
            ('C', -1),
        ]
    );
}

#[test]
fn every_note_of_a_vocabulary_sounds_at_its_pitch() {
    let semitones = |letter: char| match letter {
        'C' => 0,
        'D' => 2,
        'E' => 4,
        'F' => 5,
        'G' => 7,
        'A' => 9,
        _ => 11,
    };
    for r in 0..12 {
        let vocab = get_abc_vocab(key_by_relative_midi(r));
        for (p, note) in vocab.iter().enumerate() {
            let class = (semitones(note.letter) + note.modifier).rem_euclid(12);
            assert_eq!(class, (48 + p as i32) % 12);
            assert_eq!(note.octave, (48 + p as i32) / 12 - 1);
        }
    }
}

#[test]
fn notes_in_abc() {
    let note = |letter, modifier, octave| AbcNote { letter, modifier, octave };
    assert_eq!(note('C', 0, 4).get_as_abc(false), "C");
    assert_eq!(note('C', 0, 4).get_as_abc(true), "=C");
    assert_eq!(note('C', 1, 5).get_as_abc(true), "^c");
    assert_eq!(note('B', -1, 3).get_as_abc(true), "_B,");
    assert_eq!(note('F', 2, 6).get_as_abc(true), "^^f'");
    assert_eq!(note('G', -2, 2).get_as_abc(true), "__G,,");
    assert_eq!(note('A', 0, 7).get_as_abc(false), "a''");
    assert_eq!(note('A', 1, 4).get_modifier_abc(), "^");
    assert_eq!(note('A', 0, 4).get_modifier_abc(), "=");
    assert_eq!(note('A', -3, 4).get_modifier_abc(), "___");
    assert_eq!(note('E', 0, 4).get_letter_abc(), "E");
    assert_eq!(note('E', 0, 5).get_letter_abc(), "e");
    assert_eq!(note('E', 0, 5).letter_abc(), 'e');
    assert_eq!(note('E', 0, 5).get_octave_abc(), "");
    assert_eq!(note('E', 0, 4).get_octave_abc(), "");
    assert_eq!(note('E', 0, 8).get_octave_abc(), "'''");
    assert_eq!(note('E', 0, 0).get_octave_abc(), ",,,,");
    assert_eq!(note('E', 0, -1).get_octave_abc(), ",,,,,");
}

#[test]
fn key_and_mode_of_a_tune() {
    assert_eq!(
        detect_key_and_mode(&vec![60, 62, 64, 65, 67, 69, 71, 72]),
        (key('C', 0), mode(MusicalMode::IONIAN))
    );
    assert_eq!(
        detect_key_and_mode(&vec![57, 59, 60, 62, 64, 65, 67, 69, 69, 68, 69, 57]),
        (key('A', 0), mode(MusicalMode::DORIAN))
    );
    // One pitch only: the first note of a Dorian scale, the first mode that is tried.
    assert_eq!(detect_key_and_mode(&vec![70]), (key('B', -1), mode(MusicalMode::DORIAN)));
    assert_eq!(key('B', -1).to_abc(), "Bb");
}
