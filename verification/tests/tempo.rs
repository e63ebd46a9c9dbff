use folkfriend::decode::contour::{
    best_tempo, contour_from_notes, filter_notes, lattice_ind_to_pitch, notes_from_lattice_path,
    quantise_duration, quantise_notes, tempos, Note, NoteFilter, QuantisedNote,
};
use folkfriend::decode::octave::correct_contour_octave;
use folkfriend::decode::{DecoderError, FeatureDecoder};
use folkfriend::feature::types::Frame;

fn frame_with(entries: &[(usize, u64)]) -> Frame {
    let mut frame: Frame = [0; 48];
    for (p, e) in entries {
        frame[*p] = *e;
    }
    frame
}

#[test]
fn whole_quavers_at_120_bpm_stay_whole() {
    // At 48 kHz and 120 beats per minute a quaver lasts 11.71875 frames,
    // so 64 quavers last exactly 750 frames.
    for k in 1..=8u64 {
        let duration = (750 * k) as usize;
        assert_eq!(quantise_duration(duration, 120, 48_000), 64 * k);
    }
    let notes = vec![Note { pitch: 60, duration: 750, energy: 750 }; 5];
    let quantised = quantise_notes(&notes, 120, 48_000);
    assert_eq!(
        quantised,
        vec![QuantisedNote { pitch: 60, duration: 750, energy: 750, quavers_quant: 64 }; 5]
    );
}

#[test]
fn quavers_are_rounded_to_the_nearest() {
    // 11.71875 frames to the quaver
    assert_eq!(quantise_duration(12, 120, 48_000), 1);
    assert_eq!(quantise_duration(17, 120, 48_000), 1);
    assert_eq!(quantise_duration(18, 120, 48_000), 2);
    assert_eq!(quantise_duration(29, 120, 48_000), 2);
    assert_eq!(quantise_duration(30, 120, 48_000), 3);
}

#[test]
fn a_half_counts_upward() {
    // At 60 bpm and 61 440 Hz a quaver lasts 30 frames.
    assert_eq!(quantise_duration(44, 60, 61_440), 1);
    assert_eq!(quantise_duration(45, 60, 61_440), 2);
    assert_eq!(quantise_duration(75, 60, 61_440), 3);
}

#[test]
fn a_fifth_of_a_quaver_or_less_is_no_quaver() {
    // At 60 bpm and 61 440 Hz a quaver lasts 30 frames: six frames are a fifth.
    assert_eq!(quantise_duration(0, 60, 61_440), 0);
    assert_eq!(quantise_duration(6, 60, 61_440), 0);
    // More than a fifth is given a whole quaver.
    assert_eq!(quantise_duration(7, 60, 61_440), 1);
    assert_eq!(quantise_duration(14, 60, 61_440), 1);
}

#[test]
fn tempos_run_from_60_to_235() {
    let bpms = tempos();
    assert_eq!(bpms.len(), 36);
    assert_eq!(bpms[0], 60);
    assert_eq!(bpms[1], 65);
    assert_eq!(bpms[35], 235);
}

#[test]
fn first_of_the_best_tempos_wins() {
    assert_eq!(best_tempo(&vec![1, 5, 3, 5, 2]), 1);
    assert_eq!(best_tempo(&vec![-3]), 0);
    assert_eq!(best_tempo(&vec![0, 0, 0]), 0);
    assert_eq!(best_tempo(&vec![i64::MIN, i64::MAX]), 1);
}

#[test]
fn path_is_compressed_into_runs() {
    let path: Vec<usize> = vec![3, 3, 3, 7, 7, 3];
    let features: Vec<Frame> = vec![
        frame_with(&[(3, 10)]),
        frame_with(&[(3, 20), (7, 100)]),
        frame_with(&[(3, 30)]),
        frame_with(&[(7, 1)]),
        frame_with(&[(7, 2)]),
        frame_with(&[(3, 4)]),
    ];
    assert_eq!(
        notes_from_lattice_path(&path, &features),
        vec![
            Note { pitch: 51, duration: 3, energy: 60 },
            Note { pitch: 55, duration: 2, energy: 3 },
            Note { pitch: 51, duration: 1, energy: 4 },
        ]
    );
    assert_eq!(notes_from_lattice_path(&vec![], &vec![]), vec![]);
}

#[test]
fn lattice_index_counts_from_the_lowest_pitch() {
    assert_eq!(lattice_ind_to_pitch(&0), 48);
    assert_eq!(lattice_ind_to_pitch(&47), 95);
}

#[test]
fn weak_and_short_notes_are_dropped() {
    let notes = vec![
        Note { pitch: 60, duration: 4, energy: 40 },
        // mean energy 9 is below 10
        Note { pitch: 61, duration: 4, energy: 39 },
        // too short
        Note { pitch: 62, duration: 2, energy: 1000 },
        // mean energy exactly 10, duration exactly 3
        Note { pitch: 63, duration: 3, energy: 30 },
    ];
    let filter = NoteFilter { min_power: 10, min_duration: 3 };
    assert_eq!(
        filter_notes(&notes, &filter),
        vec![Note { pitch: 60, duration: 4, energy: 40 }, Note { pitch: 63, duration: 3, energy: 30 }]
    );
}

#[test]
fn fewer_than_four_notes_are_no_music() {
    let decoder = FeatureDecoder::new(48_000).unwrap();
    let filter = NoteFilter { min_power: 0, min_duration: 1 };
    let three: Vec<usize> = vec![1, 2, 3];
    let four: Vec<usize> = vec![1, 2, 3, 4];
    let features: Vec<Frame> = vec![[5; 48]; 4];
    assert_eq!(decoder.decode_notes(&three, &features[..3].to_vec(), &filter), Err(DecoderError));
    assert_eq!(decoder.decode_notes(&vec![], &vec![], &filter), Err(DecoderError));
    assert_eq!(
        decoder.decode_notes(&four, &features, &filter),
        Ok(vec![
            Note { pitch: 49, duration: 1, energy: 5 },
            Note { pitch: 50, duration: 1, energy: 5 },
            Note { pitch: 51, duration: 1, energy: 5 },
            Note { pitch: 52, duration: 1, energy: 5 },
        ])
    );
    let strict = NoteFilter { min_power: 6, min_duration: 1 };
    assert_eq!(decoder.decode_notes(&four, &features, &strict), Err(DecoderError));
}

#[test]
fn notes_are_written_once_per_quaver() {
    let notes = vec![
        QuantisedNote { pitch: 60, duration: 24, energy: 1, quavers_quant: 2 },
        QuantisedNote { pitch: 62, duration: 1, energy: 1, quavers_quant: 0 },
        QuantisedNote { pitch: 64, duration: 36, energy: 1, quavers_quant: 3 },
    ];
    assert_eq!(contour_from_notes(&notes), vec![60, 60, 64, 64, 64]);
}

#[test]
fn contour_is_written_at_the_best_tempo() {
    let decoder = FeatureDecoder::new(48_000).unwrap();
    let notes = vec![
        Note { pitch: 60, duration: 12, energy: 12 },
        Note { pitch: 62, duration: 24, energy: 24 },
        Note { pitch: 64, duration: 12, energy: 12 },
        Note { pitch: 67, duration: 2, energy: 2 },
    ];
    // 120 bpm is the thirteenth tempo: 11.71875 frames to the quaver.
    let mut scores = [0i64; 36];
    scores[12] = 10;
    scores[20] = 10;
    assert_eq!(decoder.decode_contour(&notes, &scores), "mooq");
    // 60 bpm: 23.4375 frames to the quaver. The last note is too short for a quaver.
    let mut slow = [0i64; 36];
    slow[0] = 1;
    assert_eq!(decoder.decode_contour(&notes, &slow), "moq");
    assert_eq!(
        decoder.quantise(&notes, 60),
        vec![
            QuantisedNote { pitch: 60, duration: 12, energy: 12, quavers_quant: 1 },
            QuantisedNote { pitch: 62, duration: 24, energy: 24, quavers_quant: 1 },
            QuantisedNote { pitch: 64, duration: 12, energy: 12, quavers_quant: 1 },
            QuantisedNote { pitch: 67, duration: 2, energy: 2, quavers_quant: 0 },
        ]
    );
}

#[test]
fn shrill_contour_is_lowered_an_octave() {
    // Ten pitches: the deciding place is the second (15% of ten, a half counting downward).
    let mut contour: Vec<u32> = vec![70, 80, 81, 82, 83, 84, 85, 86, 87, 88];
    correct_contour_octave(&mut contour);
    assert_eq!(contour, vec![58, 68, 69, 70, 71, 72, 73, 74, 75, 76]);
}

#[test]
fn contour_that_is_not_shrill_is_left_alone() {
    let mut contour: Vec<u32> = vec![70, 71, 81, 82, 83, 84, 85, 86, 87, 88];
    correct_contour_octave(&mut contour);
    assert_eq!(contour, vec![70, 71, 81, 82, 83, 84, 85, 86, 87, 88]);
}

#[test]
fn lowering_stops_above_the_lowest_octave() {
    let mut contour: Vec<u32> = vec![76, 60, 61, 95];
    // One pitch below the threshold, the deciding place is the first: not shrill.
    correct_contour_octave(&mut contour);
    assert_eq!(contour, vec![76, 60, 61, 95]);
    let mut shrill: Vec<u32> = vec![76, 77, 95, 76, 76, 76, 60];
    // Seven pitches: the deciding place is the second; one pitch lies below the threshold.
    correct_contour_octave(&mut shrill);
    assert_eq!(shrill, vec![64, 65, 83, 64, 64, 64, 60]);
}
