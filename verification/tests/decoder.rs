use folkfriend::decode::lattice::decode;
use folkfriend::decode::pitch_model::PitchModel;
use folkfriend::decode::{DecoderError, FeatureDecoder};
use folkfriend::feature::normalise::{energy_by_frame, normalise};
use folkfriend::feature::signal::{validate_sample_rate, SampleRateError};
use folkfriend::feature::types::{is_valid_features, is_valid_frame, Frame};
use folkfriend::ff_config::{ENERGY_MAX, ENERGY_ONE};

fn frame_with(entries: &[(usize, u64)]) -> Frame {
    let mut frame: Frame = [0; 48];
    for (p, e) in entries {
        frame[*p] = *e;
    }
    frame
}

#[test]
fn silence_is_rejected() {
    // One second at 48 kHz is 46 whole windows.
    let mut features: Vec<Frame> = vec![[0; 48]; 46];
    let decoder = FeatureDecoder::new(48_000).unwrap();
    let model = PitchModel::new(0);
    assert_eq!(decoder.decode_lattice_path(&mut features, &model), Err(DecoderError));
    assert_eq!(features, vec![[0u64; 48]; 46]);
}

#[test]
fn empty_buffer_is_rejected() {
    let mut features: Vec<Frame> = Vec::new();
    assert_eq!(decode(&mut features, &PitchModel::new(0)), Err(DecoderError));
}

#[test]
fn fewer_than_five_frames_are_rejected_after_normalising() {
    let mut features: Vec<Frame> = vec![frame_with(&[(3, 10)]); 4];
    assert_eq!(decode(&mut features, &PitchModel::new(0)), Err(DecoderError));
    // The energy was brought to one unit per frame before the count was taken.
    assert_eq!(features, vec![frame_with(&[(3, ENERGY_ONE)]); 4]);
}

#[test]
fn five_frames_are_enough() {
    let mut features: Vec<Frame> = vec![frame_with(&[(3, 10)]); 5];
    assert_eq!(decode(&mut features, &PitchModel::new(0)), Ok(vec![3, 3, 3, 3, 3]));
}

#[test]
fn normalising_brings_the_mean_frame_to_one_unit() {
    let mut features: Vec<Frame> =
        vec![frame_with(&[(0, 1), (1, 2)]), frame_with(&[(47, 5)]), frame_with(&[])];
    let energies = energy_by_frame(&features);
    assert_eq!(energies, vec![3, 5, 0]);
    normalise(&mut features, &energies);
    // total 8 over 3 frames: an entry e becomes e * 3 / 8 units, rounded down
    assert_eq!(
        features,
        vec![
            frame_with(&[(0, 375_000), (1, 750_000)]),
            frame_with(&[(47, 1_875_000)]),
            frame_with(&[]),
        ]
    );
}

#[test]
fn normalising_rounds_down() {
    let mut features: Vec<Frame> = vec![frame_with(&[(0, 1), (1, 2)])];
    let energies = energy_by_frame(&features);
    normalise(&mut features, &energies);
    assert_eq!(features, vec![frame_with(&[(0, 333_333), (1, 666_666)])]);
}

#[test]
fn normalising_leaves_silence_alone() {
    let mut features: Vec<Frame> = vec![[0; 48]; 3];
    let energies = energy_by_frame(&features);
    normalise(&mut features, &energies);
    assert_eq!(features, vec![[0u64; 48]; 3]);
}

#[test]
fn path_follows_the_energy() {
    let step = 1_000;
    let mut features: Vec<Frame> = vec![
        frame_with(&[(10, step)]),
        frame_with(&[(10, step)]),
        frame_with(&[(12, step)]),
        frame_with(&[(12, step)]),
        frame_with(&[(15, step)]),
        frame_with(&[(15, step)]),
    ];
    let path = decode(&mut features, &PitchModel::new(0)).unwrap();
    assert_eq!(path, vec![10, 10, 12, 12, 15, 15]);
}

#[test]
fn path_takes_the_best_pitch_of_each_frame_on_its_own() {
    // Every frame holds one unit at pitch 0 and a little less at pitch 47.
    // Staying costs nothing, so pitch 0 is the best of every row.
    let mut features: Vec<Frame> = vec![frame_with(&[(0, 51), (47, 49)]); 5];
    let path = decode(&mut features, &PitchModel::new(0)).unwrap();
    assert_eq!(path, vec![0, 0, 0, 0, 0]);
}

#[test]
fn ties_go_to_the_higher_pitch() {
    // Two equal entries: the first row ties, and the last of the best is taken.
    let mut features: Vec<Frame> = vec![frame_with(&[(5, 7), (7, 7)]); 5];
    let path = decode(&mut features, &PitchModel::new(0)).unwrap();
    assert_eq!(path[0], 7);
}

#[test]
fn staying_can_be_made_costly() {
    // With a heavy price on staying, the path prefers to move by the free interval of two semitones.
    let e = 1_000_000;
    let mut features: Vec<Frame> = vec![frame_with(&[(10, e), (12, e)]); 5];
    let path = decode(&mut features, &PitchModel::new(-10_000_000)).unwrap();
    // Row 0 ties between 10 and 12: 12. From then on arriving at 12 from 10 is free,
    // arriving at 10 from 12 costs the interval of minus two.
    assert_eq!(path, vec![12, 12, 12, 12, 12]);
}

#[test]
fn pitch_model_scores() {
    let model = PitchModel::new(-250_000);
    assert_eq!(model.score(&0), -250_000);
    assert_eq!(model.score(&2), 0);
    assert_eq!(model.score(&1), -156_060);
    assert_eq!(model.score(&-1), -165_108);
    assert_eq!(model.score(&12), -409_680);
    assert_eq!(model.score(&-12), -316_788);
    assert_eq!(model.score(&11), -617_892);
    assert_eq!(model.score(&13), -3_600_000);
    assert_eq!(model.score(&-13), -3_600_000);
    assert_eq!(model.score(&47), -3_600_000);
    assert_eq!(model.score(&i32::MIN), -3_600_000);
}

#[test]
fn sample_rates_at_the_limits_are_supported() {
    assert!(validate_sample_rate(&3952));
    assert!(validate_sample_rate(&66_974));
    assert!(validate_sample_rate(&44_100));
    assert!(validate_sample_rate(&48_000));
    assert!(!validate_sample_rate(&3951));
    assert!(!validate_sample_rate(&66_975));
    assert!(!validate_sample_rate(&0));
}

#[test]
fn decoder_refuses_unsupported_sample_rates() {
    assert_eq!(FeatureDecoder::new(48_000).map(|d| d.sample_rate), Ok(48_000));
    assert_eq!(FeatureDecoder::new(3951), Err(SampleRateError));
    assert_eq!(FeatureDecoder::new(100_000), Err(SampleRateError));
    assert_eq!(SampleRateError.message(), "Invalid sample rate");
    assert_eq!(DecoderError.message(), "Error decoding features");
}

#[test]
fn validity_of_frames_and_buffers() {
    assert!(is_valid_frame(&frame_with(&[(0, ENERGY_MAX)])));
    assert!(!is_valid_frame(&frame_with(&[(47, ENERGY_MAX + 1)])));
    assert!(is_valid_features(&vec![frame_with(&[(0, 1)])]));
    assert!(!is_valid_features(&vec![frame_with(&[(0, 1)]), frame_with(&[(1, u64::MAX)])]));
}

#[test]
fn path_and_contour_stay_in_the_pitch_range() {
    let mut features: Vec<Frame> = Vec::new();
    for t in 0..40usize {
        let p = (t * 7) % 48;
        features.push(frame_with(&[(p, 1_000 + t as u64), ((p + 13) % 48, 900)]));
    }
    let decoder = FeatureDecoder::new(44_100).unwrap();
    let path = decoder.decode_lattice_path(&mut features, &PitchModel::new(-100_000)).unwrap();
    assert_eq!(path.len(), 40);
    assert!(path.iter().all(|index| *index < 48));
    let filter = folkfriend::decode::contour::NoteFilter { min_power: 0, min_duration: 1 };
    let notes = decoder.decode_notes(&path, &features, &filter).unwrap();
    assert!(notes.iter().all(|note| (48..=95).contains(&note.pitch)));
    let contour = decoder.decode_contour(&notes, &[0; 36]);
    assert!(folkfriend::decode::types::is_valid_contour_string(&contour));
    let pitches = folkfriend::decode::types::contour_string_to_contour(&contour);
    assert!(pitches.iter().all(|pitch| (48..=95).contains(pitch)));
}
