use folkfriend::feature::postprocess::{fold_octaves, retain_top_k};
use folkfriend::feature::types::Frame;
use folkfriend::feature::{feed_frame, flush, window_count};
use folkfriend::ff_config::{ENERGY_MAX, FRAMES_MAX};

fn frame_with(entries: &[(usize, u64)]) -> Frame {
    let mut frame: Frame = [0; 48];
    for (p, e) in entries {
        frame[*p] = *e;
    }
    frame
}

fn nonzero(frame: &Frame) -> usize {
    frame.iter().filter(|e| **e != 0).count()
}

#[test]
fn folding_moves_energy_to_the_stronger_octave_above() {
    let frame = frame_with(&[(0, 1), (12, 2), (24, 4), (36, 8)]);
    assert_eq!(fold_octaves(&frame), frame_with(&[(36, 15)]));
}

#[test]
fn folding_stops_at_a_weaker_octave() {
    // 5 stays: the octave above holds less. 3 moves up into 4.
    let frame = frame_with(&[(1, 5), (13, 3), (25, 4)]);
    assert_eq!(fold_octaves(&frame), frame_with(&[(1, 5), (25, 7)]));
}

#[test]
fn folding_compares_with_what_was_folded_so_far() {
    // 2 moves into 3, which then holds 5 and is no longer weaker than the 4 above.
    let frame = frame_with(&[(2, 2), (14, 3), (26, 4)]);
    assert_eq!(fold_octaves(&frame), frame_with(&[(14, 5), (26, 4)]));
}

#[test]
fn folding_leaves_equal_octaves_alone() {
    let frame = frame_with(&[(3, 6), (15, 6)]);
    assert_eq!(fold_octaves(&frame), frame);
}

#[test]
fn folding_keeps_the_total_energy() {
    let mut frame: Frame = [0; 48];
    for p in 0..48 {
        frame[p] = ((p * 7919) % 101) as u64;
    }
    let folded = fold_octaves(&frame);
    assert_eq!(folded.iter().sum::<u64>(), frame.iter().sum::<u64>());
    // Energy never moves downward: the top octave can only have grown.
    for p in 36..48 {
        assert!(folded[p] >= frame[p]);
    }
}

#[test]
fn five_strongest_entries_are_kept() {
    let frame = frame_with(&[(0, 1), (5, 9), (10, 3), (20, 7), (30, 2), (40, 8), (47, 4)]);
    assert_eq!(
        retain_top_k(&frame),
        frame_with(&[(5, 9), (10, 3), (20, 7), (40, 8), (47, 4)])
    );
}

#[test]
fn equal_entries_are_kept_from_the_lower_index() {
    let mut frame: Frame = [0; 48];
    for p in 10..20 {
        frame[p] = 6;
    }
    let kept = retain_top_k(&frame);
    assert_eq!(kept, frame_with(&[(10, 6), (11, 6), (12, 6), (13, 6), (14, 6)]));
}

#[test]
fn as_many_entries_survive_as_were_there_up_to_five() {
    for count in 0..=48usize {
        let mut frame: Frame = [0; 48];
        for p in 0..count {
            frame[(p * 5) % 48] = 1 + (p as u64 % 3);
        }
        assert_eq!(nonzero(&frame), count);
        assert_eq!(nonzero(&retain_top_k(&frame)), count.min(5));
    }
}

#[test]
fn frames_are_folded_and_filtered_when_fed() {
    let mut features: Vec<Frame> = Vec::new();
    let frame = frame_with(&[(0, 1), (12, 2), (1, 9), (2, 8), (3, 7), (4, 6), (5, 5)]);
    assert!(feed_frame(&mut features, &frame));
    // index 0 folds into 12, which then holds 3 and is the weakest of six.
    assert_eq!(features, vec![frame_with(&[(1, 9), (2, 8), (3, 7), (4, 6), (5, 5)])]);
    assert!(feed_frame(&mut features, &frame_with(&[(7, 7)])));
    assert_eq!(features.len(), 2);
    assert_eq!(features[1], frame_with(&[(7, 7)]));
}

#[test]
fn frame_with_too_much_energy_is_refused() {
    let mut features: Vec<Frame> = vec![frame_with(&[(0, 1)])];
    assert!(!feed_frame(&mut features, &frame_with(&[(0, ENERGY_MAX), (1, 1)])));
    assert_eq!(features, vec![frame_with(&[(0, 1)])]);
    assert!(!feed_frame(&mut features, &frame_with(&[(0, u64::MAX), (1, u64::MAX)])));
    assert_eq!(features.len(), 1);
    assert!(feed_frame(&mut features, &frame_with(&[(0, ENERGY_MAX)])));
    assert_eq!(features.len(), 2);
}

#[test]
fn full_buffer_refuses_frames() {
    let mut features: Vec<Frame> = vec![[0; 48]; FRAMES_MAX];
    assert!(!feed_frame(&mut features, &frame_with(&[(0, 1)])));
    assert_eq!(features.len(), FRAMES_MAX);
}

#[test]
fn flushing_empties_the_buffer() {
    let mut features: Vec<Frame> = vec![[1; 48]; 3];
    flush(&mut features);
    assert!(features.is_empty());
}

#[test]
fn trailing_samples_are_not_a_window() {
    assert_eq!(window_count(0), 0);
    assert_eq!(window_count(1023), 0);
    assert_eq!(window_count(1024), 1);
    assert_eq!(window_count(48_000), 46);
}

#[test]
fn folding_keeps_the_energy_of_every_pitch_class() {
    let mut frame: Frame = [0; 48];
    for p in 0..48 {
        frame[p] = ((p * 31 + 7) % 23) as u64;
    }
    let folded = fold_octaves(&frame);
    for class in 0..12 {
        let before: u64 = (0..4).map(|octave| frame[class + 12 * octave]).sum();
        let after: u64 = (0..4).map(|octave| folded[class + 12 * octave]).sum();
        assert_eq!(after, before);
    }
}
