use cochlea::melody::{note_runs, repair_blips};
use cochlea::pitch::{frame_starts, hop_len, voiced_runs, window_len};

#[test]
fn a_one_frame_octave_blip_takes_its_neighbors_note() {
    let mut m = vec![Some(60), Some(60), Some(72), Some(60), Some(60)];
    repair_blips(&mut m);
    assert_eq!(m, vec![Some(60); 5]);
}

#[test]
fn a_one_frame_dropout_inside_a_note_is_bridged() {
    let mut m = vec![Some(64), None, Some(64)];
    repair_blips(&mut m);
    assert_eq!(m, vec![Some(64), Some(64), Some(64)]);
}

#[test]
fn disagreeing_neighbors_and_gaps_are_left_alone() {
    let mut m = vec![Some(60), Some(61), Some(62), None, None, Some(62)];
    let before = m.clone();
    repair_blips(&mut m);
    assert_eq!(m, before);
}

#[test]
fn repairs_see_the_already_repaired_prefix() {
    // After frame 1 becomes A, frame 3 sits between A and A and follows.
    let mut m = vec![Some(57), Some(59), Some(57), Some(64), Some(57)];
    repair_blips(&mut m);
    assert_eq!(m, vec![Some(57); 5]);
}

#[test]
fn short_tracks_are_not_repaired() {
    let mut m = vec![Some(60), None];
    repair_blips(&mut m);
    assert_eq!(m, vec![Some(60), None]);
}

#[test]
fn note_runs_group_consecutive_frames_of_one_note() {
    let m = vec![None, Some(60), Some(60), Some(62), None, Some(62), Some(62)];
    assert_eq!(note_runs(&m), vec![(1, 3, 60), (3, 4, 62), (5, 7, 62)]);
    assert_eq!(note_runs(&vec![None, None]), vec![]);
}

#[test]
fn yin_frame_geometry() {
    assert_eq!(window_len(), 2048);
    assert_eq!(hop_len(), 512);
    assert!(frame_starts(2047, 48_000).is_empty());
    assert_eq!(frame_starts(2048, 48_000), vec![0]);
    assert_eq!(frame_starts(2048 + 511, 48_000), vec![0]);
    assert_eq!(frame_starts(2048 + 512, 48_000), vec![0, 512]);
    assert!(frame_starts(100_000, 0).is_empty());
    let starts = frame_starts(10_000, 44_100);
    assert_eq!(starts.len(), (10_000 - 2048) / 512 + 1);
    assert!(starts.iter().all(|s| s + 2048 <= 10_000));
}

#[test]
fn voiced_runs_cover_exactly_the_voiced_frames() {
    let v = vec![false, true, true, false, true, false, false, true];
    assert_eq!(voiced_runs(&v), vec![(1, 3), (4, 5), (7, 8)]);
    assert_eq!(voiced_runs(&vec![true, true]), vec![(0, 2)]);
    assert!(voiced_runs(&vec![false; 4]).is_empty());
}
