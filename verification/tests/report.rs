use cochlea::compare::{greedy_matching, verdict_from_checks, verdict_name, verdict_text, StructureDelta, ToleranceChecks, Verdict};
use cochlea::digest::{bucket_width, fmt_structure_line, fmt_tempo_line, layout_timeline, TimelineLine, MAX_TIMELINE_ROWS};
use cochlea::frames::tiles;
use cochlea::report::{mode_name, note_name, Mode, PitchClass};

fn all_ok() -> ToleranceChecks {
    ToleranceChecks { duration_ok: true, loudness_ok: true, onsets_ok: true, pitch_ok: true, key_ok: true }
}

#[test]
fn note_names_use_midi_octaves() {
    assert_eq!(note_name(60), "C4");
    assert_eq!(note_name(69), "A4");
    assert_eq!(note_name(61), "C#4");
    assert_eq!(note_name(0), "C-1");
    assert_eq!(note_name(10), "A#-1");
    assert_eq!(note_name(-1), "B-2");
    assert_eq!(note_name(127), "G9");
}

#[test]
fn pitch_class_and_mode_names() {
    assert_eq!(PitchClass::C.name(), "C");
    assert_eq!(PitchClass::FSharp.name(), "F#");
    assert_eq!(PitchClass::from_semitone(11).name(), "B");
    assert_eq!(PitchClass::from_semitone(3), PitchClass::DSharp);
    assert_eq!(mode_name(Mode::Major), "major");
    assert_eq!(mode_name(Mode::Minor), "minor");
}

#[test]
fn byte_identity_wins_over_failed_checks() {
    let mut checks = all_ok();
    checks.loudness_ok = false;
    assert_eq!(verdict_from_checks(true, checks), Verdict::ByteIdentical);
}

#[test]
fn passing_checks_are_tier2_equivalent() {
    assert_eq!(verdict_from_checks(false, all_ok()), Verdict::Tier2Equivalent);
}

#[test]
fn failed_dimensions_are_named_in_check_order() {
    let checks = ToleranceChecks { duration_ok: false, loudness_ok: true, onsets_ok: false, pitch_ok: true, key_ok: false };
    let v = verdict_from_checks(false, checks);
    assert_eq!(
        v,
        Verdict::Different { dimensions: vec!["duration".to_string(), "onsets".to_string(), "key".to_string()] }
    );
    assert_eq!(verdict_text(&v), "different (duration, onsets, key)");
    assert_eq!(verdict_name(&v), "different");
}

#[test]
fn verdict_spellings() {
    assert_eq!(verdict_text(&Verdict::ByteIdentical), "byte-identical");
    assert_eq!(verdict_text(&Verdict::Tier2Equivalent), "tier2-equivalent");
    assert_eq!(verdict_name(&Verdict::ByteIdentical), "byte_identical");
    assert_eq!(verdict_name(&Verdict::Tier2Equivalent), "tier2_equivalent");
    let one = Verdict::Different { dimensions: vec!["pitch".to_string()] };
    assert_eq!(verdict_text(&one), "different (pitch)");
}

#[test]
fn structure_delta_is_signed() {
    assert_eq!(StructureDelta::between(3, 1).section_count_delta, -2);
    assert_eq!(StructureDelta::between(1, 4).section_count_delta, 3);
}

#[test]
fn timeline_buckets_cap_the_row_count() {
    assert_eq!(bucket_width(0), 1);
    assert_eq!(bucket_width(40), 1);
    assert_eq!(bucket_width(41), 2);
    assert_eq!(bucket_width(80), 2);
    assert_eq!(bucket_width(81), 3);
    for n in 0..500usize {
        let w = bucket_width(n);
        assert!((n + w - 1) / w <= MAX_TIMELINE_ROWS);
    }
}

#[test]
fn silent_runs_of_three_or_more_collapse() {
    let silent = vec![false, false, true, true, true, true, false, true, true, false];
    assert_eq!(
        layout_timeline(&silent),
        vec![
            TimelineLine::Row(0),
            TimelineLine::Row(1),
            TimelineLine::SilentRun { first: 2, last: 5 },
            TimelineLine::Row(6),
            TimelineLine::Row(7),
            TimelineLine::Row(8),
            TimelineLine::Row(9),
        ]
    );
    assert_eq!(layout_timeline(&vec![true; 3]), vec![TimelineLine::SilentRun { first: 0, last: 2 }]);
    assert!(layout_timeline(&vec![]).is_empty());
}

#[test]
fn structure_line_agrees_with_its_count() {
    assert_eq!(fmt_structure_line(1, &vec![]), "structure: 1 section");
    assert_eq!(fmt_structure_line(0, &vec![]), "structure: 0 sections");
    assert_eq!(
        fmt_structure_line(3, &vec!["8.0s".to_string(), "16.0s".to_string()]),
        "structure: 3 sections @ 8.0s, 16.0s"
    );
}

#[test]
fn onsets_match_one_to_one_in_priority_order() {
    // Candidates already sorted by offset: (a, b).
    let pairs = vec![(0, 0), (0, 1), (1, 1), (2, 1), (2, 2)];
    let p = greedy_matching(&pairs, 4, 3);
    assert_eq!(p.taken, vec![true, false, true, false, true]);
    assert_eq!(p.used_a, vec![true, true, true, false]);
    assert_eq!(p.used_b, vec![true, true, true]);
    let none = greedy_matching(&vec![], 2, 0);
    assert!(none.taken.is_empty());
    assert_eq!(none.used_a, vec![false, false]);
}

#[test]
fn tempo_line_reads_the_detected_tempo_or_a_dash() {
    let reading = Some(("120.0".to_string(), "0.11".to_string()));
    assert_eq!(fmt_tempo_line(&reading, true), "tempo: 120.0bpm (conf 0.11) clear_rhythm=true");
    assert_eq!(fmt_tempo_line(&reading, false), "tempo: 120.0bpm (conf 0.11) clear_rhythm=false");
    assert_eq!(fmt_tempo_line(&None, false), "tempo: -");
    assert_eq!(fmt_tempo_line(&None, true), "tempo: -");
}

#[test]
fn digest_text_caps_timeline_rows_for_long_timelines() {
    // 5 s at 100 ms windows = 50 segments, over the 40-row cap.
    let segments = 50usize;
    let width = bucket_width(segments);
    assert_eq!(width, 2, "expected ceil(50/40) = 2-wide buckets");
    let rows = tiles(segments, width);
    let lines = layout_timeline(&vec![false; rows.len()]);
    assert_eq!(lines.len(), 25, "expected 50/2 = 25 rows");
}
