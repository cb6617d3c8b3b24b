use cochlea::harmony::{chord_runs, chord_symbol, same_label, smooth_runs, ChordLabel, ChordQuality};
use cochlea::report::PitchClass;

#[test]
fn short_runs_are_smoothed_into_held_chords() {
    let c = Some((0, ChordQuality::Major, 0.9));
    let g = Some((7, ChordQuality::Major, 0.9));
    // C C C G C C C  — the lone G is a one-frame flicker.
    let mut labels = vec![c, c, c, g, c, c, c];
    smooth_runs(&mut labels, 2);
    assert!(
        labels.iter().all(|l| same_label(l, &c)),
        "a one-frame flicker below min_run must be absorbed: {labels:?}"
    );
}

#[test]
fn gaps_are_never_absorbed_by_smoothing() {
    let c = Some((0, ChordQuality::Major, 0.9));
    // A genuine one-frame silence between two chords stays a gap.
    let mut labels = vec![c, c, None, c, c];
    smooth_runs(&mut labels, 2);
    assert_eq!(labels[2], None, "a silence gap must survive smoothing");
}

#[test]
fn a_short_leading_run_takes_the_following_chord() {
    let am = Some((9, ChordQuality::Minor, 0.5));
    let f = Some((5, ChordQuality::Major, 0.8));
    let mut labels: Vec<ChordLabel<f64>> = vec![am, f, f, f];
    smooth_runs(&mut labels, 2);
    assert!(labels.iter().all(|l| same_label(l, &f)), "{labels:?}");
}

#[test]
fn a_short_run_after_a_gap_takes_the_chord_before_the_gap() {
    let c = Some((0, ChordQuality::Major, 0.9));
    let d = Some((2, ChordQuality::Minor, 0.7));
    let mut labels: Vec<ChordLabel<f64>> = vec![c, c, None, d, None];
    smooth_runs(&mut labels, 2);
    assert_eq!(labels, vec![c, c, None, c, None]);
}

#[test]
fn a_lone_short_run_with_no_neighbors_is_kept() {
    let d = Some((2, ChordQuality::Minor, 0.7));
    let mut labels: Vec<ChordLabel<f64>> = vec![None, d, None];
    smooth_runs(&mut labels, 3);
    assert_eq!(labels, vec![None, d, None]);
}

#[test]
fn min_run_of_one_changes_nothing() {
    let c = Some((0, ChordQuality::Major, 0.9));
    let g = Some((7, ChordQuality::Dominant7, 0.4));
    let before: Vec<ChordLabel<f64>> = vec![c, g, c, None, g];
    let mut labels = before.clone();
    smooth_runs(&mut labels, 1);
    assert_eq!(labels, before);
}

#[test]
fn smoothing_keeps_long_runs_and_gap_positions() {
    let c = Some((0, ChordQuality::Major, 0.9));
    let e = Some((4, ChordQuality::Minor, 0.6));
    let g = Some((7, ChordQuality::Major, 0.9));
    let before: Vec<ChordLabel<f64>> = vec![c, c, c, e, None, None, g, g, g, e, g];
    let mut labels = before.clone();
    smooth_runs(&mut labels, 2);
    for (a, b) in before.iter().zip(labels.iter()) {
        assert_eq!(a.is_none(), b.is_none());
    }
    // Each short run takes the label its predecessor run had before smoothing.
    assert_eq!(labels, vec![c, c, c, c, None, None, g, g, g, g, e]);
}

#[test]
fn same_label_ignores_strength() {
    let a: ChordLabel<f64> = Some((0, ChordQuality::Major, 0.9));
    let b: ChordLabel<f64> = Some((0, ChordQuality::Major, 0.1));
    let c: ChordLabel<f64> = Some((0, ChordQuality::Minor, 0.9));
    assert!(same_label(&a, &b));
    assert!(!same_label(&a, &c));
    assert!(same_label::<f64>(&None, &None));
    assert!(!same_label(&a, &None));
}

#[test]
fn chord_runs_list_maximal_labeled_runs() {
    let c = Some((0, ChordQuality::Major, 0.9));
    let c2 = Some((0, ChordQuality::Major, 0.3));
    let g = Some((7, ChordQuality::Major, 0.9));
    let labels: Vec<ChordLabel<f64>> = vec![None, c, c2, g, None, None, g, g];
    assert_eq!(chord_runs(&labels), vec![(1, 3), (3, 4), (6, 8)]);
    assert_eq!(chord_runs::<f64>(&vec![]), vec![]);
    assert_eq!(chord_runs::<f64>(&vec![None, None]), vec![]);
}

#[test]
fn chord_vocabulary() {
    assert_eq!(ChordQuality::Major.intervals(), &[0, 4, 7]);
    assert_eq!(ChordQuality::Minor7.intervals(), &[0, 3, 7, 10]);
    assert_eq!(ChordQuality::Sus4.intervals(), &[0, 5, 7]);
    assert_eq!(ChordQuality::Major.suffix(), "");
    assert_eq!(ChordQuality::Major7.suffix(), "maj7");
    assert_eq!(chord_symbol(PitchClass::C, ChordQuality::Major), "C");
    assert_eq!(chord_symbol(PitchClass::A, ChordQuality::Minor), "Am");
    assert_eq!(chord_symbol(PitchClass::G, ChordQuality::Dominant7), "G7");
    assert_eq!(chord_symbol(PitchClass::FSharp, ChordQuality::Diminished), "F#dim");
    let order = ChordQuality::preference_order();
    assert_eq!(order[0], ChordQuality::Major);
    assert_eq!(order[5], ChordQuality::Dominant7);
}
