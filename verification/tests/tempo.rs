use cochlea::tempo::{beat_path, keep_strongest, stability_windows};

#[test]
fn beats_follow_predecessor_links_back_from_the_end() {
    let back = vec![None, None, Some(0), Some(1), Some(2), Some(2), Some(4)];
    assert_eq!(beat_path(&back, 6), vec![0, 2, 4, 6]);
    assert_eq!(beat_path(&back, 5), vec![0, 2, 5]);
    assert_eq!(beat_path(&back, 1), vec![1]);
    assert_eq!(beat_path(&vec![None], 0), vec![0]);
}

#[test]
fn the_strongest_boundaries_survive_in_frame_order() {
    let strength: Vec<u64> = vec![0, 5, 0, 9, 0, 7, 0, 9, 0, 1];
    let cands = vec![1, 3, 5, 7, 9];
    // Fewer candidates than the cap: all kept.
    assert_eq!(keep_strongest(&cands, &strength, 5), cands);
    assert_eq!(keep_strongest(&cands, &strength, 12), cands);
    // The three strongest (9, 9, 7), back in frame order.
    assert_eq!(keep_strongest(&cands, &strength, 3), vec![3, 5, 7]);
    // Equal keys: the earlier frame wins the last place.
    assert_eq!(keep_strongest(&cands, &strength, 1), vec![3]);
    assert_eq!(keep_strongest(&cands, &strength, 0), Vec::<usize>::new());
    assert_eq!(keep_strongest(&Vec::new(), &strength, 2), Vec::<usize>::new());
}

#[test]
fn stability_windows_are_equal_and_fit_the_lag_search() {
    // 100 frames, lags up to 18: windows of at least 20 frames, at most 4.
    assert_eq!(stability_windows(100, 18, 4), Some(vec![(0, 25), (25, 50), (50, 75), (75, 100)]));
    // Only three fit.
    assert_eq!(stability_windows(65, 18, 4), Some(vec![(0, 21), (21, 42), (42, 63)]));
    // Fewer than two fit: no stability reading.
    assert_eq!(stability_windows(39, 18, 4), None);
    assert_eq!(stability_windows(40, 18, 4), Some(vec![(0, 20), (20, 40)]));
    assert_eq!(stability_windows(1000, 18, 1), None);
}
