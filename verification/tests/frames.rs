use cochlea::frames::{tiles, window_starts};
use cochlea::onsets::{pick_peaks, suppress_close_peaks};

#[test]
fn stft_windows_fit_the_buffer() {
    assert!(window_starts(1023, 1024, 256).is_empty());
    assert_eq!(window_starts(1024, 1024, 256), vec![0]);
    assert_eq!(window_starts(1024 + 256, 1024, 256), vec![0, 256]);
    assert_eq!(window_starts(1024 + 255, 1024, 256), vec![0]);
    let starts = window_starts(48_000, 8192, 2048);
    assert_eq!(starts.len(), (48_000 - 8192) / 2048 + 1);
    assert!(starts.iter().all(|s| s + 8192 <= 48_000));
    assert!(starts.len() * 2048 + 8192 > 48_000);
}

#[test]
fn tiles_partition_the_range() {
    assert!(tiles(0, 5).is_empty());
    assert_eq!(tiles(10, 5), vec![(0, 5), (5, 10)]);
    assert_eq!(tiles(11, 5), vec![(0, 5), (5, 10), (10, 11)]);
    assert_eq!(tiles(3, 5), vec![(0, 3)]);
    for len in 0..60usize {
        for width in 1..9usize {
            let t = tiles(len, width);
            assert_eq!(t.len(), (len + width - 1) / width);
            let mut next = 0;
            for &(a, b) in &t {
                assert_eq!(a, next);
                assert!(a < b && b - a <= width);
                next = b;
            }
            assert_eq!(next, len);
        }
    }
}

#[test]
fn peaks_are_thresholded_local_maxima() {
    let strength = vec![0, 5, 5, 2, 9, 1, 3, 3];
    let above = vec![true, true, true, true, true, true, false, true];
    assert_eq!(pick_peaks(&strength, &above), vec![2, 4]);
    assert!(pick_peaks(&vec![1, 2], &vec![true, true]).is_empty());
}

#[test]
fn close_peaks_keep_the_strongest_and_stay_apart() {
    let mut strength = vec![0u64; 40];
    strength[3] = 5;
    strength[5] = 9;
    strength[7] = 4;
    strength[20] = 2;
    strength[22] = 2;
    let peaks = vec![3, 5, 7, 20, 22];
    assert_eq!(suppress_close_peaks(&peaks, &strength, 3), vec![5, 20]);
    assert_eq!(suppress_close_peaks(&peaks, &strength, 0), peaks);
    assert!(suppress_close_peaks(&vec![], &strength, 3).is_empty());
    // Non-negative floats order as their bit patterns do.
    let flux = [0.0f64, 0.5, 0.25, 3.0];
    let keys: Vec<u64> = flux.iter().map(|f| f.to_bits()).collect();
    assert!(keys[1] > keys[2] && keys[3] > keys[1] && keys[2] > keys[0]);
}
