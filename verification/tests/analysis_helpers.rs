use rusty_player::analysis::{
    inter_onset_intervals, key_name, merge_beat_grid, pitch_class, rotate_profile, unknown_key,
    window_bounds,
};

#[test]
fn test_rotate_profile() {
    let p: [f64; 12] = [1.0, 2.0, 3.0, 4.0, 5.0, 6.0, 7.0, 8.0, 9.0, 10.0, 11.0, 12.0];
    let rotated = rotate_profile(&p, 1);
    // shift=1 means C profile → C# key, so index 0 should get the last element.
    assert!((rotated[0] - 12.0).abs() < 1e-6);
    assert!((rotated[1] - 1.0).abs() < 1e-6);
}

#[test]
fn rotate_profile_identity_and_full_turn() {
    let p = [0u8, 1, 2, 3, 4, 5, 6, 7, 8, 9, 10, 11];
    assert_eq!(rotate_profile(&p, 0), p);
    assert_eq!(rotate_profile(&p, 12), p);
    assert_eq!(rotate_profile(&rotate_profile(&p, 5), 9), rotate_profile(&p, 2));
    assert_eq!(rotate_profile(&p, 9)[9], 0);
}

#[test]
fn key_names() {
    assert_eq!(key_name(9, true), "A minor");
    assert_eq!(key_name(0, false), "C major");
    assert_eq!(key_name(3, false), "Eb major");
    assert_eq!(key_name(6, true), "F# minor");
    assert_eq!(key_name(11, true), "B minor");
    assert_eq!(unknown_key(), "---");
}

#[test]
fn pitch_classes() {
    assert_eq!(pitch_class(69), 9);
    assert_eq!(pitch_class(60), 0);
    assert_eq!(pitch_class(-1), 11);
    assert_eq!(pitch_class(-12), 0);
    assert_eq!(pitch_class(-13), 11);
    assert_eq!(pitch_class(i64::MIN), 4);
}

#[test]
fn onset_intervals() {
    let peaks = [10usize, 20, 31, 40];
    let r = inter_onset_intervals(&peaks);
    assert_eq!(
        r,
        vec![(1, 10), (1, 11), (1, 9), (2, 21), (2, 20), (3, 30)]
    );
    assert!(inter_onset_intervals(&[5]).is_empty());
    assert_eq!(inter_onset_intervals(&[1, 4]), vec![(1, 3)]);
}

#[test]
fn window_bounds_clip() {
    assert_eq!(window_bounds(10, 3, 4, 100), (7, 14));
    assert_eq!(window_bounds(2, 8, 9, 100), (0, 11));
    assert_eq!(window_bounds(98, 8, 9, 100), (90, 100));
}

#[test]
fn beat_grid_merge() {
    let grid = merge_beat_grid(&[1.5f64, 1.0, 0.5], 2.0, &[2.5, 3.0]);
    assert_eq!(grid, vec![0.5, 1.0, 1.5, 2.0, 2.5, 3.0]);
    for w in grid.windows(2) {
        assert!(w[1] > w[0]);
    }
    assert_eq!(merge_beat_grid::<u32>(&[], 4, &[]), vec![4]);
}
