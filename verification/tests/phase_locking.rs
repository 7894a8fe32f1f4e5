use rusty_player::peaks::nearest_peaks;

#[test]
fn nearest_peaks_basic() {
    let flags = [false, false, true, false, false, false, true, false];
    let r = nearest_peaks(&flags);
    // Bin 1 is as far from bin 0 (the left stand-in) as from peak 2: left
    // wins. The last bin stands in on the right and is its own choice.
    assert_eq!(r, vec![0, 0, 2, 2, 2, 6, 6, 7]);
}

#[test]
fn nearest_peaks_ties_go_left() {
    let flags = [false, true, false, false, false, true, false];
    let r = nearest_peaks(&flags);
    assert_eq!(r, vec![0, 1, 1, 1, 5, 5, 6]);
}

#[test]
fn nearest_peaks_none() {
    let flags = [false; 5];
    let r = nearest_peaks(&flags);
    assert_eq!(r, vec![0, 0, 0, 4, 4]);
}

#[test]
fn nearest_peaks_single_bin() {
    assert_eq!(nearest_peaks(&[false]), vec![0]);
    assert_eq!(nearest_peaks(&[true]), vec![0]);
}
