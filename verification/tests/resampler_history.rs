use rusty_player::history::SampleHistory;

#[test]
fn history_new_is_empty() {
    let h: SampleHistory<f32> = SampleHistory::new();
    assert_eq!(h.previous(), None);
    assert_eq!(h.before_previous(), None);
}

#[test]
fn history_passthrough_copies() {
    let mut h = SampleHistory::new();
    let input = [1.0f32, 2.0, 3.0, 4.0, 5.0];
    let mut output = [0.0f32; 5];
    assert_eq!(h.passthrough(&input, &mut output), 5);
    assert_eq!(output, input);
    assert_eq!(h.previous(), Some(5.0));
    assert_eq!(h.before_previous(), Some(4.0));
}

#[test]
fn history_passthrough_short_output() {
    let mut h = SampleHistory::new();
    let mut output = [9i32; 2];
    assert_eq!(h.passthrough(&[1, 2, 3], &mut output), 2);
    assert_eq!(output, [1, 2]);
    let mut long = [9i32; 4];
    assert_eq!(h.passthrough(&[7], &mut long), 1);
    assert_eq!(long, [7, 9, 9, 9]);
    assert_eq!(h.previous(), Some(7));
    assert_eq!(h.before_previous(), Some(2));
    // Empty buffers change nothing.
    assert_eq!(h.passthrough(&[], &mut long), 0);
    assert_eq!(h.previous(), Some(7));
}

#[test]
fn history_passthrough_single_without_history() {
    let mut h = SampleHistory::new();
    let mut out = [0u8; 1];
    h.passthrough(&[4], &mut out);
    assert_eq!(h.previous(), Some(4));
    assert_eq!(h.before_previous(), None);
}

#[test]
fn history_advance_updates() {
    let mut h = SampleHistory::new();
    let input = [10, 20, 30, 40];
    assert_eq!(h.advance(&input, 3), 3);
    assert_eq!(h.previous(), Some(30));
    assert_eq!(h.before_previous(), Some(20));
    // One sample consumed: the old previous moves back.
    assert_eq!(h.advance(&input, 1), 1);
    assert_eq!(h.previous(), Some(10));
    assert_eq!(h.before_previous(), Some(30));
    // Consumed past the block: the last sample is remembered, count capped.
    assert_eq!(h.advance(&input, 9), 4);
    assert_eq!(h.previous(), Some(40));
    assert_eq!(h.before_previous(), Some(30));
    // Nothing consumed: the last input sample is remembered.
    assert_eq!(h.advance(&[5, 6], 0), 0);
    assert_eq!(h.previous(), Some(6));
}

#[test]
fn history_left_neighbours() {
    let mut h = SampleHistory::new();
    let input = [1.5f32, 2.5, 3.5];
    assert_eq!(h.cubic_left(&input, 0), 1.5);
    assert_eq!(h.cubic_left(&input, 2), 2.5);
    assert_eq!(h.linear_left(&input, 0), 1.5);
    assert_eq!(h.linear_left(&input, 2), 3.5);
    h.advance(&[0.5], 1);
    assert_eq!(h.cubic_left(&input, 0), 0.5);
    assert_eq!(h.linear_left(&input, 0), 0.5);
    assert_eq!(h.linear_left(&input, 1), 2.5);
}

#[test]
fn history_reset_clears() {
    let mut h = SampleHistory::new();
    h.advance(&[1, 2, 3], 2);
    h.reset();
    assert_eq!(h.previous(), None);
    assert_eq!(h.before_previous(), None);
}
