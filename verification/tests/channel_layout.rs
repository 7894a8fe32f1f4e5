use rusty_player::channels::{deinterleave, interleave_into};

#[test]
fn deinterleave_picks_channel() {
    let s = [0.5f32, -0.5, 1.0, -1.0, 0.25, -0.25];
    assert_eq!(deinterleave(&s, 0, 3, 2, 0), vec![0.5, 1.0, 0.25]);
    assert_eq!(deinterleave(&s, 0, 3, 2, 1), vec![-0.5, -1.0, -0.25]);
    assert_eq!(deinterleave(&s, 2, 2, 2, 1), vec![-1.0, -0.25]);
    assert!(deinterleave(&s, 6, 0, 2, 0).is_empty());
}

#[test]
fn interleave_into_places_and_clips() {
    let mut out = [0i32; 6];
    interleave_into(&mut out, &[1, 2, 3, 4], 4, 1, 2, 1);
    // Frames 1 and 2 of channel 1 fit; frames 3 and 4 fall past the end.
    assert_eq!(out, [0, 0, 0, 1, 0, 2]);
    interleave_into(&mut out, &[7, 8], 1, 0, 2, 0);
    assert_eq!(out, [7, 0, 0, 1, 0, 2]);
}

#[test]
fn deinterleave_then_interleave_roundtrip() {
    let src: Vec<i32> = (0..30).collect();
    let mut rebuilt = vec![0i32; 30];
    for ch in 0..3 {
        let mono = deinterleave(&src, 0, 10, 3, ch);
        interleave_into(&mut rebuilt, &mono, mono.len(), 0, 3, ch);
    }
    assert_eq!(rebuilt, src);
}
