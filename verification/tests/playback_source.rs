use rusty_player::source::SourceCursor;

fn stereo_ramp(frames: usize) -> Vec<i32> {
    let mut v = Vec::new();
    for f in 0..frames {
        v.push(f as i32);
        v.push(-(f as i32));
    }
    v
}

#[test]
fn source_new_defaults() {
    let s: SourceCursor<f32> = SourceCursor::new();
    assert_eq!(s.channels(), 2);
    assert!(!s.is_loaded());
    assert!(!s.is_playing());
    assert_eq!(s.position_frames(), 0);
    assert_eq!(s.duration_frames(), 0);
}

#[test]
fn source_load_play_pause() {
    let mut s = SourceCursor::new();
    s.load(stereo_ramp(10), 2);
    assert!(s.is_loaded());
    assert_eq!(s.duration_frames(), 10);
    assert_eq!(s.len(), 20);
    assert!(!s.is_playing());
    s.play();
    assert!(s.is_playing());
    s.pause();
    assert!(!s.is_playing());
}

#[test]
fn source_seek_clamps() {
    let mut s = SourceCursor::new();
    s.load(stereo_ramp(10), 2);
    s.seek_frame(4);
    assert_eq!(s.position_samples(), 8);
    assert_eq!(s.position_frames(), 4);
    s.seek_frame(100);
    assert_eq!(s.position_samples(), 20);
    assert_eq!(s.position_frames(), 10);
    s.seek_frame(usize::MAX);
    assert_eq!(s.position_samples(), 20);
    assert!(s.at_end());
}

#[test]
fn source_begin_block_decisions() {
    let mut s: SourceCursor<i32> = SourceCursor::new();
    s.play();
    // Nothing loaded: no audio, still flagged playing.
    assert!(!s.begin_block());
    assert!(s.is_playing());
    s.load(stereo_ramp(2), 2);
    assert!(!s.begin_block());
    s.play();
    assert!(s.begin_block());
    s.seek_frame(2);
    // At the end: no audio, and playback stops.
    assert!(!s.begin_block());
    assert!(!s.is_playing());
}

#[test]
fn source_fill_bypass_copies_and_pads() {
    let mut s = SourceCursor::new();
    s.load(stereo_ramp(3), 2);
    s.play();
    let a = s.fill_bypass(2, 99);
    assert_eq!(a, vec![0, 0, 1, -1]);
    assert!(s.is_playing());
    let b = s.fill_bypass(2, 99);
    assert_eq!(b, vec![2, -2, 99, 99]);
    assert_eq!(s.position_frames(), 3);
    assert!(!s.is_playing());
}

#[test]
fn source_bypass_chunks_equal_single() {
    let mut chunked = SourceCursor::new();
    chunked.load(stereo_ramp(50), 2);
    let mut joined = chunked.fill_bypass(7, 0);
    joined.extend(chunked.fill_bypass(13, 0));
    let mut single = SourceCursor::new();
    single.load(stereo_ramp(50), 2);
    assert_eq!(joined, single.fill_bypass(20, 0));
    assert_eq!(chunked.position_samples(), single.position_samples());
}

#[test]
fn source_feed_frames_deinterleaves() {
    let mut s = SourceCursor::new();
    s.load(stereo_ramp(5), 2);
    let chunks = s.feed_frames(3);
    assert_eq!(chunks.len(), 2);
    assert_eq!(chunks[0], vec![0, 1, 2]);
    assert_eq!(chunks[1], vec![0, -1, -2]);
    assert_eq!(s.position_frames(), 3);
    let rest = s.feed_frames(3);
    assert_eq!(rest[0], vec![3, 4]);
    assert_eq!(rest[1], vec![-3, -4]);
    assert!(s.at_end());
    let none = s.feed_frames(3);
    assert!(none[0].is_empty());
}

#[test]
fn source_lookback_window() {
    let mut s = SourceCursor::new();
    s.load(stereo_ramp(10), 2);
    s.seek_frame(6);
    let back = s.lookback(4);
    assert_eq!(back[0], vec![2, 3, 4, 5]);
    assert_eq!(back[1], vec![-2, -3, -4, -5]);
    // Fewer frames behind the position than asked for.
    let all = s.lookback(100);
    assert_eq!(all[0], vec![0, 1, 2, 3, 4, 5]);
    assert_eq!(s.position_frames(), 6);
}

#[test]
fn source_stop_at_end() {
    let mut s = SourceCursor::new();
    s.load(stereo_ramp(1), 2);
    s.play();
    s.stop_at_end();
    assert!(s.is_playing());
    s.seek_frame(1);
    s.stop_at_end();
    assert!(!s.is_playing());
}

#[test]
fn source_zero_channels_uses_one_sample_frames() {
    let mut s = SourceCursor::new();
    s.load(vec![1, 2, 3], 0);
    assert_eq!(s.duration_frames(), 3);
    s.seek_frame(2);
    assert_eq!(s.position_samples(), 0);
    let out = s.fill_bypass(2, 0);
    assert_eq!(out, vec![1, 2]);
}
