use rusty_player::stft::StftBuffers;

#[test]
fn stft_new_sizes() {
    let b: StftBuffers<f32> = StftBuffers::new(2048, 4, 0.0);
    assert_eq!(b.analysis_hop(), 512);
    assert_eq!(b.fft_size(), 2048);
    assert_eq!(b.input_capacity(), 2048 * 8);
    assert_eq!(b.output_capacity(), 2048 * 16);
    assert_eq!(b.half_size(), 1025);
    assert_eq!(b.input_available(), 0);
    assert_eq!(b.output_available(), 0);
}

#[test]
fn stft_overlap_past_frame_gives_zero_hop() {
    let mut b: StftBuffers<f32> = StftBuffers::new(4, 8, 0.0);
    assert_eq!(b.analysis_hop(), 0);
    b.write_input(&[1.0; 4]);
    assert!(b.can_process());
    b.finish_frame(1);
    // A zero hop never consumes input.
    assert_eq!(b.input_available(), 4);
    assert!(b.can_process());
}

#[test]
fn test_can_process_threshold() {
    let mut b: StftBuffers<f32> = StftBuffers::new(1024, 4, 0.0);
    assert!(!b.can_process());
    b.write_input(&vec![0.0f32; 512]);
    assert!(!b.can_process());
    b.write_input(&vec![0.0f32; 512]);
    assert!(b.can_process(), "should be able to process with exactly fft_size samples");
}

#[test]
fn stft_can_process_ignores_output() {
    // Released output, however much, does not change whether a frame can be
    // processed, and neither does draining it.
    let mut b: StftBuffers<f32> = StftBuffers::new(4, 2, 0.0);
    b.write_input(&[1.0; 32]);
    for _ in 0..10 {
        b.finish_frame(8);
    }
    assert_eq!(b.output_available(), 80);
    assert!(b.can_process());
    let mut out = vec![0.0f32; 4];
    b.drain_output(&mut out);
    assert!(b.can_process());
}

#[test]
fn test_write_input_fills_ring() {
    let mut b: StftBuffers<f32> = StftBuffers::new(1024, 4, 0.0);
    let cap = b.input_capacity();
    assert_eq!(cap, 8192);
    assert_eq!(b.write_input(&vec![1.0f32; cap]), cap);
    assert_eq!(b.write_input(&vec![1.0f32; 100]), 0, "should not write when ring buffer is full");
}

#[test]
fn stft_drain_without_frames_reads_nothing() {
    let mut b: StftBuffers<f32> = StftBuffers::new(1024, 4, 0.0);
    b.write_input(&vec![0.25f32; 4096]);
    let mut out = vec![7.0f32; 1024];
    assert_eq!(b.drain_output(&mut out), 0);
    assert!(out.iter().all(|&v| v == 0.0));
}

#[test]
fn stft_frame_cycle() {
    // Frames of 4, hop 2; the input frame is the first 4 queued samples.
    let mut b: StftBuffers<i32> = StftBuffers::new(4, 2, 0);
    b.write_input(&[1, 2, 3, 4, 5, 6]);
    assert_eq!(b.analysis_hop(), 2);
    let frame: Vec<i32> = (0..4).map(|i| b.input_sample(i)).collect();
    assert_eq!(frame, vec![1, 2, 3, 4]);
    // Overlap-add the frame (doubled), with weight 1 per cell.
    for i in 0..4 {
        let (s, w) = b.pending(i);
        b.set_pending(i, s + 2 * frame[i], w + 1);
    }
    b.finish_frame(3);
    assert_eq!(b.output_available(), 3);
    assert_eq!(b.input_available(), 4);
    // The next frame starts one hop later: it shares two samples.
    assert_eq!(b.input_sample(0), 3);
    assert_eq!(b.input_sample(1), 4);
    // The unreleased fourth cell keeps its partial sum.
    assert_eq!(b.pending(0), (8, 1));
    let mut out = [0i32; 5];
    assert_eq!(b.drain_output(&mut out), 3);
    assert_eq!(out, [2, 4, 6, 0, 0]);
    assert_eq!(b.pending(0), (8, 1));
}

#[test]
fn stft_drain_in_pieces_keeps_order() {
    let mut b: StftBuffers<i32> = StftBuffers::new(2, 1, 0);
    b.write_input(&[0, 0]);
    b.set_pending(0, 7, 1);
    b.set_pending(1, 9, 1);
    b.finish_frame(2);
    let mut one = [0i32; 1];
    assert_eq!(b.drain_output(&mut one), 1);
    assert_eq!(one, [7]);
    assert_eq!(b.drain_output(&mut one), 1);
    assert_eq!(one, [9]);
    assert_eq!(b.output_available(), 0);
}

#[test]
fn stft_earlier_output_stays_first() {
    let mut b: StftBuffers<i32> = StftBuffers::new(2, 1, 0);
    b.write_input(&[0, 0, 0]);
    b.set_pending(0, 1, 1);
    b.finish_frame(1);
    b.set_pending(0, 2, 1);
    b.set_pending(1, 3, 1);
    b.finish_frame(2);
    let mut out = [0i32; 3];
    b.drain_output(&mut out);
    assert_eq!(out, [1, 2, 3]);
}

#[test]
fn stft_overrun_reads_around_the_ring() {
    // Output ring of 16 cells; release 20 samples without draining.
    let mut b: StftBuffers<i32> = StftBuffers::new(1, 1, 0);
    b.write_input(&[0]);
    for i in 0..16 {
        b.set_pending(i, (i + 1) as i32, 1);
    }
    b.finish_frame(20);
    assert_eq!(b.output_available(), 20);
    let mut out = vec![-1i32; 22];
    assert_eq!(b.drain_output(&mut out), 20);
    let expected: Vec<i32> = (1..=16).chain([0, 0, 0, 0, 0, 0]).collect();
    assert_eq!(out, expected);
}

#[test]
fn stft_reset_empties() {
    let mut b: StftBuffers<f32> = StftBuffers::new(8, 2, 0.0);
    b.write_input(&[1.0; 16]);
    for i in 0..8 {
        b.set_pending(i, 1.0, 1.0);
    }
    b.finish_frame(4);
    assert!(b.output_available() > 0);
    b.reset();
    assert_eq!(b.output_available(), 0);
    assert_eq!(b.input_available(), 0);
    assert!(!b.can_process());
    assert_eq!(b.pending(0), (0.0, 0.0));
}
