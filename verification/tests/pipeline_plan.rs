use rusty_player::pipeline::{
    drain_request, lookback_frames, max_feed_iterations, phase_update, pipeline_stalled,
    priming_discard_len, BlockFill, PhaseUpdate, FEED_CHUNK, FFT_SIZE, OVERLAP,
};

#[test]
fn pipeline_sizes() {
    assert_eq!(FFT_SIZE / OVERLAP, 512);
    assert_eq!(lookback_frames(), 4608);
    assert_eq!(priming_discard_len(), 16384);
    assert_eq!(FEED_CHUNK, 512);
}

#[test]
fn pipeline_iterations_and_drain() {
    assert_eq!(max_feed_iterations(4096), 90);
    assert_eq!(max_feed_iterations(0), 10);
    assert_eq!(max_feed_iterations(511), 10);
    assert_eq!(drain_request(0), 2);
    assert_eq!(drain_request(1000), 1000);
    assert_eq!(drain_request(5000), 2048);
}

#[test]
fn pipeline_phase_updates() {
    assert_eq!(phase_update(false, true), PhaseUpdate::Initialize);
    assert_eq!(phase_update(false, false), PhaseUpdate::Initialize);
    assert_eq!(phase_update(true, true), PhaseUpdate::Reset);
    assert_eq!(phase_update(true, false), PhaseUpdate::Accumulate);
    assert!(pipeline_stalled(0, 0));
    assert!(!pipeline_stalled(1, 0));
    assert!(!pipeline_stalled(0, 3));
}

#[test]
fn block_fill_progress() {
    let mut b = BlockFill::new(1000);
    assert!(b.keep_going());
    assert_eq!(b.space(), 1000);
    assert!(!b.record(512, 600));
    assert_eq!(b.out_pos(), 600);
    assert_eq!(b.space(), 400);
    assert!(!b.record(0, 400));
    assert!(!b.keep_going());
    assert_eq!(b.space(), 0);
}

#[test]
fn block_fill_stall_and_bound() {
    let mut b = BlockFill::new(10);
    assert!(b.record(0, 0));
    // Iterations are bounded: ten for a block shorter than a feed chunk.
    let mut b = BlockFill::new(10);
    let mut runs = 0;
    while b.keep_going() {
        b.record(512, 0);
        runs += 1;
    }
    assert_eq!(runs, 10);
    assert_eq!(b.out_pos(), 0);
}
