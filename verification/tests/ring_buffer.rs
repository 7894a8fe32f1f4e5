use rusty_player::ring::SampleRing;

#[test]
fn ring_new_is_empty() {
    let r: SampleRing<f32> = SampleRing::new(8, 0.0);
    assert_eq!(r.capacity(), 8);
    assert_eq!(r.len(), 0);
    assert_eq!(r.space(), 8);
    for j in 0..8 {
        assert_eq!(r.peek(j), 0.0);
    }
}

#[test]
fn ring_push_then_peek_in_order() {
    let mut r = SampleRing::new(4, 0i32);
    assert_eq!(r.push_slice(&[1, 2, 3]), 3);
    assert_eq!(r.len(), 3);
    assert_eq!(r.peek(0), 1);
    assert_eq!(r.peek(1), 2);
    assert_eq!(r.peek(2), 3);
    // Only one slot is left: the rest is dropped.
    assert_eq!(r.push_slice(&[4, 5, 6]), 1);
    assert_eq!(r.len(), 4);
    assert_eq!(r.peek(3), 4);
    // Full ring takes nothing.
    assert_eq!(r.push_slice(&[7]), 0);
}

#[test]
fn ring_fill_to_capacity_then_reject() {
    let cap = 8192;
    let mut r = SampleRing::new(cap, 0.0f32);
    let data = vec![1.0f32; cap];
    assert_eq!(r.push_slice(&data), cap);
    assert_eq!(r.push_slice(&vec![1.0f32; 100]), 0);
}

#[test]
fn ring_wraps_around() {
    let mut r = SampleRing::new(4, 0u8);
    r.push_slice(&[1, 2, 3]);
    r.advance(2);
    assert_eq!(r.len(), 1);
    assert_eq!(r.peek(0), 3);
    assert_eq!(r.push_slice(&[4, 5, 6]), 3);
    let mut out = [0u8; 4];
    assert_eq!(r.drain_into(&mut out, 0), 4);
    assert_eq!(out, [3, 4, 5, 6]);
    assert_eq!(r.len(), 0);
}

#[test]
fn ring_drain_pads_and_zeroes() {
    let mut r = SampleRing::new(4, 0.0f32);
    r.push_slice(&[0.5, 0.25]);
    let mut out = [9.0f32; 3];
    let n = r.drain_into(&mut out, 0.0);
    assert_eq!(n, 2);
    assert_eq!(out, [0.5, 0.25, 0.0]);
    // The slots read were reset.
    for j in 0..4 {
        assert_eq!(r.peek(j), 0.0);
    }
}

#[test]
fn ring_pending_area_and_commit() {
    let mut r = SampleRing::new(6, 0i64);
    r.push_slice(&[10, 20]);
    // Write two cells after the queue, then release them.
    r.write_at(2, 30);
    r.write_at(3, 40);
    assert_eq!(r.len(), 2);
    r.commit(2);
    assert_eq!(r.len(), 4);
    let mut out = [0i64; 4];
    r.drain_into(&mut out, 0);
    assert_eq!(out, [10, 20, 30, 40]);
}

#[test]
fn ring_pop_and_discard() {
    let mut r = SampleRing::new(3, 0u32);
    r.push_slice(&[7, 8, 9]);
    assert_eq!(r.pop_front(0), 7);
    r.discard_front(1, 0);
    assert_eq!(r.len(), 1);
    assert_eq!(r.peek(0), 9);
}

#[test]
fn ring_count_past_capacity_reads_fill() {
    let mut r = SampleRing::new(2, 0i32);
    r.write_at(0, 5);
    r.write_at(1, 6);
    r.commit(3);
    assert_eq!(r.len(), 3);
    let mut out = [9i32; 2];
    assert_eq!(r.drain_into(&mut out, 0), 2);
    assert_eq!(out, [5, 6]);
    let mut rest = [9i32; 1];
    assert_eq!(r.drain_into(&mut rest, 0), 1);
    assert_eq!(rest, [0]);
}

#[test]
fn ring_clear_resets() {
    let mut r = SampleRing::new(5, 0i32);
    r.push_slice(&[1, 2, 3]);
    r.advance(1);
    r.clear(-1);
    assert_eq!(r.len(), 0);
    for j in 0..5 {
        assert_eq!(r.peek(j), -1);
    }
}
