//! Interleaved channel layout: frame `f` of an interleaved buffer with
//! `stride` channels holds channel `ch` at index `f * stride + ch`.
use vstd::prelude::*;

verus! {

/// Channel `ch` of the `frames` frames that start at sample index `start`.
pub open spec fn channel_of<T>(samples: Seq<T>, start: int, frames: nat, stride: int, ch: int) -> Seq<T> {
    Seq::new(frames, |f: int| samples[start + f * stride + ch])
}

/// `out` after writing `mono[0..k]` to indices `base`, `base + stride`, ...,
/// skipping indices past the end of `out`.
pub open spec fn placed<T>(out: Seq<T>, mono: Seq<T>, base: int, stride: int, k: nat) -> Seq<T>
    decreases k,
{
    if k == 0 {
        out
    } else {
        let prev = placed(out, mono, base, stride, (k - 1) as nat);
        let idx = base + (k - 1) * stride;
        if 0 <= idx < out.len() {
            prev.update(idx, mono[k - 1])
        } else {
            prev
        }
    }
}

proof fn lemma_placed_len<T>(out: Seq<T>, mono: Seq<T>, base: int, stride: int, k: nat)
    ensures
        placed(out, mono, base, stride, k).len() == out.len(),
    decreases k,
{
    if k > 0 {
        lemma_placed_len(out, mono, base, stride, (k - 1) as nat);
    }
}

proof fn lemma_frame_index(f: int, frames: int, stride: int, ch: int)
    requires
        0 <= f < frames,
        0 <= ch < stride,
    ensures
        0 <= f * stride + ch < frames * stride,
        (f + 1) * stride == f * stride + stride,
{
    assert(0 <= f * stride) by (nonlinear_arith)
        requires
            0 <= f,
            0 <= stride,
    ;
    assert((f + 1) * stride <= frames * stride) by (nonlinear_arith)
        requires
            f + 1 <= frames,
            0 <= stride,
    ;
    assert((f + 1) * stride == f * stride + stride) by (nonlinear_arith);
}

/// Copy channel `ch` of `frames` interleaved frames starting at sample
/// index `start` into a mono buffer.
pub fn deinterleave<T: Copy>(samples: &[T], start: usize, frames: usize, channels: usize, ch: usize) -> (r: Vec<T>)
    requires
        ch < channels,
        start + frames * channels <= samples@.len(),
    ensures
        r@ == channel_of(samples@, start as int, frames as nat, channels as int, ch as int),
{
    let mut r: Vec<T> = Vec::new();
    let mut f: usize = 0;
    let n = samples.len();
    while f < frames
        invariant
            n == samples@.len(),
            ch < channels,
            start + frames * channels <= samples@.len(),
            f <= frames,
            r@ == channel_of(samples@, start as int, f as nat, channels as int, ch as int),
        decreases frames - f,
    {
        proof {
            lemma_frame_index(f as int, frames as int, channels as int, ch as int);
        }
        let idx = start + f * channels + ch;
        r.push(samples[idx]);
        proof {
            assert(r@ =~= channel_of(samples@, start as int, (f + 1) as nat, channels as int, ch as int));
        }
        f += 1;
    }
    r
}

/// Write `mono[0..count]` into channel `ch` of the interleaved buffer `out`,
/// starting at frame `out_pos`; samples whose index falls past the end of
/// `out` are dropped.
pub fn interleave_into<T: Copy>(out: &mut [T], mono: &[T], count: usize, out_pos: usize, channels: usize, ch: usize)
    requires
        ch < channels,
        count <= mono@.len(),
        (out_pos + count) * channels <= usize::MAX,
    ensures
        final(out)@ == placed(
            old(out)@,
            mono@,
            out_pos * channels + ch,
            channels as int,
            count as nat,
        ),
{
    let len = out.len();
    let mut f: usize = 0;
    while f < count
        invariant
            ch < channels,
            count <= mono@.len(),
            (out_pos + count) * channels <= usize::MAX,
            f <= count,
            out@.len() == len,
            out@ == placed(old(out)@, mono@, out_pos * channels + ch, channels as int, f as nat),
        decreases count - f,
    {
        proof {
            lemma_placed_len(old(out)@, mono@, out_pos * channels + ch, channels as int, f as nat);
            assert((out_pos + f) * channels + ch == out_pos * channels + ch + f * channels)
                by (nonlinear_arith);
            assert((out_pos + f + 1) * channels <= (out_pos + count) * channels) by (nonlinear_arith)
                requires f < count, channels >= 0;
            assert((out_pos + f + 1) * channels == (out_pos + f) * channels + channels)
                by (nonlinear_arith);
            assert(out_pos + f <= (out_pos + f) * channels) by (nonlinear_arith)
                requires channels >= 1, out_pos + f >= 0;
        }
        let idx = (out_pos + f) * channels + ch;
        if idx < len {
            out[idx] = mono[f];
        }
        f += 1;
    }
}

/// Splitting a channel out of an interleaved buffer and writing it back in
/// the same place leaves the buffer unchanged.
pub proof fn lemma_deinterleave_reinterleave<T>(samples: Seq<T>, frames: nat, channels: int, ch: int, k: nat)
    requires
        0 <= ch < channels,
        frames * channels <= samples.len(),
        k <= frames,
    ensures
        placed(samples, channel_of(samples, 0, frames, channels, ch), ch, channels, k) =~= samples,
    decreases k,
{
    if k > 0 {
        lemma_deinterleave_reinterleave(samples, frames, channels, ch, (k - 1) as nat);
        lemma_frame_index(k - 1, frames as int, channels, ch);
        assert(ch + (k - 1) * channels == 0 + (k - 1) * channels + ch);
    }
}

} // verus!
