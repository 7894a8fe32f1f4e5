//! The loaded track as an interleaved sample buffer with a play position
//! (counted in samples) and a playing flag.
use vstd::prelude::*;
use crate::channels::{channel_of, deinterleave};
use crate::ring::repeat;

verus! {

/// Samples per frame used for position arithmetic: the channel count, or
/// one when no channel count is set.
pub open spec fn frame_stride(channels: nat) -> nat {
    if channels == 0 {
        1
    } else {
        channels
    }
}

/// Frames a block of `n_frames` can copy from position `pos` of a source of
/// `len` samples.
pub open spec fn block_frames(len: nat, pos: nat, stride: nat, n_frames: nat) -> nat {
    let available = ((len - pos) as nat) / stride;
    if n_frames < available {
        n_frames
    } else {
        available
    }
}

/// What a pass-through block returns: the next source samples, padded with
/// `zero` to `n_frames` whole frames.
pub open spec fn bypass_block<T>(source: Seq<T>, pos: nat, stride: nat, n_frames: nat, zero: T) -> Seq<T> {
    let count = block_frames(source.len(), pos, stride, n_frames) * stride;
    source.subrange(pos as int, (pos + count) as int) + repeat(zero, (n_frames * stride - count) as nat)
}

/// Start of the look-back window of `frames` frames ending at `pos`.
pub open spec fn lookback_start(pos: nat, frames: nat, stride: nat) -> nat {
    if pos >= frames * stride {
        (pos - frames * stride) as nat
    } else {
        0
    }
}

/// Frames are as wide as the channel count: a track with `c > 0` channels
/// has frames of `c` samples, and only a track with no channel count falls
/// back to one-sample frames.
pub proof fn lemma_frame_stride(channels: nat)
    ensures
        channels > 0 ==> frame_stride(channels) == channels,
        channels == 0 ==> frame_stride(channels) == 1,
{
}

/// The look-back window: it holds `min(frames, pos / stride)` whole frames;
/// when the position is at least `frames` frames in, the window is the
/// `frames` frames that end at the position, otherwise it starts at the
/// beginning of the source.
pub proof fn lemma_lookback_window(pos: nat, frames: nat, stride: nat)
    requires
        stride > 0,
    ensures
        ((pos - lookback_start(pos, frames, stride)) as nat) / stride == (if frames < pos / stride {
            frames
        } else {
            pos / stride
        }),
        frames * stride <= pos ==> lookback_start(pos, frames, stride) + frames * stride == pos,
        frames * stride > pos ==> lookback_start(pos, frames, stride) == 0,
{
    if frames * stride <= pos {
        lemma_div_at_least(pos, stride, frames);
        assert((frames * stride) / stride == frames) by (nonlinear_arith)
            requires
                stride > 0,
        ;
        if frames < pos / stride {
        } else {
            assert(frames == pos / stride);
        }
    } else {
        assert(pos / stride < frames) by (nonlinear_arith)
            requires
                stride > 0,
                frames * stride > pos,
        ;
    }
}

proof fn lemma_div_bounds(a: nat, b: nat)
    requires
        b > 0,
    ensures
        (a / b) * b <= a,
        a / b <= a,
{
    assert((a / b) * b <= a) by (nonlinear_arith)
        requires
            b > 0,
    ;
    assert(a / b <= a) by (nonlinear_arith)
        requires
            b > 0,
    ;
}

proof fn lemma_div_at_least(a: nat, b: nat, k: nat)
    requires
        b > 0,
        k * b <= a,
    ensures
        k <= a / b,
{
    assert(k <= a / b) by (nonlinear_arith)
        requires
            b > 0,
            k * b <= a,
    ;
}

pub struct SourceCursor<T> {
    samples: Vec<T>,
    pos: usize,
    channels: usize,
    playing: bool,
}

impl<T: Copy> SourceCursor<T> {
    /// Well-formedness: the position never passes the end of the source.
    pub closed spec fn wf(&self) -> bool {
        self.pos <= self.samples.len()
    }

    /// The loaded samples, interleaved.
    pub closed spec fn source(&self) -> Seq<T> {
        self.samples@
    }

    /// Play position, in samples.
    pub closed spec fn position(&self) -> nat {
        self.pos as nat
    }

    pub closed spec fn channel_count(&self) -> nat {
        self.channels as nat
    }

    pub closed spec fn playing_state(&self) -> bool {
        self.playing
    }

    pub open spec fn stride(&self) -> nat {
        frame_stride(self.channel_count())
    }

    /// The play position never passes the end of the source: construction
    /// and every operation keep the cursor well-formed, and a well-formed
    /// cursor's position lies within the loaded samples.
    pub proof fn lemma_position_within_source(&self)
        requires
            self.wf(),
        ensures
            self.position() <= self.source().len(),
            self.position() / self.stride() <= self.source().len() / self.stride(),
    {
        assert(self.position() / self.stride() <= self.source().len() / self.stride())
            by (nonlinear_arith)
            requires
                self.stride() > 0,
                self.position() <= self.source().len(),
        ;
    }

    /// Nothing loaded, stereo, stopped.
    pub fn new() -> (r: Self)
        ensures
            r.wf(),
            r.source() == Seq::<T>::empty(),
            r.position() == 0,
            r.channel_count() == 2,
            !r.playing_state(),
    {
        SourceCursor { samples: Vec::new(), pos: 0, channels: 2, playing: false }
    }

    /// Replace the source; the position returns to the start and playback stops.
    pub fn load(&mut self, samples: Vec<T>, channels: usize)
        ensures
            final(self).wf(),
            final(self).source() == samples@,
            final(self).position() == 0,
            final(self).channel_count() == channels,
            !final(self).playing_state(),
    {
        self.samples = samples;
        self.channels = channels;
        self.pos = 0;
        self.playing = false;
    }

    pub fn channels(&self) -> (n: usize)
        ensures
            n == self.channel_count(),
    {
        self.channels
    }

    /// Whether any samples are loaded.
    pub fn is_loaded(&self) -> (b: bool)
        ensures
            b == (self.source().len() > 0),
    {
        self.samples.len() > 0
    }

    pub fn is_playing(&self) -> (b: bool)
        ensures
            b == self.playing_state(),
    {
        self.playing
    }

    pub fn play(&mut self)
        requires
            old(self).wf(),
        ensures
            final(self).wf(),
            final(self).playing_state(),
            final(self).source() == old(self).source(),
            final(self).position() == old(self).position(),
            final(self).channel_count() == old(self).channel_count(),
    {
        self.playing = true;
    }

    pub fn pause(&mut self)
        requires
            old(self).wf(),
        ensures
            final(self).wf(),
            !final(self).playing_state(),
            final(self).source() == old(self).source(),
            final(self).position() == old(self).position(),
            final(self).channel_count() == old(self).channel_count(),
    {
        self.playing = false;
    }

    /// The loaded samples.
    pub fn samples(&self) -> (s: &[T])
        ensures
            s@ == self.source(),
    {
        self.samples.as_slice()
    }

    /// Number of loaded samples.
    pub fn len(&self) -> (n: usize)
        ensures
            n == self.source().len(),
    {
        self.samples.len()
    }

    /// Play position, in samples.
    pub fn position_samples(&self) -> (n: usize)
        ensures
            n == self.position(),
    {
        self.pos
    }

    /// Play position, in whole frames; never past the duration.
    pub fn position_frames(&self) -> (n: usize)
        requires
            self.wf(),
        ensures
            n == self.position() / self.stride(),
            n <= self.source().len() / self.stride(),
            self.channel_count() > 0 ==> n == self.position() / self.channel_count(),
            self.channel_count() == 0 ==> n == self.position(),
    {
        let stride = if self.channels == 0 {
            1
        } else {
            self.channels
        };
        proof {
            assert(self.pos / stride <= self.samples.len() / stride) by (nonlinear_arith)
                requires
                    stride > 0,
                    self.pos <= self.samples.len(),
            ;
        }
        self.pos / stride
    }

    /// Length of the source, in whole frames.
    pub fn duration_frames(&self) -> (n: usize)
        ensures
            n == self.source().len() / self.stride(),
            self.channel_count() > 0 ==> n == self.source().len() / self.channel_count(),
            self.channel_count() == 0 ==> n == self.source().len(),
    {
        let stride = if self.channels == 0 {
            1
        } else {
            self.channels
        };
        self.samples.len() / stride
    }

    /// Move to frame `frame`: the position becomes `frame * channels`
    /// samples, or the end of the source if that is past it.
    pub fn seek_frame(&mut self, frame: usize)
        requires
            old(self).wf(),
        ensures
            final(self).wf(),
            final(self).position() == (if frame * old(self).channel_count() < old(
                self,
            ).source().len() {
                frame * old(self).channel_count()
            } else {
                old(self).source().len() as int
            }),
            final(self).source() == old(self).source(),
            final(self).channel_count() == old(self).channel_count(),
            final(self).playing_state() == old(self).playing_state(),
    {
        let len = self.samples.len();
        self.pos = match frame.checked_mul(self.channels) {
            Some(p) => {
                if p < len {
                    p
                } else {
                    len
                }
            },
            None => len,
        };
    }

    /// Whether the position is at the end of the source.
    pub fn at_end(&self) -> (b: bool)
        ensures
            b == (self.position() >= self.source().len()),
    {
        self.pos >= self.samples.len()
    }

    /// Stop playback if the position has reached the end of the source.
    pub fn stop_at_end(&mut self)
        requires
            old(self).wf(),
        ensures
            final(self).wf(),
            final(self).playing_state() == (old(self).playing_state() && old(self).position() < old(
                self,
            ).source().len()),
            final(self).source() == old(self).source(),
            final(self).position() == old(self).position(),
            final(self).channel_count() == old(self).channel_count(),
    {
        if self.pos >= self.samples.len() {
            self.playing = false;
        }
    }

    /// Start of an output block: whether there is audio to produce. A block
    /// produces audio only while playing, with a source loaded and not yet
    /// finished; reaching the end stops playback.
    pub fn begin_block(&mut self) -> (go: bool)
        requires
            old(self).wf(),
        ensures
            final(self).wf(),
            go == (old(self).playing_state() && old(self).source().len() > 0 && old(self).position()
                < old(self).source().len()),
            final(self).playing_state() == (if old(self).playing_state() && old(
                self,
            ).source().len() > 0 {
                old(self).position() < old(self).source().len()
            } else {
                old(self).playing_state()
            }),
            final(self).source() == old(self).source(),
            final(self).position() == old(self).position(),
            final(self).channel_count() == old(self).channel_count(),
    {
        if !self.playing || self.samples.len() == 0 {
            return false;
        }
        if self.pos >= self.samples.len() {
            self.playing = false;
            return false;
        }
        true
    }

    /// Pass-through block: copy the next `n_frames` frames (as many as remain)
    /// to a buffer of `n_frames` frames padded with `zero`, advance past them,
    /// and stop playback at the end of the source.
    pub fn fill_bypass(&mut self, n_frames: usize, zero: T) -> (out: Vec<T>)
        requires
            old(self).wf(),
            n_frames * old(self).stride() <= usize::MAX,
        ensures
            final(self).wf(),
            out@ == bypass_block(
                old(self).source(),
                old(self).position(),
                old(self).stride(),
                n_frames as nat,
                zero,
            ),
            out@.len() == n_frames * old(self).stride(),
            old(self).channel_count() > 0 ==> out@.len() == n_frames * old(self).channel_count(),
            old(self).channel_count() == 0 ==> out@.len() == n_frames,
            final(self).position() == old(self).position() + block_frames(
                old(self).source().len(),
                old(self).position(),
                old(self).stride(),
                n_frames as nat,
            ) * old(self).stride(),
            final(self).playing_state() == (old(self).playing_state() && final(self).position()
                < old(self).source().len()),
            final(self).source() == old(self).source(),
            final(self).channel_count() == old(self).channel_count(),
    {
        let stride = if self.channels == 0 {
            1
        } else {
            self.channels
        };
        let len = self.samples.len();
        let available = (len - self.pos) / stride;
        let frames = if n_frames < available {
            n_frames
        } else {
            available
        };
        proof {
            lemma_div_bounds((len - self.pos) as nat, stride as nat);
            assert(frames * stride <= available * stride) by (nonlinear_arith)
                requires
                    frames <= available,
                    stride > 0,
            ;
            assert(frames * stride <= n_frames * stride) by (nonlinear_arith)
                requires
                    frames <= n_frames,
                    stride > 0,
            ;
        }
        let count = frames * stride;
        let total = n_frames * stride;
        let start = self.pos;
        let mut out: Vec<T> = Vec::new();
        let mut i: usize = 0;
        while i < count
            invariant
                start + count <= len,
                len == self.samples@.len(),
                i <= count,
                out@ == self.samples@.subrange(start as int, start + i),
            decreases count - i,
        {
            out.push(self.samples[start + i]);
            i += 1;
            assert(out@ =~= self.samples@.subrange(start as int, start + i));
        }
        let mut k: usize = count;
        while k < total
            invariant
                count <= k <= total,
                start + count <= len,
                len == self.samples@.len(),
                out@ == self.samples@.subrange(start as int, start + count) + repeat(
                    zero,
                    (k - count) as nat,
                ),
            decreases total - k,
        {
            out.push(zero);
            k += 1;
            assert(out@ =~= self.samples@.subrange(start as int, start + count) + repeat(
                zero,
                (k - count) as nat,
            ));
        }
        self.pos = start + count;
        if self.pos >= len {
            self.playing = false;
        }
        out
    }

    /// Take the next frames, at most `max_frames` of them and as many as
    /// remain, split by channel (one buffer per frame slot), and advance
    /// past them.
    pub fn feed_frames(&mut self, max_frames: usize) -> (chunks: Vec<Vec<T>>)
        requires
            old(self).wf(),
        ensures
            final(self).wf(),
            chunks@.len() == old(self).stride(),
            old(self).channel_count() > 0 ==> chunks@.len() == old(self).channel_count(),
            forall|c: int, f: int|
                0 <= c < chunks@.len() && 0 <= f < chunks@[c]@.len() ==> #[trigger] chunks@[c]@[f]
                    == old(self).source()[old(self).position() + f * old(self).stride() + c],
            forall|c: int|
                0 <= c < chunks@.len() ==> (#[trigger] chunks@[c])@.len() == block_frames(
                    old(self).source().len(),
                    old(self).position(),
                    old(self).stride(),
                    max_frames as nat,
                ),
            forall|c: int|
                0 <= c < chunks@.len() ==> (#[trigger] chunks@[c])@ == channel_of(
                    old(self).source(),
                    old(self).position() as int,
                    block_frames(
                        old(self).source().len(),
                        old(self).position(),
                        old(self).stride(),
                        max_frames as nat,
                    ),
                    old(self).stride() as int,
                    c,
                ),
            final(self).position() == old(self).position() + block_frames(
                old(self).source().len(),
                old(self).position(),
                old(self).stride(),
                max_frames as nat,
            ) * old(self).stride(),
            final(self).source() == old(self).source(),
            final(self).channel_count() == old(self).channel_count(),
            final(self).playing_state() == old(self).playing_state(),
    {
        let stride = if self.channels == 0 {
            1
        } else {
            self.channels
        };
        let len = self.samples.len();
        let available = (len - self.pos) / stride;
        let frames = if max_frames < available {
            max_frames
        } else {
            available
        };
        proof {
            lemma_div_bounds((len - self.pos) as nat, stride as nat);
            assert(frames * stride <= available * stride) by (nonlinear_arith)
                requires
                    frames <= available,
                    stride > 0,
            ;
        }
        let start = self.pos;
        let mut chunks: Vec<Vec<T>> = Vec::new();
        let mut c: usize = 0;
        while c < stride
            invariant
                c <= stride,
                stride > 0,
                start + frames * stride <= len,
                len == self.samples@.len(),
                chunks@.len() == c,
                forall|q: int|
                    0 <= q < c ==> (#[trigger] chunks@[q])@ == channel_of(
                        self.samples@,
                        start as int,
                        frames as nat,
                        stride as int,
                        q,
                    ),
            decreases stride - c,
        {
            let chunk = deinterleave(self.samples.as_slice(), start, frames, stride, c);
            chunks.push(chunk);
            c += 1;
        }
        self.pos = start + frames * stride;
        chunks
    }

    /// The `lookback_frames` frames before the position (as many as there
    /// are), split by channel; nothing moves.
    pub fn lookback(&self, lookback_frames: usize) -> (chunks: Vec<Vec<T>>)
        requires
            self.wf(),
            lookback_frames * self.stride() <= usize::MAX,
        ensures
            chunks@.len() == self.stride(),
            self.channel_count() > 0 ==> chunks@.len() == self.channel_count(),
            forall|c: int|
                0 <= c < chunks@.len() ==> (#[trigger] chunks@[c])@.len() == (if lookback_frames
                    < self.position() / self.stride() {
                    lookback_frames as nat
                } else {
                    self.position() / self.stride()
                }),
            lookback_frames * self.stride() <= self.position() ==> forall|c: int, f: int|
                0 <= c < chunks@.len() && 0 <= f < chunks@[c]@.len() ==> #[trigger] chunks@[c]@[f]
                    == self.source()[self.position() - lookback_frames * self.stride() + f
                    * self.stride() + c],
            lookback_frames * self.stride() > self.position() ==> forall|c: int, f: int|
                0 <= c < chunks@.len() && 0 <= f < chunks@[c]@.len() ==> #[trigger] chunks@[c]@[f]
                    == self.source()[f * self.stride() + c],
            forall|c: int|
                0 <= c < chunks@.len() ==> (#[trigger] chunks@[c])@ == channel_of(
                    self.source(),
                    lookback_start(self.position(), lookback_frames as nat, self.stride()) as int,
                    ((self.position() - lookback_start(
                        self.position(),
                        lookback_frames as nat,
                        self.stride(),
                    )) as nat) / self.stride(),
                    self.stride() as int,
                    c,
                ),
    {
        let stride = if self.channels == 0 {
            1
        } else {
            self.channels
        };
        let span = lookback_frames * stride;
        let start = if self.pos >= span {
            self.pos - span
        } else {
            0
        };
        let frames = (self.pos - start) / stride;
        proof {
            lemma_div_bounds((self.pos - start) as nat, stride as nat);
        }
        let mut chunks: Vec<Vec<T>> = Vec::new();
        let mut c: usize = 0;
        while c < stride
            invariant
                c <= stride,
                stride > 0,
                start + frames * stride <= self.samples@.len(),
                chunks@.len() == c,
                forall|q: int|
                    0 <= q < c ==> (#[trigger] chunks@[q])@ == channel_of(
                        self.samples@,
                        start as int,
                        frames as nat,
                        stride as int,
                        q,
                    ),
            decreases stride - c,
        {
            let chunk = deinterleave(self.samples.as_slice(), start, frames, stride, c);
            chunks.push(chunk);
            c += 1;
        }
        proof {
            lemma_lookback_window(self.pos as nat, lookback_frames as nat, stride as nat);
        }
        chunks
    }
}

/// Streaming continuity of pass-through playback: while the source lasts,
/// two consecutive blocks of `n1` and `n2` frames return exactly what one
/// block of `n1 + n2` frames returns, and the first block advances the
/// position by `n1` whole frames.
pub proof fn lemma_bypass_blocks_concatenate<T>(
    source: Seq<T>,
    pos: nat,
    stride: nat,
    n1: nat,
    n2: nat,
    zero: T,
)
    requires
        stride > 0,
        pos + (n1 + n2) * stride <= source.len(),
    ensures
        block_frames(source.len(), pos, stride, n1) == n1,
        bypass_block(source, pos, stride, n1, zero) + bypass_block(
            source,
            pos + n1 * stride,
            stride,
            n2,
            zero,
        ) =~= bypass_block(source, pos, stride, n1 + n2, zero),
{
    assert((n1 + n2) * stride == n1 * stride + n2 * stride) by (nonlinear_arith);
    lemma_div_at_least((source.len() - pos) as nat, stride, n1 + n2);
    lemma_div_at_least((source.len() - pos) as nat, stride, n1);
    lemma_div_at_least((source.len() - (pos + n1 * stride)) as nat, stride, n2);
    assert(block_frames(source.len(), pos, stride, n1 + n2) == n1 + n2);
    assert(block_frames(source.len(), pos + n1 * stride, stride, n2) == n2);
}

} // verus!
