//! Buffering for a streaming short-time Fourier transform: an input ring that
//! accumulates samples until a full analysis frame is available, and an
//! output ring (with a parallel ring of window weights) into which frames
//! are overlap-added before they are released.
//!
//! The spectral processing itself happens between `input_sample` and
//! `set_pending`; this type keeps the positions and counts consistent.
//!
//! Output positions are counted modulo the output capacity: the frame being
//! built starts `output_available()` positions past the oldest released
//! sample. Released output may exceed the capacity when it is not drained;
//! reads then walk around the ring as `queue_view` describes.
use vstd::prelude::*;
use vstd::arithmetic::div_mod::{lemma_add_mod_noop, lemma_fundamental_div_mod_converse, lemma_small_mod};
use crate::ring::{SampleRing, drained, queue_view, repeat};

verus! {

broadcast use {SampleRing::lemma_queue_len, SampleRing::lemma_cells_len};

pub struct StftBuffers<T> {
    fft_size: usize,
    analysis_hop: usize,
    zero: T,
    input: SampleRing<T>,
    output: SampleRing<T>,
    weights: SampleRing<T>,
}

impl<T: Copy> StftBuffers<T> {
    /// Well-formedness: a positive frame size with a hop no longer than a
    /// frame, an input ring of eight frames never holding more than it can,
    /// output and weight rings of sixteen frames each with equally many
    /// released samples.
    pub closed spec fn wf(&self) -> bool {
        &&& self.fft_size > 0
        &&& self.analysis_hop <= self.fft_size
        &&& self.input.wf()
        &&& self.output.wf()
        &&& self.weights.wf()
        &&& self.input.size() <= self.input.cap()
        &&& self.input.cap() == 8 * self.fft_size
        &&& self.output.cap() == 16 * self.fft_size
        &&& self.weights.cap() == 16 * self.fft_size
        &&& self.output.size() == self.weights.size()
    }

    pub closed spec fn frame_len(&self) -> nat {
        self.fft_size as nat
    }

    pub closed spec fn hop_len(&self) -> nat {
        self.analysis_hop as nat
    }

    /// The value every cell is reset to.
    pub closed spec fn zero_value(&self) -> T {
        self.zero
    }

    /// Samples waiting in the input ring, oldest first.
    pub closed spec fn input_queue(&self) -> Seq<T> {
        self.input.queued()
    }

    pub closed spec fn input_cap(&self) -> nat {
        self.input.cap()
    }

    /// Number of released output samples.
    pub closed spec fn output_count(&self) -> nat {
        self.output.size()
    }

    /// Every output cell, from the oldest released sample onward.
    pub closed spec fn output_cells(&self) -> Seq<T> {
        self.output.cells()
    }

    /// Every window-weight cell, aligned with `output_cells`.
    pub closed spec fn weight_cells(&self) -> Seq<T> {
        self.weights.cells()
    }

    pub closed spec fn output_cap(&self) -> nat {
        self.output.cap()
    }

    /// Released output samples, oldest first, as they will be read.
    pub open spec fn output_queue(&self) -> Seq<T> {
        queue_view(self.output_cells(), self.output_count(), self.zero_value())
    }

    /// Cell index, in `output_cells`, of position `i` of the frame being
    /// built.
    pub open spec fn pending_index(&self, i: nat) -> int {
        ((self.output_count() + i) % self.output_cap()) as int
    }

    /// How the views fit together in a well-formed value.
    pub broadcast proof fn lemma_layout(&self)
        requires
            self.wf(),
        ensures
            #[trigger] self.output_cells().len() == self.output_cap(),
            self.weight_cells().len() == self.output_cap(),
            self.frame_len() > 0,
            self.hop_len() <= self.frame_len(),
            self.input_cap() == 8 * self.frame_len(),
            self.output_cap() == 16 * self.frame_len(),
            self.input_queue().len() <= self.input_cap(),
            self.output_queue().len() == self.output_count(),
    {
    }

    /// Buffers for frames of `fft_size` samples taken every
    /// `fft_size / overlap` samples (zero when the overlap exceeds the frame
    /// size); every cell starts as `zero`.
    pub fn new(fft_size: usize, overlap: usize, zero: T) -> (r: Self)
        requires
            fft_size > 0,
            overlap > 0,
            16 * fft_size <= usize::MAX,
        ensures
            r.wf(),
            r.frame_len() == fft_size,
            r.hop_len() == fft_size / overlap,
            r.zero_value() == zero,
            r.input_cap() == 8 * fft_size,
            r.output_cap() == 16 * fft_size,
            r.input_queue() == Seq::<T>::empty(),
            r.output_count() == 0,
            r.output_cells() == repeat(zero, 16 * fft_size as nat),
            r.weight_cells() == repeat(zero, 16 * fft_size as nat),
    {
        let analysis_hop = fft_size / overlap;
        assert(analysis_hop <= fft_size) by (nonlinear_arith)
            requires
                0 < overlap,
                analysis_hop == fft_size / overlap,
        ;
        let input = SampleRing::new(fft_size * 8, zero);
        let output = SampleRing::new(fft_size * 16, zero);
        let weights = SampleRing::new(fft_size * 16, zero);
        let r = StftBuffers { fft_size, analysis_hop, zero, input, output, weights };
        assert(r.input_queue() =~= Seq::<T>::empty());
        r
    }

    /// Samples per analysis frame.
    pub fn fft_size(&self) -> (n: usize)
        requires
            self.wf(),
        ensures
            n == self.frame_len(),
    {
        self.fft_size
    }

    /// Samples the input advances between frames.
    pub fn analysis_hop(&self) -> (n: usize)
        requires
            self.wf(),
        ensures
            n == self.hop_len(),
    {
        self.analysis_hop
    }

    /// Number of non-negative-frequency bins of a frame: `fft_size / 2 + 1`.
    pub fn half_size(&self) -> (n: usize)
        requires
            self.wf(),
        ensures
            n == self.frame_len() / 2 + 1,
    {
        self.fft_size / 2 + 1
    }

    pub fn input_capacity(&self) -> (n: usize)
        requires
            self.wf(),
        ensures
            n == self.input_cap(),
    {
        self.input.capacity()
    }

    pub fn output_capacity(&self) -> (n: usize)
        requires
            self.wf(),
        ensures
            n == self.output_cap(),
    {
        self.output.capacity()
    }

    /// Samples waiting in the input ring.
    pub fn input_available(&self) -> (n: usize)
        requires
            self.wf(),
        ensures
            n == self.input_queue().len(),
    {
        self.input.len()
    }

    /// Released output samples that can be read without processing.
    pub fn output_available(&self) -> (n: usize)
        requires
            self.wf(),
        ensures
            n == self.output_count(),
            n == self.output_queue().len(),
    {
        self.output.len()
    }

    /// Queue as many of `samples` as fit in the input ring; returns how many
    /// were taken. The output side is untouched.
    pub fn write_input(&mut self, samples: &[T]) -> (n: usize)
        requires
            old(self).wf(),
        ensures
            final(self).wf(),
            final(self).frame_len() == old(self).frame_len(),
            final(self).hop_len() == old(self).hop_len(),
            final(self).zero_value() == old(self).zero_value(),
            final(self).input_cap() == old(self).input_cap(),
            final(self).output_cap() == old(self).output_cap(),
            n == (if samples@.len() < old(self).input_cap() - old(self).input_queue().len() {
                samples@.len() as int
            } else {
                old(self).input_cap() - old(self).input_queue().len()
            }),
            final(self).input_queue() == old(self).input_queue() + samples@.take(n as int),
            final(self).output_count() == old(self).output_count(),
            final(self).output_cells() == old(self).output_cells(),
            final(self).weight_cells() == old(self).weight_cells(),
    {
        self.input.push_slice(samples)
    }

    /// Whether a full frame of input is queued.
    pub fn can_process(&self) -> (b: bool)
        requires
            self.wf(),
        ensures
            b == (self.input_queue().len() >= self.frame_len()),
    {
        self.input.len() >= self.fft_size
    }

    /// Sample `i` of the current analysis frame (the oldest `fft_size`
    /// queued input samples).
    pub fn input_sample(&self, i: usize) -> (v: T)
        requires
            self.wf(),
            i < self.frame_len(),
            self.input_queue().len() >= self.frame_len(),
        ensures
            v == self.input_queue()[i as int],
    {
        self.input.peek(i)
    }

    /// Cell index of position `i` of the frame being built.
    fn pending_slot(&self, i: usize) -> (j: usize)
        requires
            self.wf(),
        ensures
            j == self.pending_index(i as nat),
            j < self.output_cap(),
    {
        let cap = self.output.capacity();
        let a = self.output.len() % cap;
        let b = i % cap;
        proof {
            lemma_add_mod_noop(self.output.size() as int, i as int, cap as int);
        }
        if a < cap - b {
            proof {
                lemma_small_mod((a + b) as nat, cap as nat);
            }
            a + b
        } else {
            proof {
                lemma_fundamental_div_mod_converse((a + b) as int, cap as int, 1, (a + b - cap) as int);
            }
            a - (cap - b)
        }
    }

    /// The output sample and window weight at position `i` of the frame
    /// being built (`i` positions past the released output, modulo the
    /// capacity).
    pub fn pending(&self, i: usize) -> (r: (T, T))
        requires
            self.wf(),
        ensures
            r.0 == self.output_cells()[self.pending_index(i as nat)],
            r.1 == self.weight_cells()[self.pending_index(i as nat)],
    {
        let j = self.pending_slot(i);
        (self.output.peek(j), self.weights.peek(j))
    }

    /// Store an output sample and window weight at position `i` of the frame
    /// being built. Released output is untouched as long as the position
    /// lies within the ring past it.
    pub fn set_pending(&mut self, i: usize, sample: T, weight: T)
        requires
            old(self).wf(),
        ensures
            final(self).wf(),
            final(self).frame_len() == old(self).frame_len(),
            final(self).hop_len() == old(self).hop_len(),
            final(self).zero_value() == old(self).zero_value(),
            final(self).input_cap() == old(self).input_cap(),
            final(self).output_cap() == old(self).output_cap(),
            final(self).input_queue() == old(self).input_queue(),
            final(self).output_count() == old(self).output_count(),
            final(self).output_cells() == old(self).output_cells().update(
                old(self).pending_index(i as nat),
                sample,
            ),
            final(self).weight_cells() == old(self).weight_cells().update(
                old(self).pending_index(i as nat),
                weight,
            ),
            old(self).output_count() + i < old(self).output_cap() ==> final(self).output_queue()
                == old(self).output_queue(),
    {
        let j = self.pending_slot(i);
        self.output.write_at(j, sample);
        self.weights.write_at(j, weight);
        proof {
            if old(self).output_count() + i < old(self).output_cap() {
                lemma_small_mod((old(self).output_count() + i) as nat, old(self).output_cap());
                assert(j == old(self).output_count() + i);
                assert(self.output_queue() =~= old(self).output_queue());
            }
        }
    }

    /// Finish a frame: the input moves on by one analysis hop, and the first
    /// `synthesis_hop` positions of the frame being built are released after
    /// the output already released.
    pub fn finish_frame(&mut self, synthesis_hop: usize)
        requires
            old(self).wf(),
            old(self).input_queue().len() >= old(self).frame_len(),
            old(self).output_count() + synthesis_hop <= usize::MAX,
        ensures
            final(self).wf(),
            final(self).frame_len() == old(self).frame_len(),
            final(self).hop_len() == old(self).hop_len(),
            final(self).zero_value() == old(self).zero_value(),
            final(self).input_cap() == old(self).input_cap(),
            final(self).output_cap() == old(self).output_cap(),
            final(self).input_queue() == old(self).input_queue().skip(old(self).hop_len() as int),
            final(self).output_count() == old(self).output_count() + synthesis_hop,
            final(self).output_cells() == old(self).output_cells(),
            final(self).weight_cells() == old(self).weight_cells(),
            final(self).output_queue().take(old(self).output_count() as int)
                == old(self).output_queue(),
    {
        self.input.advance(self.analysis_hop);
        self.output.commit(synthesis_hop);
        self.weights.commit(synthesis_hop);
        assert(self.output_queue().take(old(self).output_count() as int)
            =~= old(self).output_queue());
    }

    /// Read up to `out.len()` released samples into `out`, oldest first,
    /// without processing; the rest of `out` is set to the zero value, and
    /// the cells read (samples and weights) are reset to it. Returns how many
    /// samples were read.
    pub fn drain_output(&mut self, out: &mut [T]) -> (n: usize)
        requires
            old(self).wf(),
        ensures
            final(self).wf(),
            final(self).frame_len() == old(self).frame_len(),
            final(self).hop_len() == old(self).hop_len(),
            final(self).zero_value() == old(self).zero_value(),
            final(self).input_cap() == old(self).input_cap(),
            final(self).output_cap() == old(self).output_cap(),
            n == (if old(out)@.len() < old(self).output_count() {
                old(out)@.len() as int
            } else {
                old(self).output_count() as int
            }),
            final(out)@ == old(self).output_queue().take(n as int) + repeat(
                old(self).zero_value(),
                (old(out)@.len() - n) as nat,
            ),
            final(self).output_count() == old(self).output_count() - n,
            final(self).output_queue() == old(self).output_queue().skip(n as int),
            final(self).output_cells() == drained(
                old(self).output_cells(),
                n as nat,
                old(self).zero_value(),
            ),
            final(self).weight_cells() == drained(
                old(self).weight_cells(),
                n as nat,
                old(self).zero_value(),
            ),
            final(self).input_queue() == old(self).input_queue(),
    {
        let ghost q0 = self.output_queue();
        let ghost c0 = self.output_cells();
        let n = self.output.drain_into(out, self.zero);
        self.weights.discard_front(n, self.zero);
        proof {
            assert(queue_view(c0, n as nat, self.zero) =~= q0.take(n as int));
            let q1 = self.output_queue();
            assert forall|k: int| 0 <= k < q1.len() implies q1[k] == q0.skip(n as int)[k] by {
                if n <= c0.len() {
                    if k < c0.len() - n {
                        assert(q1[k] == c0[n + k]);
                    }
                }
            }
            assert(q1 =~= q0.skip(n as int));
        }
        n
    }

    /// Empty every ring and set every cell to the zero value.
    pub fn reset(&mut self)
        requires
            old(self).wf(),
        ensures
            final(self).wf(),
            final(self).frame_len() == old(self).frame_len(),
            final(self).hop_len() == old(self).hop_len(),
            final(self).zero_value() == old(self).zero_value(),
            final(self).input_cap() == old(self).input_cap(),
            final(self).output_cap() == old(self).output_cap(),
            final(self).input_queue() == Seq::<T>::empty(),
            final(self).output_count() == 0,
            final(self).output_cells() == repeat(old(self).zero_value(), old(self).output_cap()),
            final(self).weight_cells() == repeat(old(self).zero_value(), old(self).output_cap()),
    {
        self.input.clear(self.zero);
        self.output.clear(self.zero);
        self.weights.clear(self.zero);
        assert(self.input.queued() =~= Seq::<T>::empty());
    }
}

/// Consecutive analysis frames overlap: after a frame is finished, sample `i`
/// of the next frame is sample `i + hop` of the one before, so two frames
/// share `fft_size - hop` samples.
pub proof fn lemma_frames_overlap<T>(queue: Seq<T>, hop: nat, i: int)
    requires
        0 <= i,
        i + hop < queue.len(),
    ensures
        queue.skip(hop as int)[i] == queue[i + hop],
{
}

/// Reading output in pieces reads the same samples as reading it at once:
/// draining `k` then `m` samples returns what draining `k + m` returns and
/// leaves the same queue.
pub proof fn lemma_drain_split<T>(queue: Seq<T>, k: int, m: int)
    requires
        0 <= k,
        0 <= m,
        k + m <= queue.len(),
    ensures
        queue.take(k) + queue.skip(k).take(m) =~= queue.take(k + m),
        queue.skip(k).skip(m) =~= queue.skip(k + m),
{
}

} // verus!
