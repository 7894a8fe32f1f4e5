//! Sizes and per-block bookkeeping of the real-time playback pipeline
//! (vocoder frames, source feeding, priming and draining).
use vstd::prelude::*;

verus! {

/// Samples per vocoder frame.
pub const FFT_SIZE: usize = 4096;

/// Frames overlapping at any output sample.
pub const OVERLAP: usize = 8;

/// Source frames fed to the vocoders per pipeline iteration.
pub const FEED_CHUNK: usize = 512;

/// Frames of already-played source fed to fresh vocoders so that they can
/// produce output at once: one frame plus one feed chunk.
pub fn lookback_frames() -> (n: usize)
    ensures
        n == FFT_SIZE + FEED_CHUNK,
{
    FFT_SIZE + FEED_CHUNK
}

/// Length of the scratch buffer that receives the output discarded after
/// priming.
pub fn priming_discard_len() -> (n: usize)
    ensures
        n == FFT_SIZE * 4,
{
    FFT_SIZE * 4
}

/// Upper bound on pipeline iterations for a block of `n_frames` output
/// frames: ten per feed chunk the block spans, plus ten.
pub fn max_feed_iterations(n_frames: usize) -> (n: usize)
    ensures
        n == (n_frames / FEED_CHUNK + 1) * 10,
{
    (n_frames / FEED_CHUNK + 1) * 10
}

/// How many vocoder samples to drain for one resampling step: what the
/// resampler needs, at least two and at most four feed chunks.
pub fn drain_request(needed: usize) -> (n: usize)
    ensures
        n == (if needed < 2 {
            2
        } else if needed > FEED_CHUNK * 4 {
            FEED_CHUNK * 4
        } else {
            needed as int
        }),
        2 <= n <= FEED_CHUNK * 4,
{
    if needed < 2 {
        2
    } else if needed > FEED_CHUNK * 4 {
        FEED_CHUNK * 4
    } else {
        needed
    }
}

/// What a vocoder frame does with the synthesis phases.
#[derive(Clone, Copy, Debug, PartialEq, Eq, Structural)]
pub enum PhaseUpdate {
    /// First frame since construction or reset: take the analysis phases.
    Initialize,
    /// Transient frame: reset the synthesis phases to the analysis phases.
    Reset,
    /// Ordinary frame: advance the synthesis phases by the phase increments.
    Accumulate,
}

/// The phase update of a frame, given whether earlier frames left phase
/// state and whether this frame is treated as a transient.
pub fn phase_update(has_state: bool, transient: bool) -> (u: PhaseUpdate)
    ensures
        u == (if !has_state {
            PhaseUpdate::Initialize
        } else if transient {
            PhaseUpdate::Reset
        } else {
            PhaseUpdate::Accumulate
        }),
{
    if !has_state {
        PhaseUpdate::Initialize
    } else if transient {
        PhaseUpdate::Reset
    } else {
        PhaseUpdate::Accumulate
    }
}

/// Whether a pipeline iteration ends the block early: nothing was fed and
/// nothing was produced.
pub fn pipeline_stalled(fed: usize, produced: usize) -> (b: bool)
    ensures
        b == (fed == 0 && produced == 0),
{
    fed == 0 && produced == 0
}

/// Progress through one output block of the vocoder pipeline: frames
/// written so far and iterations used, against the block length and the
/// iteration bound.
pub struct BlockFill {
    n_frames: usize,
    out_pos: usize,
    iterations: usize,
    max_iterations: usize,
}

impl BlockFill {
    pub closed spec fn wf(&self) -> bool {
        &&& self.out_pos <= self.n_frames
        &&& self.iterations <= self.max_iterations
    }

    pub closed spec fn frames(&self) -> nat {
        self.n_frames as nat
    }

    pub closed spec fn written(&self) -> nat {
        self.out_pos as nat
    }

    pub closed spec fn used(&self) -> nat {
        self.iterations as nat
    }

    pub closed spec fn limit(&self) -> nat {
        self.max_iterations as nat
    }

    /// Nothing written yet; the bound is `max_feed_iterations(n_frames)`.
    pub fn new(n_frames: usize) -> (r: Self)
        ensures
            r.wf(),
            r.frames() == n_frames,
            r.written() == 0,
            r.used() == 0,
            r.limit() == (n_frames / FEED_CHUNK + 1) * 10,
    {
        BlockFill { n_frames, out_pos: 0, iterations: 0, max_iterations: max_feed_iterations(n_frames) }
    }

    /// Another iteration runs while frames are missing and the bound is not
    /// reached.
    pub fn keep_going(&self) -> (b: bool)
        requires
            self.wf(),
        ensures
            b == (self.written() < self.frames() && self.used() < self.limit()),
    {
        self.out_pos < self.n_frames && self.iterations < self.max_iterations
    }

    /// Frames still missing from the block.
    pub fn space(&self) -> (n: usize)
        requires
            self.wf(),
        ensures
            n == self.frames() - self.written(),
    {
        self.n_frames - self.out_pos
    }

    /// Frames written so far.
    pub fn out_pos(&self) -> (n: usize)
        ensures
            n == self.written(),
    {
        self.out_pos
    }

    /// Record an iteration that fed `fed` source frames and produced
    /// `produced` output frames; returns whether the pipeline stalled (nothing
    /// fed, nothing produced), which ends the block.
    pub fn record(&mut self, fed: usize, produced: usize) -> (stalled: bool)
        requires
            old(self).wf(),
            old(self).used() < old(self).limit(),
            produced <= old(self).frames() - old(self).written(),
        ensures
            final(self).wf(),
            final(self).frames() == old(self).frames(),
            final(self).limit() == old(self).limit(),
            final(self).written() == old(self).written() + produced,
            final(self).used() == old(self).used() + 1,
            stalled == (fed == 0 && produced == 0),
    {
        self.iterations = self.iterations + 1;
        self.out_pos = self.out_pos + produced;
        pipeline_stalled(fed, produced)
    }
}

} // verus!
