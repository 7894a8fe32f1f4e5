//! Verified buffer, position and index logic of a real-time tempo/pitch
//! player: ring buffers for a streaming STFT, the playback source, channel
//! interleaving, resampler history, phase-locking peak assignment, pipeline
//! bookkeeping and the integer side of track analysis.

pub mod analysis;
pub mod channels;
pub mod history;
pub mod peaks;
pub mod pipeline;
pub mod ring;
pub mod source;
pub mod stft;
