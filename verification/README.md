# rusty-player

A WebAssembly MP3 player with real-time tempo and pitch control: MP3
decoding, a streaming phase vocoder (4096-point FFT, 8x overlap,
linked-phase stereo, identity phase locking, transient reset), a streaming
resampler, gain and stereo-width correction, and offline BPM / key / beat-grid
analysis.

## Layout

- `src/` — the verified library (Verus). It holds the parts of the player
  that are integer, index and buffer logic, each with a contract:
  - `ring.rs`: fixed-capacity circular sample buffer (queue, pending
    overlap-add area, drain with reset).
  - `stft.rs`: the vocoder's input ring, output ring and window-weight ring,
    frame extraction, overlap-add slots, frame release, drain, reset.
  - `source.rs`: the loaded track with play position and playing flag:
    seeking, pass-through blocks, feeding and look-back priming by channel.
  - `channels.rs`: interleaving and de-interleaving.
  - `history.rs`: the resampler's memory of the previous block and its
    pass-through copy.
  - `peaks.rs`: nearest-peak assignment for identity phase locking.
  - `pipeline.rs`: pipeline sizes, per-block iteration bookkeeping and the
    vocoder's phase-update decision.
  - `analysis.rs`: key-profile rotation, key names, pitch classes,
    inter-onset intervals, analysis windows, beat-grid assembly.
- `app/` — ordinary Rust around the library: the WebAssembly bindings
  (`wasm-bindgen`, `serde-wasm-bindgen`), MP3 decoding (`symphonia`), and
  every computation on floating-point samples (FFTs through `rustfft`,
  phase tracking, interpolation, smoothing, gain, spectral analysis),
  which call into the library for the logic above.
- `tests/` — tests of the library.

The samples in the library's buffers are of a generic `Copy` type; the
player instantiates them with `f32` (and the beat grid with `f64`).
