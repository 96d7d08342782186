//! A jingle-synthesis engine: oscillators with ADSR amplitude shaping,
//! multi-layer mixing, streaming effects (delay, reverb, low-pass,
//! automatic gain control) and whole-buffer peak normalization, together
//! with the musical-theory helpers (notes, scales, chords, progressions)
//! that drive the preset jingles.
//!
//! Audio amplitudes, times and frequencies are decimal fixed-point values:
//! an `i64` counts millionths, so `FX_ONE` stands for `1.0`, and a sample
//! nominally lies in `[-FX_ONE, FX_ONE]`.

pub mod audio;
pub mod effects;
pub mod error;
pub mod export;
pub mod fixed;
pub mod music;
pub mod pitch;
pub mod presets;
pub mod stream;

pub use audio::{WaveForm, ADSR, Oscillator, LayeredOscillator, OscillatorLayer};
pub use music::{Note, Scale, Chord, ChordProgression, Melody, MelodyPattern, RhythmPattern};
pub use export::JingleGenerator;
pub use presets::JinglePreset;
pub use error::JingleError;
pub use effects::{DelayBuffer, Echo, Reverb, LowPassFilter, LowPass, AutomaticGainControl, AGC,
    normalize_samples, peak_normalize};
pub use stream::{Source, collect_samples};

use vstd::prelude::*;

verus! {

/// Standard sample rate used throughout the library, in Hz.
pub const SAMPLE_RATE: u32 = 44100;

} // verus!
