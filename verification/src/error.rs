//! Error types for the jingle library.  The variants carry no payload:
//! the surrounding application layer attaches its own context (file paths,
//! encoder messages) when it maps these into its user-facing errors.

use vstd::prelude::*;

verus! {

/// Main error type for jingle generation operations.
#[derive(Clone, Copy, Debug, PartialEq, Eq, Structural)]
pub enum JingleError {
    /// Audio generation error.
    AudioError,
    /// File I/O error.
    IoError,
    /// WAV encoding error.
    WavError,
    /// MP3 encoding error.
    Mp3Error,
    /// Invalid parameter error.
    InvalidParameter,
    /// Audio playback error.
    PlaybackError,
    /// Random number generation error: an operation needed a seed that was
    /// never set.
    RandomError,
}

} // verus!
