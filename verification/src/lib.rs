//! Speech-to-text pipeline: a spectral front end that turns PCM samples into
//! a log-mel feature matrix, and a decoding engine that searches an external
//! sequence model for time-stamped transcript segments.
//!
//! Scalar arithmetic is abstracted behind the [`audio::Float`] trait so that
//! the framing, padding, recursion and scheduling logic is verified for every
//! scalar implementation; callers supply an implementation backed by a
//! machine float type.

use vstd::prelude::*;

pub mod audio;
pub mod logic;

verus! {

/// Audio sample rate the model was trained on, in samples per second.
pub const SAMPLE_RATE: usize = 16000;

/// Number of points in one analysis FFT.
pub const N_FFT: usize = 400;

/// Hop between successive analysis frames, in samples.
pub const HOP_LENGTH: usize = 160;

/// Nominal length of one model chunk, in seconds.
pub const CHUNK_LENGTH: usize = 30;

/// Number of feature frames in one fixed decoding window.
pub const N_FRAMES: usize = 3000;

/// Frame counts are rounded up to a multiple of this (half a chunk of frames).
pub const FRAME_PAD: usize = 100 * CHUNK_LENGTH / 2;

} // verus!
