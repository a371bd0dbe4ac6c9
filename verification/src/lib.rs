//! Core of a push-to-talk speech recognition engine: audio frame bookkeeping,
//! transducer decode decisions, streaming hypothesis management with
//! longest-stable-prefix commits, and the supporting text utilities.
//!
//! Everything here is plain data and decisions; audio devices, inference
//! runtimes and the UI shell live outside and talk to this crate through
//! ordinary values.

pub mod text;
pub mod words;
pub mod word_hypothesis;
pub mod streaming;
pub mod resample;
pub mod decoder;
pub mod session;
pub mod vad;
pub mod progress;
pub mod errors;
pub mod engine;
pub mod shortcuts;
pub mod typing;
pub mod store;
pub mod vocab;
pub mod phrase;

use vstd::prelude::*;

verus! {

/// Milliseconds of audio covered by one encoder frame.
pub const FRAME_DURATION_MS: i64 = 80;

/// Samples per emitted audio frame (30 ms at 16 kHz).
pub const PROCESS_CHUNK_SIZE: usize = 480;

/// Samples per analysis chunk handed to the voice-activity detector.
pub const VAD_CHUNK_SIZE: usize = 480;

/// Sample rate expected at the recognizer boundary.
pub const TARGET_SAMPLE_RATE: u32 = 16_000;

/// Samples of 16 kHz audio covered by one encoder frame (80 ms).
pub const SAMPLES_PER_FRAME: usize = 1280;

} // verus!
