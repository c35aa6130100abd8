//! Real-time audio front-end for a voice assistant: a bounded sample buffer
//! with drop-oldest eviction, a phase-accumulating resampler, wake-word
//! gating, VAD-based utterance segmentation, and the turn-sequencing state
//! machine, each with a verified contract.

use vstd::prelude::*;

pub mod buffer;
pub mod capture;
pub mod devices;
pub mod gate;
pub mod history;
pub mod llm;
pub mod resample;
pub mod segment;
pub mod session;
pub mod text;
pub mod transform;
pub mod turn;

verus! {

/// Fixed analysis rate: every component downstream of the resampler works on
/// 16 kHz mono samples.
pub const SAMPLE_RATE: usize = 16_000;

} // verus!
