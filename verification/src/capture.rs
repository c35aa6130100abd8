//! The compute core of the capture stream.
//!
//! The hardware callback hands over an interleaved buffer at the device's
//! native rate and channel count; this module down-mixes it, converts it to
//! the analysis rate and pushes every sample into the shared frame buffer
//! with drop-oldest eviction. Opening the device and running the callback
//! thread live outside the library.

use vstd::prelude::*;

use crate::buffer::{push_evict_all, FrameBuffer};
use crate::resample::{downmix, mono_view, resample_out, resample_phase, Resampler};

verus! {

/// The shared buffer holds five seconds of audio at the analysis rate.
pub const CAPTURE_BUFFER_SAMPLES: usize = 16_000 * 5;

pub fn capture_buffer_samples() -> (n: usize)
    ensures
        n == CAPTURE_BUFFER_SAMPLES,
{
    CAPTURE_BUFFER_SAMPLES
}

/// What the library reads of a hardware input configuration the device
/// advertises.
#[derive(Clone, Copy, Debug, PartialEq, Eq, Structural)]
pub struct NativeConfig {
    pub channels: u16,
    pub min_sample_rate: u32,
    pub max_sample_rate: u32,
    pub sample_format_i16: bool,
}

/// A configuration under which the device can deliver the analysis format
/// directly: mono, 16-bit integer samples, with 16 kHz inside its rate
/// range.
pub open spec fn supports_analysis_format(c: NativeConfig) -> bool {
    c.channels == 1 && c.min_sample_rate <= 16_000 <= c.max_sample_rate && c.sample_format_i16
}

/// Prefer the first advertised configuration that can deliver the analysis
/// format directly; with none, the caller opens the device's default
/// configuration and resamples.
pub fn pick_native_config(configs: &Vec<NativeConfig>) -> (r: Option<usize>)
    ensures
        match r {
            Some(i) => i < configs@.len() && supports_analysis_format(configs@[i as int])
                && forall|j: int| 0 <= j < i ==> !supports_analysis_format(configs@[j]),
            None => forall|j: int|
                0 <= j < configs@.len() ==> !supports_analysis_format(configs@[j]),
        },
{
    let n = configs.len();
    let mut i: usize = 0;
    while i < n
        invariant
            i <= n,
            n == configs@.len(),
            forall|j: int| 0 <= j < i ==> !supports_analysis_format(configs@[j]),
        decreases n - i,
    {
        let c = configs[i];
        if c.channels == 1 && c.min_sample_rate <= 16_000 && 16_000 <= c.max_sample_rate
            && c.sample_format_i16 {
            return Some(i);
        }
        i += 1;
    }
    None
}

/// Process one delivered hardware buffer: down-mix to mono by taking one
/// channel per frame, resample to the analysis rate, and push every produced
/// sample into the frame buffer, oldest first.
pub fn ingest_hardware_block(
    rs: &mut Resampler,
    buf: &mut FrameBuffer,
    data: &Vec<i16>,
    channels: usize,
)
    requires
        old(rs).wf(),
        old(buf).wf(),
        channels >= 1,
    ensures
        final(rs).wf(),
        final(buf).wf(),
        final(rs).rate() == old(rs).rate(),
        final(buf).cap() == old(buf).cap(),
        final(buf)@ == push_evict_all(
            old(buf)@,
            old(buf).cap(),
            resample_out(
                mono_view(data@, channels as int),
                old(rs).phase_val(),
                old(rs).rate(),
            ),
        ),
        final(rs).phase_val() == resample_phase(
            mono_view(data@, channels as int),
            old(rs).phase_val(),
            old(rs).rate(),
        ),
{
    let mono = downmix(data, channels);
    let converted = rs.process(&mono);
    buf.push_block(&converted);
}

} // verus!
