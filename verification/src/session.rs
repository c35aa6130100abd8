//! Session configuration and setup decisions.
//!
//! The configuration surface the audio core consumes, the parsing of the
//! collaborator model names, and the small computations the session loop
//! performs between its calls to the external collaborators: padding an
//! utterance for transcription, assembling the transcript, reporting
//! download progress.

use vstd::prelude::*;
use vstd::string::StringExecFns;

use crate::text::trim_spec;

verus! {

/// The configuration the session consumes. The wake-word sensitivity is
/// passed straight through to the keyword engine by the surrounding
/// application and is not interpreted here.
#[derive(Clone, Debug)]
pub struct Config {
    pub porcupine_key: String,
    pub gemini_key: String,
    pub elevenlabs_key: String,
    pub whisper_language: String,
    pub context_window_expiration_seconds: u64,
    pub default_microphone_index: usize,
    pub default_microphone_name: Option<String>,
    pub default_output_device_name: Option<String>,
    pub gemini_model: String,
    pub elevenlabs_model: String,
    pub voice_id: String,
    pub llm_system_prompt: String,
    pub vad_mode: String,
    pub frame_duration_ms: usize,
    pub silence_threshold_seconds: usize,
    pub speech_trigger_frames: usize,
    pub frame_length_wwd: usize,
}

/// The speech-synthesis model family the session can ask for.
#[derive(Clone, Copy, Debug, PartialEq, Eq, Structural)]
pub enum TtsModel {
    MultilingualV2,
    FlashV2_5,
    TurboV2_5,
}

/// The configured synthesis model: an exact name selects its family, and
/// anything else falls back to the multilingual one.
pub open spec fn spec_parse_tts_model(s: Seq<char>) -> TtsModel {
    if s == "eleven_multilingual_v2"@ {
        TtsModel::MultilingualV2
    } else if s == "eleven_flash_v2_5"@ {
        TtsModel::FlashV2_5
    } else if s == "eleven_turbo_v2_5"@ {
        TtsModel::TurboV2_5
    } else {
        TtsModel::MultilingualV2
    }
}

fn str_eq(a: &str, b: &str) -> (r: bool)
    ensures
        r == (a@ == b@),
{
    let sa = String::from_str(a);
    let sb = String::from_str(b);
    sa == sb
}

pub fn parse_tts_model(s: &str) -> (r: TtsModel)
    ensures
        r == spec_parse_tts_model(s@),
{
    if str_eq(s, "eleven_multilingual_v2") {
        TtsModel::MultilingualV2
    } else if str_eq(s, "eleven_flash_v2_5") {
        TtsModel::FlashV2_5
    } else if str_eq(s, "eleven_turbo_v2_5") {
        TtsModel::TurboV2_5
    } else {
        TtsModel::MultilingualV2
    }
}

/// The aggressiveness the voice-activity classifier is created with.
#[derive(Clone, Copy, Debug, PartialEq, Eq, Structural)]
pub enum VadModeKind {
    Quality,
    Aggressive,
    VeryAggressive,
}

/// The configured classifier mode, matched on the lowercase name; anything
/// unrecognized falls back to aggressive.
pub open spec fn spec_parse_vad_mode(lowered: Seq<char>) -> VadModeKind {
    if lowered == "quality"@ {
        VadModeKind::Quality
    } else if lowered == "aggressive"@ {
        VadModeKind::Aggressive
    } else if lowered == "veryaggressive"@ || lowered == "very_aggressive"@ || lowered
        == "very-aggressive"@ {
        VadModeKind::VeryAggressive
    } else {
        VadModeKind::Aggressive
    }
}

pub fn parse_vad_mode(s: &str) -> (r: VadModeKind)
    ensures
        r == spec_parse_vad_mode(crate::text::lower_of(s@)),
{
    let lowered = crate::text::lowercase(s);
    let l = lowered.as_str();
    if str_eq(l, "quality") {
        VadModeKind::Quality
    } else if str_eq(l, "aggressive") {
        VadModeKind::Aggressive
    } else if str_eq(l, "veryaggressive") || str_eq(l, "very_aggressive") || str_eq(
        l,
        "very-aggressive",
    ) {
        VadModeKind::VeryAggressive
    } else {
        VadModeKind::Aggressive
    }
}

/// The transcription collaborator needs comfortably more than a second of
/// audio: 1.2 seconds at the analysis rate.
pub const MIN_TRANSCRIBE_SAMPLES: usize = 19_200;

/// A block of silent samples.
pub open spec fn zeros(n: nat) -> Seq<i16> {
    Seq::new(n, |i: int| 0i16)
}

/// Pad an utterance with trailing silence up to the transcription minimum;
/// a long enough utterance is left untouched.
pub fn pad_to_min_samples(samples: &mut Vec<i16>)
    ensures
        old(samples)@.len() >= MIN_TRANSCRIBE_SAMPLES ==> final(samples)@ == old(samples)@,
        old(samples)@.len() < MIN_TRANSCRIBE_SAMPLES ==> final(samples)@ == old(samples)@ + zeros(
            (MIN_TRANSCRIBE_SAMPLES - old(samples)@.len()) as nat,
        ),
{
    let n = samples.len();
    if n >= MIN_TRANSCRIBE_SAMPLES {
        return ;
    }
    let mut i = n;
    while i < MIN_TRANSCRIBE_SAMPLES
        invariant
            n <= i <= MIN_TRANSCRIBE_SAMPLES,
            n == old(samples)@.len(),
            samples@ =~= old(samples)@ + zeros((i - n) as nat),
        decreases MIN_TRANSCRIBE_SAMPLES - i,
    {
        samples.push(0);
        proof {
            assert(samples@ =~= old(samples)@ + zeros((i + 1 - n) as nat));
        }
        i += 1;
    }
}

/// The transcript lines joined: each segment trimmed, with a space after
/// every one.
pub open spec fn transcript_concat(segments: Seq<Seq<char>>) -> Seq<char>
    decreases segments.len(),
{
    if segments.len() == 0 {
        Seq::empty()
    } else {
        trim_spec(segments[0]) + " "@ + transcript_concat(segments.skip(1))
    }
}

/// Assemble the full transcript from the transcription collaborator's
/// segment texts.
pub fn join_transcript_segments(segments: &Vec<String>) -> (r: String)
    ensures
        r@ == transcript_concat(segments.deep_view()),
{
    let n = segments.len();
    let ghost all = segments.deep_view();
    let mut out = String::new();
    let mut i: usize = 0;
    proof {
        assert(all.skip(0) =~= all);
    }
    while i < n
        invariant
            i <= n,
            n == segments@.len(),
            all == segments.deep_view(),
            out@ + transcript_concat(all.skip(i as int)) == transcript_concat(all),
        decreases n - i,
    {
        proof {
            assert(all.skip(i as int)[0] == all[i as int]);
            assert(all[i as int] == segments@[i as int]@);
            assert(all.skip(i as int).skip(1) =~= all.skip(i + 1));
        }
        let trimmed = crate::text::trim_str(segments[i].as_str());
        out.append(trimmed.as_str());
        out.append(" ");
        i += 1;
    }
    proof {
        assert(transcript_concat(all.skip(n as int)) =~= Seq::<char>::empty());
        assert(out@ =~= transcript_concat(all));
    }
    out
}

/// Rounded whole-number percentage of a download: `downloaded` of `total`
/// bytes, rounded to the nearest percent.
pub fn progress_percent(downloaded: u64, total: u64) -> (r: u64)
    requires
        total >= 1,
        downloaded <= total,
    ensures
        r == (200 * downloaded + total) as int / (2 * total) as int,
        r <= 100,
{
    let d = downloaded as u128;
    let t = total as u128;
    let r = (200 * d + t) / (2 * t);
    proof {
        assert(r <= 100) by (nonlinear_arith)
            requires
                t >= 1,
                d <= t,
                r == (200 * d + t) / (2 * t),
        ;
    }
    r as u64
}

} // verus!
