//! Turn sequencing.
//!
//! The turn controller runs the session loop: wake-word gating, then
//! utterance recording, then processing and spoken playback, and back to
//! listening. It exposes exactly one phase at a time to observers, and only
//! the controller drives transitions. Cancellation and fatal errors both
//! return the session to the idle phase; the error is reported to observers
//! rather than crashing the process.

use vstd::prelude::*;

verus! {

/// The phase the session is in; observers read it, never write it.
#[derive(Clone, Copy, Debug, PartialEq, Eq, Structural)]
pub enum JarvisStateEnum {
    Idle,
    Loading,
    WakeListening,
    Recording,
    Processing,
    Speaking,
}

/// What just happened in the session loop.
#[derive(Clone, Copy, Debug, PartialEq, Eq, Structural)]
pub enum TurnEvent {
    /// A session start was requested; heavy assets begin loading.
    SessionStarted,
    /// Assets are ready and the capture stream is running.
    SessionReady,
    /// The keyword engine reported a wake event.
    WakeDetected,
    /// The segmenter returned an empty utterance; listen again.
    UtteranceEmpty,
    /// The segmenter returned a non-empty utterance.
    UtteranceCaptured,
    /// A spoken response is ready and playback is starting.
    ResponseReady,
    /// Processing ended without a spoken response (nothing understood, a
    /// handled voice command, or a missing collaborator credential).
    ResponseSkipped,
    /// Playback of the spoken response finished.
    PlaybackFinished,
    /// The shared cancellation flag was cleared; the session winds down.
    SessionStopped,
    /// A fatal error was reported to observers; the session winds down.
    SessionFailed,
}

/// The transition table of the turn controller. Stopping and failing lead
/// to idle from every phase; an event that does not apply to the current
/// phase leaves it unchanged.
pub open spec fn spec_next_phase(phase: JarvisStateEnum, event: TurnEvent) -> JarvisStateEnum {
    match event {
        TurnEvent::SessionStopped => JarvisStateEnum::Idle,
        TurnEvent::SessionFailed => JarvisStateEnum::Idle,
        TurnEvent::SessionStarted => match phase {
            JarvisStateEnum::Idle => JarvisStateEnum::Loading,
            _ => phase,
        },
        TurnEvent::SessionReady => match phase {
            JarvisStateEnum::Loading => JarvisStateEnum::WakeListening,
            _ => phase,
        },
        TurnEvent::WakeDetected => match phase {
            JarvisStateEnum::WakeListening => JarvisStateEnum::Recording,
            _ => phase,
        },
        TurnEvent::UtteranceEmpty => match phase {
            JarvisStateEnum::Recording => JarvisStateEnum::WakeListening,
            _ => phase,
        },
        TurnEvent::UtteranceCaptured => match phase {
            JarvisStateEnum::Recording => JarvisStateEnum::Processing,
            _ => phase,
        },
        TurnEvent::ResponseReady => match phase {
            JarvisStateEnum::Processing => JarvisStateEnum::Speaking,
            _ => phase,
        },
        TurnEvent::ResponseSkipped => match phase {
            JarvisStateEnum::Processing => JarvisStateEnum::WakeListening,
            _ => phase,
        },
        TurnEvent::PlaybackFinished => match phase {
            JarvisStateEnum::Speaking => JarvisStateEnum::WakeListening,
            _ => phase,
        },
    }
}

pub fn next_phase(phase: &JarvisStateEnum, event: &TurnEvent) -> (r: JarvisStateEnum)
    ensures
        r == spec_next_phase(*phase, *event),
{
    match event {
        TurnEvent::SessionStopped => JarvisStateEnum::Idle,
        TurnEvent::SessionFailed => JarvisStateEnum::Idle,
        TurnEvent::SessionStarted => match phase {
            JarvisStateEnum::Idle => JarvisStateEnum::Loading,
            _ => *phase,
        },
        TurnEvent::SessionReady => match phase {
            JarvisStateEnum::Loading => JarvisStateEnum::WakeListening,
            _ => *phase,
        },
        TurnEvent::WakeDetected => match phase {
            JarvisStateEnum::WakeListening => JarvisStateEnum::Recording,
            _ => *phase,
        },
        TurnEvent::UtteranceEmpty => match phase {
            JarvisStateEnum::Recording => JarvisStateEnum::WakeListening,
            _ => *phase,
        },
        TurnEvent::UtteranceCaptured => match phase {
            JarvisStateEnum::Recording => JarvisStateEnum::Processing,
            _ => *phase,
        },
        TurnEvent::ResponseReady => match phase {
            JarvisStateEnum::Processing => JarvisStateEnum::Speaking,
            _ => *phase,
        },
        TurnEvent::ResponseSkipped => match phase {
            JarvisStateEnum::Processing => JarvisStateEnum::WakeListening,
            _ => *phase,
        },
        TurnEvent::PlaybackFinished => match phase {
            JarvisStateEnum::Speaking => JarvisStateEnum::WakeListening,
            _ => *phase,
        },
    }
}

/// The label emitted to observers on every phase change.
pub fn state_label(phase: &JarvisStateEnum) -> (r: &'static str)
    ensures
        phase is Idle ==> r@ == "Idle"@,
        phase is Loading ==> r@ == "Loading"@,
        phase is WakeListening ==> r@ == "WakeListening"@,
        phase is Recording ==> r@ == "Recording"@,
        phase is Processing ==> r@ == "Processing"@,
        phase is Speaking ==> r@ == "Speaking"@,
{
    match phase {
        JarvisStateEnum::Idle => "Idle",
        JarvisStateEnum::Loading => "Loading",
        JarvisStateEnum::WakeListening => "WakeListening",
        JarvisStateEnum::Recording => "Recording",
        JarvisStateEnum::Processing => "Processing",
        JarvisStateEnum::Speaking => "Speaking",
    }
}

/// Cancellation and failure are absorbing: from every phase, stopping or
/// failing the session lands in the idle phase, which is also where a fresh
/// session begins.
pub proof fn lemma_stop_reaches_idle(phase: JarvisStateEnum)
    ensures
        spec_next_phase(phase, TurnEvent::SessionStopped) is Idle,
        spec_next_phase(phase, TurnEvent::SessionFailed) is Idle,
{
}

} // verus!
