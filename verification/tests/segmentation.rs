// The wake-word gate, the utterance segmenter, and the turn controller.

use voice_frontend::gate::WakeGate;
use voice_frontend::segment::{silence_threshold_frames, vad_frame_length, Segmenter};
use voice_frontend::turn::{next_phase, state_label, JarvisStateEnum, TurnEvent};

fn speech_frame(len: usize, fill: i16) -> Vec<i16> {
    vec![fill; len]
}

#[test]
fn gate_detects_on_non_negative_keyword_index() {
    let mut g = WakeGate::new();
    assert!(!g.observe(-1));
    assert!(!g.observe(-2));
    assert!(g.observe(0));
    assert!(g.observe(3));
}

#[test]
fn gate_polls_cancellation_every_hundred_frames() {
    let mut g = WakeGate::new();
    // a poll falls due at frame zero
    assert!(g.should_abort(false));
    assert!(!g.should_abort(true));
    // between polls the cleared flag goes unnoticed
    assert!(!g.observe(-1));
    assert!(!g.should_abort(false));
    // after one hundred examined frames the next poll falls due
    for _ in 0..99 {
        assert!(!g.observe(-1));
    }
    assert_eq!(g.frames_examined(), 100);
    assert!(g.should_abort(false));
    assert!(!g.should_abort(true));
}

#[test]
fn silence_threshold_converts_seconds_to_frames() {
    // one second of 30 ms frames: ceil(1000/30) = 34, above the floor
    assert_eq!(silence_threshold_frames(1, 30), 34);
    assert_eq!(silence_threshold_frames(2, 30), 67);
    assert_eq!(silence_threshold_frames(1, 10), 100);
}

#[test]
fn silence_threshold_floors_at_five_frames() {
    assert_eq!(silence_threshold_frames(0, 30), 5);
    assert_eq!(silence_threshold_frames(1, 1000), 5);
    assert_eq!(silence_threshold_frames(1, 250), 5);
}

#[test]
fn vad_frame_length_is_sixteen_samples_per_ms() {
    assert_eq!(vad_frame_length(30), 480);
    assert_eq!(vad_frame_length(10), 160);
}

#[test]
fn segmenter_triggers_exactly_on_kth_speech_frame() {
    let mut s = Segmenter::new(4, 3, 5);
    // two speech frames: still armed, nothing accumulated
    assert!(s.step(&speech_frame(4, 1), true).is_none());
    assert!(s.step(&speech_frame(4, 2), true).is_none());
    assert_eq!(s.utterance_so_far(), Vec::<i16>::new());
    // the third consecutive speech frame triggers and flushes the pre-roll
    assert!(s.step(&speech_frame(4, 3), true).is_none());
    assert_eq!(
        s.utterance_so_far(),
        vec![1, 1, 1, 1, 2, 2, 2, 2, 3, 3, 3, 3]
    );
}

#[test]
fn segmenter_clears_pre_roll_on_interleaved_silence() {
    let mut s = Segmenter::new(2, 3, 5);
    assert!(s.step(&speech_frame(2, 1), true).is_none());
    assert!(s.step(&speech_frame(2, 2), true).is_none());
    // silence while armed resets the run; the two retained frames are lost
    assert!(s.step(&speech_frame(2, 0), false).is_none());
    assert!(s.step(&speech_frame(2, 3), true).is_none());
    assert!(s.step(&speech_frame(2, 4), true).is_none());
    assert!(s.step(&speech_frame(2, 5), true).is_none());
    assert_eq!(s.utterance_so_far(), vec![3, 3, 4, 4, 5, 5]);
}

#[test]
fn segmenter_closes_exactly_on_threshold_silence_frame() {
    let mut s = Segmenter::new(2, 1, 5);
    // a single speech frame triggers with trigger count one
    assert!(s.step(&speech_frame(2, 9), true).is_none());
    // four silent frames keep it open
    for _ in 0..4 {
        assert!(s.step(&speech_frame(2, 0), false).is_none());
    }
    // the fifth consecutive silent frame closes it
    let done = s.step(&speech_frame(2, 0), false);
    let utterance = done.expect("fifth silent frame closes the segment");
    // one speech frame plus five silent frames, two samples each
    assert_eq!(utterance.len(), 12);
    assert_eq!(&utterance[..2], &[9, 9]);
}

#[test]
fn speech_resets_the_silence_run() {
    let mut s = Segmenter::new(1, 1, 5);
    assert!(s.step(&vec![7], true).is_none());
    for _ in 0..4 {
        assert!(s.step(&vec![0], false).is_none());
    }
    // a speech frame just before the threshold starts the hangover over
    assert!(s.step(&vec![7], true).is_none());
    for _ in 0..4 {
        assert!(s.step(&vec![0], false).is_none());
    }
    assert!(s.step(&vec![0], false).is_some());
}

#[test]
fn segmenter_polls_cancellation_every_hundred_frames() {
    let mut s = Segmenter::new(1, 50, 5);
    assert!(s.should_abort(false));
    assert!(!s.should_abort(true));
    for i in 0..100 {
        assert!(s.step(&vec![if i % 2 == 0 { 5 } else { 0 }], i % 2 == 0).is_none());
    }
    assert!(s.should_abort(false));
}

#[test]
fn end_to_end_recording_scenario() {
    // 16 kHz mono, 30 ms frames, eight trigger frames, one second of
    // silence threshold (34 frames, unaffected by the floor): eight speech
    // frames then silence yield one utterance of (8 + 34) * 480 samples
    let frame_len = vad_frame_length(30);
    assert_eq!(frame_len, 480);
    let threshold = silence_threshold_frames(1, 30);
    assert_eq!(threshold, 34);
    let mut s = Segmenter::new(frame_len, 8, threshold);

    let mut result = None;
    for _ in 0..8 {
        assert!(s.step(&speech_frame(frame_len, 100), true).is_none());
    }
    for _ in 0..40 {
        if let Some(u) = s.step(&speech_frame(frame_len, 0), false) {
            result = Some(u);
            break;
        }
    }
    let utterance = result.expect("the silence threshold closes the utterance");
    assert_eq!(utterance.len(), (8 + 34) * (30 * 16));
}

#[test]
fn turn_controller_follows_the_session_loop() {
    let p0 = JarvisStateEnum::Idle;
    let p1 = next_phase(&p0, &TurnEvent::SessionStarted);
    assert_eq!(p1, JarvisStateEnum::Loading);
    let p2 = next_phase(&p1, &TurnEvent::SessionReady);
    assert_eq!(p2, JarvisStateEnum::WakeListening);
    let p3 = next_phase(&p2, &TurnEvent::WakeDetected);
    assert_eq!(p3, JarvisStateEnum::Recording);
    let p4 = next_phase(&p3, &TurnEvent::UtteranceCaptured);
    assert_eq!(p4, JarvisStateEnum::Processing);
    let p5 = next_phase(&p4, &TurnEvent::ResponseReady);
    assert_eq!(p5, JarvisStateEnum::Speaking);
    let p6 = next_phase(&p5, &TurnEvent::PlaybackFinished);
    assert_eq!(p6, JarvisStateEnum::WakeListening);
}

#[test]
fn empty_utterance_returns_to_listening() {
    assert_eq!(
        next_phase(&JarvisStateEnum::Recording, &TurnEvent::UtteranceEmpty),
        JarvisStateEnum::WakeListening
    );
    assert_eq!(
        next_phase(&JarvisStateEnum::Processing, &TurnEvent::ResponseSkipped),
        JarvisStateEnum::WakeListening
    );
}

#[test]
fn stopping_and_failing_reach_idle_from_every_phase() {
    let phases = [
        JarvisStateEnum::Idle,
        JarvisStateEnum::Loading,
        JarvisStateEnum::WakeListening,
        JarvisStateEnum::Recording,
        JarvisStateEnum::Processing,
        JarvisStateEnum::Speaking,
    ];
    for phase in phases {
        assert_eq!(next_phase(&phase, &TurnEvent::SessionStopped), JarvisStateEnum::Idle);
        assert_eq!(next_phase(&phase, &TurnEvent::SessionFailed), JarvisStateEnum::Idle);
    }
}

#[test]
fn inapplicable_events_leave_the_phase_unchanged() {
    assert_eq!(
        next_phase(&JarvisStateEnum::Idle, &TurnEvent::WakeDetected),
        JarvisStateEnum::Idle
    );
    assert_eq!(
        next_phase(&JarvisStateEnum::Speaking, &TurnEvent::SessionStarted),
        JarvisStateEnum::Speaking
    );
}

#[test]
fn phase_labels_match_the_observer_protocol() {
    assert_eq!(state_label(&JarvisStateEnum::Idle), "Idle");
    assert_eq!(state_label(&JarvisStateEnum::Loading), "Loading");
    assert_eq!(state_label(&JarvisStateEnum::WakeListening), "WakeListening");
    assert_eq!(state_label(&JarvisStateEnum::Recording), "Recording");
    assert_eq!(state_label(&JarvisStateEnum::Processing), "Processing");
    assert_eq!(state_label(&JarvisStateEnum::Speaking), "Speaking");
}
