//! VAD-based utterance segmentation.
//!
//! The segmenter pulls fixed-size frames from the frame buffer, classifies
//! each via an external voice-activity detector, and applies a state machine
//! (armed, then triggered, then closed) with pre-roll capture and silence
//! hangover to produce one contiguous speech-sample sequence per utterance.
//!
//! While armed, consecutive speech frames are counted and retained in a
//! bounded pre-roll queue; on the trigger-count-th consecutive speech frame
//! the segmenter transitions to triggered and flushes the whole pre-roll
//! into the accumulated utterance, so the onset that occurred before
//! confirmation is not clipped. While triggered, every frame is appended to
//! the utterance; reaching the silence threshold of consecutive silent
//! frames closes the segment. The VAD call itself and the blocking frame
//! reads happen outside the library.

use vstd::prelude::*;

verus! {

/// Specification-level segmenter state.
#[verifier::ext_equal]
pub struct SegView {
    /// Samples per frame; fixed for the segmenter's lifetime.
    pub frame_len: nat,
    /// Consecutive speech frames required to confirm an utterance start.
    pub trigger_frames: nat,
    /// Consecutive silent frames required to close the utterance.
    pub silence_threshold: nat,
    /// Whether the segmenter is triggered (accumulating an utterance).
    pub speaking: bool,
    /// Consecutive speech frames seen while armed.
    pub speech_run: nat,
    /// Consecutive silent frames seen while triggered.
    pub silence_run: nat,
    /// Recent speech frames retained while armed, flattened, oldest first.
    pub pre_roll: Seq<i16>,
    /// The accumulated utterance.
    pub utterance: Seq<i16>,
    /// Whether the utterance has been closed.
    pub done: bool,
}

/// One step of the segmentation state machine on a classified frame.
pub open spec fn seg_step(s: SegView, frame: Seq<i16>, is_speech: bool) -> SegView {
    if s.speaking {
        let appended = SegView { utterance: s.utterance + frame, ..s };
        if is_speech {
            SegView { silence_run: 0, ..appended }
        } else {
            let run = s.silence_run + 1;
            SegView { silence_run: run, done: run >= s.silence_threshold, ..appended }
        }
    } else if is_speech {
        let run = s.speech_run + 1;
        let grown = s.pre_roll + frame;
        let bounded = if grown.len() > s.trigger_frames * s.frame_len {
            grown.skip(s.frame_len as int)
        } else {
            grown
        };
        if run >= s.trigger_frames {
            SegView {
                speaking: true,
                speech_run: 0,
                silence_run: 0,
                pre_roll: Seq::empty(),
                utterance: s.utterance + bounded,
                ..s
            }
        } else {
            SegView { speech_run: run, pre_roll: bounded, ..s }
        }
    } else {
        SegView { speech_run: 0, pre_roll: Seq::<i16>::empty(), ..s }
    }
}

/// The state machine folded over a block of classified frames.
pub open spec fn seg_run(s: SegView, frames: Seq<Seq<i16>>, speech: Seq<bool>) -> SegView
    decreases frames.len(),
{
    if frames.len() == 0 {
        s
    } else {
        seg_run(seg_step(s, frames[0], speech[0]), frames.skip(1), speech.skip(1))
    }
}

/// A fresh armed state for one recording attempt.
pub open spec fn seg_fresh(frame_len: nat, trigger_frames: nat, silence_threshold: nat) -> SegView {
    SegView {
        frame_len,
        trigger_frames,
        silence_threshold,
        speaking: false,
        speech_run: 0,
        silence_run: 0,
        pre_roll: Seq::empty(),
        utterance: Seq::empty(),
        done: false,
    }
}

/// All frames of a block concatenated, oldest first.
pub open spec fn concat_frames(frames: Seq<Seq<i16>>) -> Seq<i16>
    decreases frames.len(),
{
    if frames.len() == 0 {
        Seq::empty()
    } else {
        frames[0] + concat_frames(frames.skip(1))
    }
}

/// The utterance segmenter, created fresh for every recording attempt.
pub struct Segmenter {
    frame_len: usize,
    trigger_frames: usize,
    silence_threshold: usize,
    speaking: bool,
    speech_run: usize,
    silence_run: usize,
    pre_roll: Vec<i16>,
    utterance: Vec<i16>,
    done: bool,
    frames_seen: u64,
}

impl View for Segmenter {
    type V = SegView;

    closed spec fn view(&self) -> SegView {
        SegView {
            frame_len: self.frame_len as nat,
            trigger_frames: self.trigger_frames as nat,
            silence_threshold: self.silence_threshold as nat,
            speaking: self.speaking,
            speech_run: self.speech_run as nat,
            silence_run: self.silence_run as nat,
            pre_roll: self.pre_roll@,
            utterance: self.utterance@,
            done: self.done,
        }
    }
}

impl Segmenter {
    /// Frames examined so far; the cancellation poll cadence runs on it.
    pub closed spec fn frames(&self) -> int {
        self.frames_seen as int
    }

    pub closed spec fn wf(&self) -> bool {
        &&& self.frame_len >= 1
        &&& self.silence_threshold >= 1
        &&& !self.speaking ==> {
            &&& self.pre_roll@.len() == self.speech_run * self.frame_len
            &&& (self.speech_run == 0 || self.speech_run < self.trigger_frames)
            &&& self.silence_run == 0
            &&& self.utterance@.len() == 0
        }
        &&& self.speaking ==> self.pre_roll@.len() == 0 && self.speech_run == 0
        &&& !self.done ==> self.silence_run < self.silence_threshold
    }

    /// Create an armed segmenter. The silence threshold comes from
    /// `silence_threshold_frames`, which applies the five-frame floor.
    pub fn new(frame_len: usize, trigger_frames: usize, silence_threshold: usize) -> (s: Segmenter)
        requires
            frame_len >= 1,
            silence_threshold >= 1,
        ensures
            s.wf(),
            s@ == seg_fresh(frame_len as nat, trigger_frames as nat, silence_threshold as nat),
            s.frames() == 0,
    {
        let s = Segmenter {
            frame_len,
            trigger_frames,
            silence_threshold,
            speaking: false,
            speech_run: 0,
            silence_run: 0,
            pre_roll: Vec::new(),
            utterance: Vec::new(),
            done: false,
            frames_seen: 0,
        };
        proof {
            assert(s@ =~= seg_fresh(
                frame_len as nat,
                trigger_frames as nat,
                silence_threshold as nat,
            ));
        }
        s
    }

    /// The loop aborts with a "stopped" outcome exactly when a cancellation
    /// poll falls due (every hundred frames) and the running flag is
    /// cleared.
    pub fn should_abort(&self, running: bool) -> (r: bool)
        ensures
            r == (crate::gate::cancel_due(self.frames()) && !running),
    {
        self.frames_seen % crate::gate::CANCEL_POLL_FRAMES == 0 && !running
    }

    /// Feed one classified frame. Returns the accumulated utterance exactly
    /// when this frame closes the segment.
    pub fn step(&mut self, frame: &Vec<i16>, is_speech: bool) -> (finished: Option<Vec<i16>>)
        requires
            old(self).wf(),
            !old(self)@.done,
            frame@.len() == old(self)@.frame_len,
            old(self).frames() < u64::MAX,
        ensures
            final(self).wf(),
            final(self)@ == seg_step(old(self)@, frame@, is_speech),
            final(self).frames() == old(self).frames() + 1,
            match finished {
                Some(u) => final(self)@.done && u@ == final(self)@.utterance,
                None => !final(self)@.done,
            },
    {
        let ghost pre = self@;
        let ghost post = seg_step(pre, frame@, is_speech);
        self.frames_seen = self.frames_seen + 1;
        if self.speaking {
            self.utterance.extend_from_slice(frame.as_slice());
            if is_speech {
                self.silence_run = 0;
                proof {
                    assert(self@ =~= post);
                }
                None
            } else {
                self.silence_run = self.silence_run + 1;
                if self.silence_run >= self.silence_threshold {
                    self.done = true;
                    proof {
                        assert(self@ =~= post);
                    }
                    Some(clone_samples(&self.utterance))
                } else {
                    proof {
                        assert(self@ =~= post);
                    }
                    None
                }
            }
        } else if is_speech {
            let run = self.speech_run + 1;
            self.pre_roll.extend_from_slice(frame.as_slice());
            proof {
                let grown = pre.pre_roll + frame@;
                assert(grown.len() == (pre.speech_run + 1) * pre.frame_len) by (nonlinear_arith)
                    requires
                        pre.pre_roll.len() == pre.speech_run * pre.frame_len,
                        frame@.len() == pre.frame_len,
                        grown.len() == pre.pre_roll.len() + frame@.len(),
                ;
                assert((grown.len() > pre.trigger_frames * pre.frame_len) == (pre.speech_run + 1
                    > pre.trigger_frames)) by (nonlinear_arith)
                    requires
                        grown.len() == (pre.speech_run + 1) * pre.frame_len,
                        pre.frame_len >= 1,
                ;
            }
            if run > self.trigger_frames {
                // only reachable with a trigger count of zero, where the
                // bounded pre-roll drops its single frame again
                proof {
                    assert(pre.speech_run == 0 && pre.trigger_frames == 0);
                    assert(self.pre_roll@.len() == pre.frame_len);
                    assert((pre.pre_roll + frame@).skip(pre.frame_len as int)
                        =~= Seq::<i16>::empty());
                }
                self.pre_roll.clear();
            }
            if run >= self.trigger_frames {
                self.utterance.append(&mut self.pre_roll);
                self.speaking = true;
                self.speech_run = 0;
                self.silence_run = 0;
                proof {
                    assert(self@ =~= post);
                }
            } else {
                self.speech_run = run;
                proof {
                    assert((pre.pre_roll + frame@).len() <= pre.trigger_frames * pre.frame_len)
                        by (nonlinear_arith)
                        requires
                            pre.pre_roll.len() == pre.speech_run * pre.frame_len,
                            pre.speech_run + 1 < pre.trigger_frames || (pre.speech_run + 1
                                == pre.trigger_frames),
                            pre.speech_run + 1 <= pre.trigger_frames,
                            frame@.len() == pre.frame_len,
                    ;
                    assert(self@ =~= post);
                    assert(self.pre_roll@.len() == self.speech_run * self.frame_len)
                        by (nonlinear_arith)
                        requires
                            self.pre_roll@.len() == pre.pre_roll.len() + pre.frame_len,
                            pre.pre_roll.len() == pre.speech_run * pre.frame_len,
                            self.speech_run == pre.speech_run + 1,
                            self.frame_len as nat == pre.frame_len,
                    ;
                }
            }
            None
        } else {
            self.speech_run = 0;
            self.pre_roll.clear();
            proof {
                assert(self@ =~= post);
            }
            None
        }
    }

    /// The accumulated utterance so far.
    pub fn utterance_so_far(&self) -> (u: Vec<i16>)
        ensures
            u@ == self@.utterance,
    {
        clone_samples(&self.utterance)
    }
}

/// Copy a sample vector; sample clones are copies.
fn clone_samples(v: &Vec<i16>) -> (r: Vec<i16>)
    ensures
        r@ == v@,
{
    let r = v.clone();
    proof {
        assert(forall|i: int| 0 <= i < v@.len() ==> r@[i] == v@[i]);
        assert(r@ =~= v@);
    }
    r
}

/// Convert the configured silence threshold from seconds to frames:
/// the ceiling of `seconds * 1000 / frame_ms`, floored at five frames to
/// avoid pathologically fast cutoffs.
pub fn silence_threshold_frames(silence_seconds: usize, frame_ms: usize) -> (f: usize)
    requires
        frame_ms >= 1,
        silence_seconds * 1000 <= usize::MAX - frame_ms,
    ensures
        f == if (silence_seconds * 1000 + frame_ms - 1) / frame_ms as int > 5 {
            (silence_seconds * 1000 + frame_ms - 1) / frame_ms as int
        } else {
            5int
        },
        f >= 5,
{
    let ceil = (silence_seconds * 1000 + frame_ms - 1) / frame_ms;
    if ceil > 5 {
        ceil
    } else {
        5
    }
}

/// A block of identical speech/silence verdicts.
pub open spec fn uniform_flags(n: nat, v: bool) -> Seq<bool> {
    Seq::new(n, |i: int| v)
}

/// Folding one more frame into a run applies one more step.
pub proof fn lemma_seg_run_snoc(s: SegView, frames: Seq<Seq<i16>>, speech: Seq<bool>)
    requires
        frames.len() >= 1,
        speech.len() == frames.len(),
    ensures
        seg_run(s, frames, speech) == seg_step(
            seg_run(s, frames.drop_last(), speech.drop_last()),
            frames.last(),
            speech.last(),
        ),
    decreases frames.len(),
{
    if frames.len() == 1 {
        assert(frames.drop_last() =~= Seq::<Seq<i16>>::empty());
        assert(speech.drop_last() =~= Seq::<bool>::empty());
        assert(frames.skip(1) =~= Seq::<Seq<i16>>::empty());
        assert(speech.skip(1) =~= Seq::<bool>::empty());
        let s1 = seg_step(s, frames[0], speech[0]);
        assert(seg_run(s1, frames.skip(1), speech.skip(1)) == s1);
        assert(seg_run(s, frames, speech) == s1);
        assert(seg_run(s, frames.drop_last(), speech.drop_last()) == s);
        assert(frames.last() == frames[0]);
        assert(speech.last() == speech[0]);
    } else {
        let s1 = seg_step(s, frames[0], speech[0]);
        lemma_seg_run_snoc(s1, frames.skip(1), speech.skip(1));
        assert(frames.skip(1).drop_last() =~= frames.drop_last().skip(1));
        assert(speech.skip(1).drop_last() =~= speech.drop_last().skip(1));
        assert(frames.skip(1).last() == frames.last());
        assert(speech.skip(1).last() == speech.last());
        assert(frames.drop_last()[0] == frames[0]);
        assert(speech.drop_last()[0] == speech[0]);
        assert(seg_run(s, frames, speech) == seg_run(s1, frames.skip(1), speech.skip(1)));
        assert(seg_run(s, frames.drop_last(), speech.drop_last()) == seg_run(
            s1,
            frames.drop_last().skip(1),
            speech.drop_last().skip(1),
        ));
    }
}

/// Concatenation of a block of frames, one frame at a time from the end.
pub proof fn lemma_concat_frames_snoc(frames: Seq<Seq<i16>>)
    requires
        frames.len() >= 1,
    ensures
        concat_frames(frames) == concat_frames(frames.drop_last()) + frames.last(),
    decreases frames.len(),
{
    if frames.len() == 1 {
        assert(frames.drop_last() =~= Seq::<Seq<i16>>::empty());
        assert(frames.skip(1) =~= Seq::<Seq<i16>>::empty());
        assert(concat_frames(frames) =~= concat_frames(frames.drop_last()) + frames.last());
    } else {
        lemma_concat_frames_snoc(frames.skip(1));
        assert(frames.skip(1).drop_last() =~= frames.drop_last().skip(1));
        assert(frames.skip(1).last() == frames.last());
        assert(frames.drop_last()[0] == frames[0]);
        assert(concat_frames(frames) =~= concat_frames(frames.drop_last()) + frames.last());
    }
}

/// Total length of a block of equal-sized frames.
pub proof fn lemma_concat_frames_len(frames: Seq<Seq<i16>>, frame_len: nat)
    requires
        forall|i: int| 0 <= i < frames.len() ==> (#[trigger] frames[i]).len() == frame_len,
    ensures
        concat_frames(frames).len() == frames.len() * frame_len,
    decreases frames.len(),
{
    if frames.len() == 0 {
    } else {
        lemma_concat_frames_len(frames.skip(1), frame_len);
        assert((frames.len() - 1) * frame_len + frame_len == frames.len() * frame_len)
            by (nonlinear_arith);
    }
}

/// Trigger exactness: starting from a fresh armed segmenter with trigger
/// count `k`, feeding `j <= k` consecutive speech frames leaves it armed
/// with the whole pre-roll retained while `j < k`, and transitions it to
/// triggered exactly on the `k`-th frame, with the accumulated utterance
/// being precisely those `k` frames — the pre-roll is never lost.
pub proof fn lemma_trigger_on_kth_speech_frame(
    frame_len: nat,
    k: nat,
    thresh: nat,
    frames: Seq<Seq<i16>>,
    j: int,
)
    requires
        frame_len >= 1,
        k >= 1,
        0 <= j <= k,
        frames.len() >= j,
        forall|i: int| 0 <= i < frames.len() ==> (#[trigger] frames[i]).len() == frame_len,
    ensures
        ({
            let s = seg_run(
                seg_fresh(frame_len, k, thresh),
                frames.take(j),
                uniform_flags(j as nat, true),
            );
            &&& !s.done
            &&& s.speaking == (j == k)
            &&& s.frame_len == frame_len
            &&& s.trigger_frames == k
            &&& s.silence_threshold == thresh
            &&& s.silence_run == 0
            &&& j < k ==> s.speech_run == j && s.pre_roll == concat_frames(frames.take(j))
                && s.utterance == Seq::<i16>::empty()
            &&& j == k ==> s.speech_run == 0 && s.pre_roll == Seq::<i16>::empty()
                && s.utterance == concat_frames(frames.take(j))
        }),
    decreases j,
{
    let fresh = seg_fresh(frame_len, k, thresh);
    if j == 0 {
        assert(frames.take(0) =~= Seq::<Seq<i16>>::empty());
        assert(uniform_flags(0, true) =~= Seq::<bool>::empty());
    } else {
        lemma_trigger_on_kth_speech_frame(frame_len, k, thresh, frames, j - 1);
        let prev = seg_run(fresh, frames.take(j - 1), uniform_flags((j - 1) as nat, true));
        lemma_seg_run_snoc(fresh, frames.take(j), uniform_flags(j as nat, true));
        assert(frames.take(j).drop_last() =~= frames.take(j - 1));
        assert(uniform_flags(j as nat, true).drop_last() =~= uniform_flags((j - 1) as nat, true));
        assert(frames.take(j).last() == frames[j - 1]);
        let stepped = seg_step(prev, frames[j - 1], true);
        assert(seg_run(fresh, frames.take(j), uniform_flags(j as nat, true)) == stepped);
        lemma_concat_frames_snoc(frames.take(j));
        assert(concat_frames(frames.take(j)) == concat_frames(frames.take(j - 1)) + frames[j - 1]);
        let grown = prev.pre_roll + frames[j - 1];
        assert(grown =~= concat_frames(frames.take(j)));
        assert(forall|i: int|
            0 <= i < frames.take(j).len() ==> (#[trigger] frames.take(j)[i]).len() == frame_len);
        lemma_concat_frames_len(frames.take(j), frame_len);
        assert(grown.len() == j * frame_len);
        assert(j * frame_len <= k * frame_len) by (nonlinear_arith)
            requires
                j <= k,
                frame_len >= 1,
        ;
        assert(!(grown.len() > k * frame_len));
        if j < k {
            assert(!(prev.speech_run + 1 >= k));
            assert(stepped.pre_roll == grown);
        } else {
            assert(prev.speech_run + 1 == k);
            assert(stepped.speaking);
            assert(stepped.utterance =~= concat_frames(frames.take(j)));
        }
    }
}

/// Hangover exactness: a triggered segmenter at the start of a silence run
/// stays open and counts each silent frame while the run is shorter than the
/// silence threshold, appends every frame to the utterance, and closes
/// exactly on the threshold-th consecutive silent frame.
pub proof fn lemma_close_on_threshold_silence(s0: SegView, frames: Seq<Seq<i16>>, j: int)
    requires
        s0.speaking,
        !s0.done,
        s0.silence_run == 0,
        s0.silence_threshold >= 1,
        0 <= j <= s0.silence_threshold,
        frames.len() >= j,
    ensures
        ({
            let s = seg_run(s0, frames.take(j), uniform_flags(j as nat, false));
            &&& s.done == (j == s0.silence_threshold)
            &&& s.silence_run == j
            &&& s.speaking
            &&& s.silence_threshold == s0.silence_threshold
            &&& s.utterance == s0.utterance + concat_frames(frames.take(j))
        }),
    decreases j,
{
    if j == 0 {
        assert(frames.take(0) =~= Seq::<Seq<i16>>::empty());
        assert(uniform_flags(0, false) =~= Seq::<bool>::empty());
        assert(s0.utterance + concat_frames(frames.take(0)) =~= s0.utterance);
    } else {
        lemma_close_on_threshold_silence(s0, frames, j - 1);
        let prev = seg_run(s0, frames.take(j - 1), uniform_flags((j - 1) as nat, false));
        lemma_seg_run_snoc(s0, frames.take(j), uniform_flags(j as nat, false));
        assert(frames.take(j).drop_last() =~= frames.take(j - 1));
        assert(uniform_flags(j as nat, false).drop_last() =~= uniform_flags(
            (j - 1) as nat,
            false,
        ));
        assert(frames.take(j).last() == frames[j - 1]);
        lemma_concat_frames_snoc(frames.take(j));
        let stepped = seg_step(prev, frames[j - 1], false);
        assert(stepped.utterance =~= s0.utterance + concat_frames(frames.take(j)));
    }
}

/// No step discards accumulated audio: whatever a frame does to the state,
/// the utterance afterwards still begins with the utterance before.
pub proof fn lemma_utterance_only_grows(s: SegView, frame: Seq<i16>, is_speech: bool)
    ensures
        seg_step(s, frame, is_speech).utterance.subrange(0, s.utterance.len() as int)
            == s.utterance,
{
    let after = seg_step(s, frame, is_speech).utterance;
    if s.speaking {
        assert((s.utterance + frame).subrange(0, s.utterance.len() as int) =~= s.utterance);
    } else if is_speech && s.speech_run + 1 >= s.trigger_frames {
        assert(after.subrange(0, s.utterance.len() as int) =~= s.utterance);
    } else {
        assert(after.subrange(0, s.utterance.len() as int) =~= s.utterance);
    }
}

/// Any speech frame while triggered resets the silence run to zero and keeps
/// the segment open, appending the frame to the utterance.
pub proof fn lemma_speech_resets_silence_run(s: SegView, frame: Seq<i16>)
    requires
        s.speaking,
    ensures
        seg_step(s, frame, true).silence_run == 0,
        seg_step(s, frame, true).done == s.done,
        seg_step(s, frame, true).speaking,
        seg_step(s, frame, true).utterance == s.utterance + frame,
{
}

/// Samples per analysis frame for a configured frame duration: the fixed
/// 16 kHz analysis rate delivers sixteen samples per millisecond.
pub fn vad_frame_length(frame_ms: usize) -> (n: usize)
    requires
        frame_ms * 16 <= usize::MAX,
    ensures
        n == frame_ms * 16,
{
    let per_ms = crate::SAMPLE_RATE / 1000;
    assert(per_ms == 16);
    let n = per_ms * frame_ms;
    proof {
        assert(16 * frame_ms == frame_ms * 16) by (nonlinear_arith);
    }
    n
}

} // verus!
