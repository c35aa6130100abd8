//! Wake-word gating.
//!
//! Frames of a fixed length are read out of the shared buffer and handed one
//! by one to an external keyword-spotting engine, whose answer is a keyword
//! index. Any non-negative index counts as a wake event (single-keyword
//! system). Every hundredth frame the shared cancellation flag is consulted,
//! which keeps the worst-case cancellation latency to a hundred frame
//! durations.
//!
//! The blocking frame reads and the engine call itself happen outside the
//! library; this module holds the decisions the loop makes around them.

use vstd::prelude::*;

verus! {

/// The cancellation flag is consulted on every hundredth frame.
pub const CANCEL_POLL_FRAMES: u64 = 100;

/// Whether a cancellation poll falls due at this frame count.
pub open spec fn cancel_due(count: int) -> bool {
    count % 100 == 0
}

/// Loop state of the wake-word gate: how many frames have been examined
/// without a match.
pub struct WakeGate {
    frames_seen: u64,
}

impl WakeGate {
    pub closed spec fn frames(&self) -> int {
        self.frames_seen as int
    }

    pub fn new() -> (g: WakeGate)
        ensures
            g.frames() == 0,
    {
        WakeGate { frames_seen: 0 }
    }

    pub fn frames_examined(&self) -> (n: u64)
        ensures
            n == self.frames(),
    {
        self.frames_seen
    }

    /// The loop aborts with a "stopped by request" outcome exactly when a
    /// poll falls due and the shared running flag has been cleared.
    pub fn should_abort(&self, running: bool) -> (r: bool)
        ensures
            r == (cancel_due(self.frames()) && !running),
    {
        self.frames_seen % CANCEL_POLL_FRAMES == 0 && !running
    }

    /// Feed one keyword-engine verdict for the frame just examined. Returns
    /// true exactly when the engine reported a match (any non-negative
    /// keyword index); otherwise the frame count advances.
    pub fn observe(&mut self, keyword_index: i32) -> (detected: bool)
        requires
            old(self).frames() < u64::MAX,
        ensures
            detected == (keyword_index >= 0),
            detected ==> final(self).frames() == old(self).frames(),
            !detected ==> final(self).frames() == old(self).frames() + 1,
    {
        if keyword_index >= 0 {
            true
        } else {
            self.frames_seen = self.frames_seen + 1;
            false
        }
    }
}

/// Latency bound for cooperative cancellation: whatever the current frame
/// count, a poll falls due among the hundred counts that follow. Once the
/// running flag is cleared, no loop that polls on this cadence survives a
/// hundred more frames.
pub proof fn lemma_cancellation_within_poll_window(count: int)
    requires
        count >= 0,
    ensures
        exists|k: int| 0 <= k < 100 && #[trigger] cancel_due(count + k),
{
    let k = if count % 100 == 0 {
        0int
    } else {
        100 - count % 100
    };
    assert(cancel_due(count + k));
    assert(0 <= k < 100);
}

} // verus!
