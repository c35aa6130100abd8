//! Channel down-mixing and phase-accumulating sample-rate conversion.
//!
//! A hardware buffer is first down-mixed to mono by taking one channel per
//! frame, then stretched or compressed to the fixed 16 kHz analysis rate:
//! for each input sample, while the accumulated phase is below one output
//! period, the sample is emitted and the phase advances by the input rate;
//! afterwards one output period is subtracted. The phase is held exactly as
//! an integer numerator over the analysis rate, so the conversion never
//! drifts.

use vstd::prelude::*;

verus! {

/// Phase numerator denominator: one output period equals 16000 phase units.
pub const PHASE_UNIT: u64 = 16_000;

/// How far the phase still is from one output period; the emission loops
/// terminate because each step closes this gap.
pub open spec fn phase_gap(phase: int) -> int {
    if phase >= 16000 {
        0
    } else {
        16000 - phase
    }
}

/// Phase value after the emission loop for one input sample (before the
/// one-period subtraction).
pub open spec fn step_phase(phase: int, rate: int) -> int
    decreases phase_gap(phase),
        when rate >= 1
{
    if phase >= 16000 {
        phase
    } else {
        step_phase(phase + rate, rate)
    }
}

/// The samples emitted for one input sample at a given phase: the sample is
/// repeated once per phase step below one output period.
pub open spec fn emit_seq(sample: i16, phase: int, rate: int) -> Seq<i16>
    decreases phase_gap(phase),
        when rate >= 1
{
    if phase >= 16000 {
        Seq::empty()
    } else {
        seq![sample] + emit_seq(sample, phase + rate, rate)
    }
}

/// Phase after fully consuming one input sample.
pub open spec fn next_phase(phase: int, rate: int) -> int {
    step_phase(phase, rate) - 16000
}

/// Everything emitted for a whole input block.
pub open spec fn resample_out(block: Seq<i16>, phase: int, rate: int) -> Seq<i16>
    decreases block.len(),
{
    if block.len() == 0 {
        Seq::empty()
    } else {
        emit_seq(block[0], phase, rate) + resample_out(block.skip(1), next_phase(phase, rate), rate)
    }
}

/// Phase after a whole input block.
pub open spec fn resample_phase(block: Seq<i16>, phase: int, rate: int) -> int
    decreases block.len(),
{
    if block.len() == 0 {
        phase
    } else {
        resample_phase(block.skip(1), next_phase(phase, rate), rate)
    }
}

/// The resting phase stays below one output period or one input period,
/// whichever is larger.
pub open spec fn phase_limit(rate: int) -> int {
    if rate > 16000 {
        rate
    } else {
        16000
    }
}

/// Stateful nearest/duplicate-sample rate converter. The ratio is fixed at
/// stream start; the phase persists across hardware callbacks.
pub struct Resampler {
    in_rate: u32,
    phase: u64,
}

impl Resampler {
    /// Input rate in Hz.
    pub closed spec fn rate(&self) -> int {
        self.in_rate as int
    }

    /// Accumulated phase numerator (denominator 16000).
    pub closed spec fn phase_val(&self) -> int {
        self.phase as int
    }

    pub closed spec fn wf(&self) -> bool {
        &&& self.in_rate >= 1
        &&& 0 <= self.phase_val() < phase_limit(self.rate())
    }

    pub fn new(in_rate: u32) -> (r: Resampler)
        requires
            in_rate >= 1,
        ensures
            r.wf(),
            r.rate() == in_rate,
            r.phase_val() == 0,
    {
        Resampler { in_rate, phase: 0 }
    }

    pub fn input_rate(&self) -> (r: u32)
        ensures
            r == self.rate(),
    {
        self.in_rate
    }

    /// Convert one block of mono input samples to the analysis rate.
    pub fn process(&mut self, block: &Vec<i16>) -> (out: Vec<i16>)
        requires
            old(self).wf(),
        ensures
            final(self).wf(),
            final(self).rate() == old(self).rate(),
            out@ == resample_out(block@, old(self).phase_val(), old(self).rate()),
            final(self).phase_val() == resample_phase(block@, old(self).phase_val(), old(self).rate()),
    {
        let ghost rate = self.rate();
        let ghost p0 = self.phase_val();
        let mut out: Vec<i16> = Vec::new();
        let n = block.len();
        let mut i: usize = 0;
        proof {
            assert(block@.skip(0) =~= block@);
        }
        while i < n
            invariant
                self.in_rate as int == rate,
                rate >= 1,
                0 <= self.phase_val() < phase_limit(rate),
                n == block@.len(),
                i <= n,
                out@ + resample_out(block@.skip(i as int), self.phase_val(), rate) == resample_out(
                    block@,
                    p0,
                    rate,
                ),
                resample_phase(block@.skip(i as int), self.phase_val(), rate) == resample_phase(
                    block@,
                    p0,
                    rate,
                ),
            decreases n - i,
        {
            let s = block[i];
            let ghost entry_phase = self.phase_val();
            proof {
                assert(block@.skip(i as int)[0] == block@[i as int]);
                assert(block@.skip(i as int).skip(1) =~= block@.skip(i + 1));
            }
            let ghost out_entry = out@;
            while self.phase < PHASE_UNIT
                invariant
                    self.in_rate as int == rate,
                    rate >= 1,
                    0 <= self.phase_val() < 16000 + rate,
                    out@ + emit_seq(s, self.phase_val(), rate) == out_entry + emit_seq(
                        s,
                        entry_phase,
                        rate,
                    ),
                    step_phase(self.phase_val(), rate) == step_phase(entry_phase, rate),
                    entry_phase < phase_limit(rate),
                decreases phase_gap(self.phase_val()),
            {
                out.push(s);
                self.phase = self.phase + self.in_rate as u64;
            }
            proof {
                assert(emit_seq(s, self.phase_val(), rate) =~= Seq::<i16>::empty());
                assert(out@ =~= out_entry + emit_seq(s, entry_phase, rate));
            }
            self.phase = self.phase - PHASE_UNIT;
            proof {
                assert(self.phase_val() == next_phase(entry_phase, rate));
                if entry_phase < 16000 {
                    lemma_step_phase_bounds(entry_phase, rate);
                }
            }
            i += 1;
        }
        proof {
            assert(block@.skip(n as int) =~= Seq::<i16>::empty());
            assert(out@ + Seq::<i16>::empty() =~= out@);
        }
        out
    }
}

/// Down-mix an interleaved hardware buffer to mono by keeping one channel
/// per frame: every `channels`-th sample, starting with the first.
pub open spec fn mono_view(data: Seq<i16>, channels: int) -> Seq<i16> {
    Seq::new(((data.len() + channels - 1) / channels) as nat, |i: int| data[i * channels])
}

pub fn downmix(data: &Vec<i16>, channels: usize) -> (out: Vec<i16>)
    requires
        channels >= 1,
    ensures
        out@ == mono_view(data@, channels as int),
{
    let ghost ch = channels as int;
    let n = data.len();
    let m = if n == 0 {
        0
    } else {
        (n - 1) / channels + 1
    };
    proof {
        if n > 0 {
            assert(m == (n + ch - 1) / ch) by (nonlinear_arith)
                requires
                    ch >= 1,
                    n >= 1,
                    m == (n - 1) as int / ch + 1,
            ;
        } else {
            assert((ch - 1) / ch == 0) by (nonlinear_arith)
                requires
                    ch >= 1,
            ;
        }
        assert(mono_view(data@, ch).len() == m);
    }
    let mut out: Vec<i16> = Vec::new();
    let mut k: usize = 0;
    let mut i: usize = 0;
    while k < m
        invariant
            ch == channels as int,
            channels >= 1,
            n == data@.len(),
            mono_view(data@, ch).len() == m,
            n >= 1 ==> m == (n - 1) as int / ch + 1,
            k <= m,
            k < m ==> i == k * channels && i < n,
            out@ =~= mono_view(data@, ch).take(k as int),
        decreases m - k,
    {
        proof {
            assert(mono_view(data@, ch)[k as int] == data@[k as int * ch]);
        }
        out.push(data[i]);
        proof {
            assert(out@ =~= mono_view(data@, ch).take(k + 1));
        }
        k += 1;
        if k < m {
            proof {
                assert(k * ch < n) by (nonlinear_arith)
                    requires
                        ch >= 1,
                        n >= 1,
                        k < m,
                        m == (n - 1) as int / ch + 1,
                ;
                assert(i + ch == k as int * ch) by (nonlinear_arith)
                    requires
                        i == (k - 1) as int * ch,
                ;
            }
            i += channels;
        }
    }
    proof {
        assert(out@ =~= mono_view(data@, ch));
    }
    out
}

/// The emission loop leaves the phase at or just above one output period.
pub proof fn lemma_step_phase_bounds(phase: int, rate: int)
    requires
        rate >= 1,
        phase < 16000,
    ensures
        16000 <= step_phase(phase, rate) < 16000 + rate,
    decreases 16000 - phase,
{
    if phase + rate >= 16000 {
        assert(step_phase(phase + rate, rate) == phase + rate);
        assert(step_phase(phase, rate) == phase + rate);
    } else {
        lemma_step_phase_bounds(phase + rate, rate);
    }
}

/// Per-sample accounting: each emitted sample advances the phase by the
/// input rate.
pub proof fn lemma_emit_accounting(sample: i16, phase: int, rate: int)
    requires
        rate >= 1,
    ensures
        step_phase(phase, rate) == phase + rate * emit_seq(sample, phase, rate).len(),
    decreases phase_gap(phase),
{
    if phase >= 16000 {
        assert(emit_seq(sample, phase, rate).len() == 0);
    } else {
        lemma_emit_accounting(sample, phase + rate, rate);
        let l = emit_seq(sample, phase + rate, rate).len();
        assert(emit_seq(sample, phase, rate).len() == 1 + l);
        assert(rate * (1 + l) == rate + rate * l) by (nonlinear_arith);
    }
}

/// The resting phase stays within its limit across any block.
pub proof fn lemma_resample_phase_bounds(block: Seq<i16>, phase: int, rate: int)
    requires
        rate >= 1,
        0 <= phase < phase_limit(rate),
    ensures
        0 <= resample_phase(block, phase, rate) < phase_limit(rate),
    decreases block.len(),
{
    if block.len() > 0 {
        if phase < 16000 {
            lemma_step_phase_bounds(phase, rate);
        }
        lemma_resample_phase_bounds(block.skip(1), next_phase(phase, rate), rate);
    }
}

/// Block-level accounting: the input rate times the output length equals the
/// analysis rate times the input length, up to the phase carried across the
/// block.
pub proof fn lemma_resample_accounting(block: Seq<i16>, phase: int, rate: int)
    requires
        rate >= 1,
    ensures
        rate * resample_out(block, phase, rate).len() == 16000 * block.len() + resample_phase(
            block,
            phase,
            rate,
        ) - phase,
    decreases block.len(),
{
    if block.len() == 0 {
    } else {
        let head = emit_seq(block[0], phase, rate);
        let p1 = next_phase(phase, rate);
        lemma_emit_accounting(block[0], phase, rate);
        lemma_resample_accounting(block.skip(1), p1, rate);
        let tail = resample_out(block.skip(1), p1, rate);
        assert(resample_out(block, phase, rate).len() == head.len() + tail.len());
        assert(rate * (head.len() + tail.len()) == rate * head.len() + rate * tail.len())
            by (nonlinear_arith);
    }
}

/// Output length for a constant-rate stretch: `rate * t` input samples at
/// `rate` Hz (t seconds of audio) produce within one sample of `16000 * t`
/// output samples. Holds for every rate of at least 8000 Hz, in particular
/// 8000, 16000, 44100 and 48000.
pub proof fn lemma_constant_rate_output_length(block: Seq<i16>, rate: int, t: int)
    requires
        rate >= 8000,
        t >= 0,
        block.len() == rate * t,
    ensures
        16000 * t <= resample_out(block, 0, rate).len() <= 16000 * t + 1,
{
    lemma_resample_accounting(block, 0, rate);
    lemma_resample_phase_bounds(block, 0, rate);
    let e = resample_out(block, 0, rate).len() as int;
    let p = resample_phase(block, 0, rate);
    assert(rate * e == 16000 * (rate * t) + p);
    assert(0 <= p < phase_limit(rate));
    assert(phase_limit(rate) <= 2 * rate);
    assert(16000 * t <= e <= 16000 * t + 1) by (nonlinear_arith)
        requires
            rate >= 8000,
            t >= 0,
            rate * e == 16000 * (rate * t) + p,
            0 <= p < 2 * rate,
    ;
}

/// At the analysis rate itself the converter is the identity: with a resting
/// phase of zero, every input sample is emitted exactly once.
pub proof fn lemma_identity_at_analysis_rate(block: Seq<i16>)
    ensures
        resample_out(block, 0, 16000) == block,
        resample_phase(block, 0, 16000) == 0,
    decreases block.len(),
{
    if block.len() == 0 {
        assert(resample_out(block, 0, 16000) =~= block);
    } else {
        assert(emit_seq(block[0], 16000, 16000) =~= Seq::<i16>::empty());
        assert(emit_seq(block[0], 0, 16000) =~= seq![block[0]]);
        assert(step_phase(16000, 16000) == 16000);
        assert(step_phase(0, 16000) == 16000);
        lemma_identity_at_analysis_rate(block.skip(1));
        assert(resample_out(block, 0, 16000) =~= block);
    }
}

} // verus!
