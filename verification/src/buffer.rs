//! Bounded sample buffer with drop-oldest eviction.
//!
//! The capture stream pushes normalized samples in; the wake-word gate and
//! the utterance segmenter read them out in arrival order. A push never
//! fails and never blocks: when the buffer is full, the oldest sample is
//! evicted first.

use vstd::prelude::*;

use std::collections::VecDeque;

verus! {

/// One push with drop-oldest eviction: when the buffer holds `cap` samples,
/// the oldest is discarded before the new one is appended.
pub open spec fn push_evict(buf: Seq<i16>, cap: nat, s: i16) -> Seq<i16> {
    if buf.len() < cap {
        buf.push(s)
    } else {
        buf.skip(1).push(s)
    }
}

/// A whole block of pushes, oldest first.
pub open spec fn push_evict_all(buf: Seq<i16>, cap: nat, block: Seq<i16>) -> Seq<i16>
    decreases block.len(),
{
    if block.len() == 0 {
        buf
    } else {
        push_evict_all(push_evict(buf, cap, block[0]), cap, block.skip(1))
    }
}

/// Bounded FIFO of analysis-rate samples: the capture side appends, and a
/// single reader at a time drains the front.
pub struct FrameBuffer {
    samples: VecDeque<i16>,
    capacity: usize,
}

impl View for FrameBuffer {
    type V = Seq<i16>;

    closed spec fn view(&self) -> Seq<i16> {
        self.samples@
    }
}

impl FrameBuffer {
    /// Maximum number of samples retained.
    pub closed spec fn cap(&self) -> nat {
        self.capacity as nat
    }

    /// Length never exceeds capacity, and a capacity of zero is ruled out
    /// so that a push always has room for the new sample.
    pub closed spec fn wf(&self) -> bool {
        &&& self@.len() <= self.cap()
        &&& self.cap() >= 1
    }

    pub fn new(capacity: usize) -> (r: FrameBuffer)
        requires
            capacity >= 1,
        ensures
            r.wf(),
            r.cap() == capacity,
            r@ == Seq::<i16>::empty(),
    {
        FrameBuffer { samples: VecDeque::new(), capacity }
    }

    pub fn len(&self) -> (n: usize)
        ensures
            n == self@.len(),
    {
        self.samples.len()
    }

    pub fn capacity(&self) -> (c: usize)
        ensures
            c == self.cap(),
    {
        self.capacity
    }

    /// Append one sample, evicting the oldest first when full. Never fails.
    pub fn push(&mut self, s: i16)
        requires
            old(self).wf(),
        ensures
            final(self).wf(),
            final(self).cap() == old(self).cap(),
            final(self)@ == push_evict(old(self)@, old(self).cap(), s),
    {
        if self.samples.len() >= self.capacity {
            let _ = self.samples.pop_front();
        }
        self.samples.push_back(s);
    }

    /// Append a whole block of samples, oldest first.
    pub fn push_block(&mut self, block: &Vec<i16>)
        requires
            old(self).wf(),
        ensures
            final(self).wf(),
            final(self).cap() == old(self).cap(),
            final(self)@ == push_evict_all(old(self)@, old(self).cap(), block@),
    {
        let ghost cap = self.cap();
        let n = block.len();
        let mut i: usize = 0;
        proof {
            assert(block@.skip(0) =~= block@);
        }
        while i < n
            invariant
                n == block@.len(),
                i <= n,
                self.wf(),
                self.cap() == cap,
                push_evict_all(self@, cap, block@.skip(i as int)) == push_evict_all(
                    old(self)@,
                    cap,
                    block@,
                ),
            decreases n - i,
        {
            let ghost pre = self@;
            self.push(block[i]);
            proof {
                assert(block@.skip(i as int)[0] == block@[i as int]);
                assert(block@.skip(i as int).skip(1) =~= block@.skip(i + 1));
            }
            i += 1;
        }
        proof {
            assert(block@.skip(n as int) =~= Seq::<i16>::empty());
        }
    }

    /// Remove and return the oldest `n` samples, in arrival order. The
    /// blocking "wait until `n` samples are available" loop lives with the
    /// caller; this is the atomic removal it performs once `len() >= n`.
    pub fn take(&mut self, n: usize) -> (out: Vec<i16>)
        requires
            old(self).wf(),
            n <= old(self)@.len(),
        ensures
            final(self).wf(),
            final(self).cap() == old(self).cap(),
            out@ == old(self)@.take(n as int),
            final(self)@ == old(self)@.skip(n as int),
    {
        let mut out: Vec<i16> = Vec::new();
        let mut i: usize = 0;
        while i < n
            invariant
                i <= n,
                n <= old(self)@.len(),
                self.wf(),
                self.cap() == old(self).cap(),
                out@ =~= old(self)@.take(i as int),
                self@ =~= old(self)@.skip(i as int),
            decreases n - i,
        {
            let s = match self.samples.pop_front() {
                Some(s) => s,
                None => {
                    proof {
                        assert(false);
                    }
                    0
                },
            };
            out.push(s);
            proof {
                assert(out@ =~= old(self)@.take(i + 1));
                assert(self@ =~= old(self)@.skip(i + 1));
            }
            i += 1;
        }
        out
    }
}

/// Drop-oldest law: however many samples are pushed, the buffer retains
/// exactly the most recent `cap` of everything it ever saw, in original
/// order.
pub proof fn lemma_drop_oldest_retention(buf: Seq<i16>, cap: nat, block: Seq<i16>)
    requires
        cap >= 1,
        buf.len() <= cap,
    ensures
        push_evict_all(buf, cap, block) == (buf + block).skip(
            if buf.len() + block.len() > cap {
                buf.len() + block.len() - cap
            } else {
                0
            },
        ),
    decreases block.len(),
{
    if block.len() == 0 {
        assert(buf + block =~= buf);
        assert((buf + block).skip(0) =~= buf);
    } else {
        let s0 = block[0];
        let rest = block.skip(1);
        let stepped = push_evict(buf, cap, s0);
        lemma_drop_oldest_retention(stepped, cap, rest);
        if buf.len() < cap {
            assert(stepped + rest =~= buf + block);
        } else {
            // full: one sample is evicted before the append
            let drop_now = if stepped.len() + rest.len() > cap {
                stepped.len() + rest.len() - cap
            } else {
                0int
            };
            let drop_all = if buf.len() + block.len() > cap {
                buf.len() + block.len() - cap
            } else {
                0int
            };
            assert((stepped + rest).skip(drop_now) =~= (buf + block).skip(
                drop_all as int,
            ));
        }
    }
}

/// Reads preserve push order: taking `n` samples from a buffer filled from
/// empty returns a contiguous run of the pushed block, at the offset the
/// eviction policy dictates.
pub proof fn lemma_take_in_arrival_order(cap: nat, pushed: Seq<i16>, n: int)
    requires
        cap >= 1,
        0 <= n <= push_evict_all(Seq::<i16>::empty(), cap, pushed).len(),
    ensures
        ({
            let dropped = if pushed.len() > cap {
                (pushed.len() - cap) as int
            } else {
                0
            };
            push_evict_all(Seq::<i16>::empty(), cap, pushed).take(n) == pushed.subrange(
                dropped,
                dropped + n,
            )
        }),
{
    let empty = Seq::<i16>::empty();
    lemma_drop_oldest_retention(empty, cap, pushed);
    assert(empty + pushed =~= pushed);
    let dropped = if pushed.len() > cap {
        (pushed.len() - cap) as int
    } else {
        0
    };
    assert(push_evict_all(empty, cap, pushed).take(n) =~= pushed.subrange(dropped, dropped + n));
}

} // verus!
