//! Sliding-window buffer for streaming: keeps the most recent samples of an
//! utterance and the time axis of the utterance.
//!
//! The session pushes continuously, then takes [`AudioRingBuffer::snapshot`]
//! (the whole utterance, for `Final`) or [`AudioRingBuffer::tail`] (the last
//! seconds, for `Partial`). Durations are given in samples; the caller turns
//! seconds into samples at the buffer's rate.
use vstd::prelude::*;
use std::collections::VecDeque;

verus! {

/// What a ring buffer holds: its samples (oldest first), its rate, its
/// capacity and how many samples have left its front since the utterance
/// started.
pub struct RingModel<S> {
    pub samples: Seq<S>,
    pub sample_rate: nat,
    pub max_samples: nat,
    pub dropped: nat,
}

/// The last `max` items of `s` (all of them when there are fewer).
pub open spec fn window<S>(s: Seq<S>, max: nat) -> Seq<S> {
    if s.len() > max {
        s.skip(s.len() - max)
    } else {
        s
    }
}

/// `a + b`, stopping at `u64::MAX`.
pub open spec fn saturating(a: nat, b: nat) -> nat {
    if a + b <= u64::MAX {
        a + b
    } else {
        u64::MAX as nat
    }
}

/// `v`, stopping at `i64::MAX`.
pub open spec fn clamp_i64(v: nat) -> i64 {
    if v <= i64::MAX {
        v as i64
    } else {
        i64::MAX
    }
}

/// Time (ms since the utterance started) of the first sample in the buffer.
pub open spec fn start_ms_of<S>(m: RingModel<S>) -> i64 {
    clamp_i64(m.dropped * 1000 / m.sample_rate)
}

/// Time (ms) right after the last sample in the buffer.
pub open spec fn end_ms_of<S>(m: RingModel<S>) -> i64 {
    clamp_i64(start_ms_of(m) as nat + m.samples.len() * 1000 / m.sample_rate)
}

/// How many buffered samples come before time `start_ms`: the sample index
/// of `start_ms` (negative times count as 0) minus the dropped samples, at
/// least 0.
pub open spec fn skip_for_ms<S>(m: RingModel<S>, start_ms: int) -> int {
    let t = if start_ms >= 0 {
        start_ms
    } else {
        0
    };
    let wanted = m.sample_rate * t / 1000;
    if wanted >= m.dropped {
        wanted - m.dropped
    } else {
        0
    }
}

#[derive(Debug)]
pub struct AudioRingBuffer<S: Copy> {
    samples: VecDeque<S>,
    sample_rate: u32,
    max_samples: usize,
    /// Samples dropped from the front — needed to turn an absolute time
    /// (from the start of the utterance) into a position in the buffer.
    dropped: u64,
}

impl<S: Copy> View for AudioRingBuffer<S> {
    type V = RingModel<S>;

    closed spec fn view(&self) -> RingModel<S> {
        RingModel {
            samples: self.samples@,
            sample_rate: self.sample_rate as nat,
            max_samples: self.max_samples as nat,
            dropped: self.dropped as nat,
        }
    }
}

/// A buffer never holds more than its capacity, its capacity is at least one
/// sample, and the dropped count fits in `u64`.
pub open spec fn ring_wf<S>(m: RingModel<S>) -> bool {
    &&& 1 <= m.max_samples <= usize::MAX
    &&& m.samples.len() <= m.max_samples
    &&& m.dropped <= u64::MAX
    &&& m.sample_rate <= u32::MAX
}

impl<S: Copy> AudioRingBuffer<S> {
    #[verifier::type_invariant]
    spec fn inv(self) -> bool {
        &&& self.max_samples >= 1
        &&& self.samples@.len() <= self.max_samples
    }

    /// An empty buffer for `sample_rate` that keeps at most `max_samples`
    /// samples (at least one).
    pub fn new(sample_rate: u32, max_samples: usize) -> (b: Self)
        ensures
            b@.samples == Seq::<S>::empty(),
            b@.sample_rate == sample_rate,
            b@.max_samples == (if max_samples >= 1 {
                max_samples
            } else {
                1
            }),
            b@.dropped == 0,
    {
        AudioRingBuffer {
            samples: VecDeque::new(),
            sample_rate,
            max_samples: if max_samples >= 1 {
                max_samples
            } else {
                1
            },
            dropped: 0,
        }
    }

    /// The buffer is well formed.
    pub fn sample_rate(&self) -> (r: u32)
        ensures
            r == self@.sample_rate,
            ring_wf(self@),
    {
        proof {
            use_type_invariant(self);
        }
        self.sample_rate
    }

    /// Appends audio; the oldest samples are dropped past the capacity.
    pub fn push(&mut self, chunk: &[S])
        ensures
            final(self)@.samples == window(old(self)@.samples + chunk@, old(self)@.max_samples),
            final(self)@.dropped == saturating(
                old(self)@.dropped,
                (old(self)@.samples.len() + chunk@.len() - final(self)@.samples.len()) as nat,
            ),
            final(self)@.sample_rate == old(self)@.sample_rate,
            final(self)@.max_samples == old(self)@.max_samples,
    {
        proof {
            use_type_invariant(&*self);
        }
        let ghost all = old(self)@.samples + chunk@;
        let mut samples: VecDeque<S> = VecDeque::new();
        std::mem::swap(&mut samples, &mut self.samples);
        let mut dropped = self.dropped;
        let max = self.max_samples;
        let mut k: usize = 0;
        while k < chunk.len()
            invariant
                k <= chunk@.len(),
                all == old(self)@.samples + chunk@,
                max == old(self)@.max_samples,
                max >= 1,
                samples@.len() <= max,
                samples@ == window(all.take(old(self)@.samples.len() + k), max as nat),
                dropped as nat == saturating(
                    old(self)@.dropped,
                    (old(self)@.samples.len() + k - samples@.len()) as nat,
                ),
            decreases chunk.len() - k,
        {
            assert(all.take(old(self)@.samples.len() + k + 1) =~= all.take(
                old(self)@.samples.len() + k,
            ).push(chunk@[k as int]));
            samples.push_back(chunk[k]);
            if samples.len() > max {
                samples.pop_front();
                dropped = dropped.saturating_add(1);
            }
            k += 1;
            assert(samples@ =~= window(all.take(old(self)@.samples.len() + k), max as nat));
        }
        assert(all.take((old(self)@.samples.len() + chunk@.len()) as int) =~= all);
        self.samples = samples;
        self.dropped = dropped;
    }

    /// The whole current window, contiguous, ready for whisper.
    pub fn snapshot(&self) -> (r: Vec<S>)
        ensures
            r@ == self@.samples,
    {
        let mut r: Vec<S> = Vec::new();
        let mut k: usize = 0;
        while k < self.samples.len()
            invariant
                k <= self.samples@.len(),
                r@ == self.samples@.take(k as int),
            decreases self.samples@.len() - k,
        {
            r.push(self.samples[k]);
            k += 1;
            assert(r@ =~= self.samples@.take(k as int));
        }
        assert(self.samples@.take(self.samples@.len() as int) =~= self.samples@);
        r
    }

    /// The most recent `want` samples (all of them when fewer are buffered).
    /// Used for partials: decoding the whole 20–30 s window every second is the
    /// fastest way to push the real-time factor above 1.
    pub fn tail(&self, want: usize) -> (r: Vec<S>)
        ensures
            r@ == window(self@.samples, want as nat),
    {
        let n = self.samples.len();
        let skip = n.saturating_sub(want);
        let r = self.copy_from(skip);
        assert(r@ =~= window(self@.samples, want as nat));
        r
    }

    fn copy_from(&self, skip: usize) -> (r: Vec<S>)
        requires
            skip <= self@.samples.len(),
        ensures
            r@ == self@.samples.skip(skip as int),
    {
        let mut r: Vec<S> = Vec::new();
        let mut k: usize = skip;
        while k < self.samples.len()
            invariant
                skip <= k <= self.samples@.len(),
                r@ == self.samples@.subrange(skip as int, k as int),
            decreases self.samples@.len() - k,
        {
            r.push(self.samples[k]);
            k += 1;
            assert(r@ =~= self.samples@.subrange(skip as int, k as int));
        }
        assert(r@ =~= self.samples@.skip(skip as int));
        r
    }

    /// Keeps only the most recent `keep` samples. Used when an utterance
    /// opens: a little pre-roll keeps the first consonant from being cut. The
    /// dropped samples are counted like the ones that overflow in `push`, so the
    /// time axis stays put.
    pub fn retain_tail(&mut self, keep: usize)
        ensures
            final(self)@.samples == window(old(self)@.samples, keep as nat),
            final(self)@.dropped == saturating(
                old(self)@.dropped,
                (old(self)@.samples.len() - final(self)@.samples.len()) as nat,
            ),
            final(self)@.sample_rate == old(self)@.sample_rate,
            final(self)@.max_samples == old(self)@.max_samples,
    {
        proof {
            use_type_invariant(&*self);
        }
        let mut samples: VecDeque<S> = VecDeque::new();
        std::mem::swap(&mut samples, &mut self.samples);
        let mut dropped = self.dropped;
        while samples.len() > keep
            invariant
                samples@.len() <= old(self)@.samples.len(),
                samples@ == old(self)@.samples.skip(old(self)@.samples.len() - samples@.len()),
                samples@.len() >= keep || samples@ == old(self)@.samples,
                dropped as nat == saturating(
                    old(self)@.dropped,
                    (old(self)@.samples.len() - samples@.len()) as nat,
                ),
            decreases samples@.len(),
        {
            samples.pop_front();
            dropped = dropped.saturating_add(1);
            assert(samples@ =~= old(self)@.samples.skip(old(self)@.samples.len() - samples@.len()));
        }
        assert(samples@ =~= window(old(self)@.samples, keep as nat));
        self.samples = samples;
        self.dropped = dropped;
    }

    /// Time (ms) right after the last buffered sample.
    pub fn end_ms(&self) -> (r: i64)
        requires
            self@.sample_rate > 0,
        ensures
            r == end_ms_of(self@),
    {
        let start = self.start_ms();
        let len_ms: u128 = (self.samples.len() as u128) * 1000 / (self.sample_rate as u128);
        let total: u128 = start as u128 + len_ms;
        if total <= i64::MAX as u128 {
            total as i64
        } else {
            i64::MAX
        }
    }

    /// Empties the buffer and restarts its time axis.
    pub fn clear(&mut self)
        ensures
            final(self)@.samples == Seq::<S>::empty(),
            final(self)@.dropped == 0,
            final(self)@.sample_rate == old(self)@.sample_rate,
            final(self)@.max_samples == old(self)@.max_samples,
    {
        proof {
            use_type_invariant(&*self);
        }
        self.samples = VecDeque::new();
        self.dropped = 0;
    }

    /// The audio from time `start_ms` (since the utterance started) to the end
    /// of the buffer. A time that has already left the buffer gives the whole
    /// buffer; a time past the end gives nothing.
    pub fn slice_from_ms(&self, start_ms: i64) -> (r: Vec<S>)
        requires
            self@.sample_rate > 0,
        ensures
            skip_for_ms(self@, start_ms as int) >= self@.samples.len() ==> r@ == Seq::<S>::empty(),
            skip_for_ms(self@, start_ms as int) < self@.samples.len() ==> r@ == self@.samples.skip(
                skip_for_ms(self@, start_ms as int),
            ),
    {
        let t: i128 = if start_ms >= 0 {
            start_ms as i128
        } else {
            0
        };
        let rate: i128 = self.sample_rate as i128;
        assert(0 <= rate * t <= 0xffff_ffff * 0x7fff_ffff_ffff_ffff) by (nonlinear_arith)
            requires
                0 <= rate <= 0xffff_ffff,
                0 <= t <= 0x7fff_ffff_ffff_ffff,
        ;
        let wanted: i128 = rate * t / 1000;
        let skip: i128 = if wanted >= self.dropped as i128 {
            wanted - self.dropped as i128
        } else {
            0
        };
        if skip >= self.samples.len() as i128 {
            return Vec::new();
        }
        self.copy_from(skip as usize)
    }

    /// Time (ms since the utterance started) of the first buffered sample.
    pub fn start_ms(&self) -> (r: i64)
        requires
            self@.sample_rate > 0,
        ensures
            r == start_ms_of(self@),
    {
        let v: u128 = (self.dropped as u128) * 1000 / (self.sample_rate as u128);
        if v <= i64::MAX as u128 {
            v as i64
        } else {
            i64::MAX
        }
    }

    pub fn len(&self) -> (r: usize)
        ensures
            r == self@.samples.len(),
    {
        self.samples.len()
    }

    pub fn is_empty(&self) -> (r: bool)
        ensures
            r == (self@.samples.len() == 0),
    {
        self.samples.len() == 0
    }

    /// Whether the buffer holds as many samples as it can.
    pub fn is_full(&self) -> (r: bool)
        ensures
            r == (self@.samples.len() >= self@.max_samples),
    {
        self.samples.len() >= self.max_samples
    }
}

/// Law: the time axis is kept — cutting the front of the buffer (by `push`
/// past the capacity or by `retain_tail`) moves samples from the buffer to
/// the dropped count, so dropped + buffered is what was pushed since the last
/// `clear` (as long as the count stays below `u64::MAX`).
pub proof fn lemma_time_axis_kept<S>(before: RingModel<S>, after: RingModel<S>, pushed: nat)
    requires
        after.samples.len() <= before.samples.len() + pushed,
        after.dropped == saturating(
            before.dropped,
            (before.samples.len() + pushed - after.samples.len()) as nat,
        ),
        before.dropped + before.samples.len() + pushed <= u64::MAX,
    ensures
        after.dropped + after.samples.len() == before.dropped + before.samples.len() + pushed,
{
}

/// Law: a buffer never holds more than its capacity, and what it holds after
/// a push is the newest part of what it held followed by the chunk.
pub proof fn lemma_push_keeps_newest<S>(old_samples: Seq<S>, chunk: Seq<S>, max: nat)
    requires
        max >= 1,
    ensures
        window(old_samples + chunk, max).len() <= max,
        window(old_samples + chunk, max).len() == (if old_samples.len() + chunk.len() > max {
            max
        } else {
            old_samples.len() + chunk.len()
        }),
        forall|i: int|
            0 <= i < window(old_samples + chunk, max).len() ==> #[trigger] window(
                old_samples + chunk,
                max,
            )[i] == (old_samples + chunk)[(old_samples.len() + chunk.len()) - window(
                old_samples + chunk,
                max,
            ).len() + i],
{
}

} // verus!
