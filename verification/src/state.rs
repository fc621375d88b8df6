//! Per-label accumulation record: the last resume point and the running total
//! of nanoseconds spent while the timer was running.

use crate::clock::now_sample;
use crate::clock::ProcessSample;
use vstd::prelude::*;

verus! {

/// What one completed interval adds to a running total, at the level of plain
/// nanosecond counts.
///
/// The interval runs from the sample `resume` to the sample `up_to`. The clock
/// is assumed monotonic; if `up_to` nevertheless precedes `resume`, the
/// interval contributes nothing rather than corrupting the total. A sum that
/// would not fit in 64 bits saturates at `u64::MAX`.
pub open spec fn accumulate_ns(total: u64, resume: u64, up_to: u64) -> u64 {
    if up_to >= resume {
        if total + (up_to - resume) > u64::MAX {
            u64::MAX
        } else {
            (total + (up_to - resume)) as u64
        }
    } else {
        total
    }
}

/// Keeps track of one labelled timer: the clock sample at which it last
/// resumed, and the sum of the durations of all completed running intervals.
#[derive(Clone, Copy, Debug, PartialEq, Eq, Structural)]
pub struct TimerState {
    process_time: ProcessSample,
    total_elapsed: u64,
}

impl TimerState {
    /// The sample at which this timer most recently resumed.
    pub closed spec fn resume_ns(&self) -> u64 {
        self.process_time.nanos
    }

    /// The accumulated total, in nanoseconds.
    pub closed spec fn total_ns(&self) -> u64 {
        self.total_elapsed
    }

    /// The total this timer holds after accumulating the interval that ends at
    /// `up_to`.
    pub open spec fn accumulated_ns(&self, up_to: ProcessSample) -> u64 {
        accumulate_ns(self.total_ns(), self.resume_ns(), up_to.nanos)
    }

    /// A fresh timer: resumed at the current clock sample, nothing accumulated
    /// yet.
    pub fn new() -> (s: Self)
        ensures
            s.total_ns() == 0,
    {
        TimerState { process_time: now_sample(), total_elapsed: 0 }
    }

    /// Adds to the total the duration between the current resume point and
    /// `up_to`; an `up_to` that precedes the resume point contributes nothing,
    /// and a total that would not fit saturates.
    pub fn add_time(&mut self, up_to: ProcessSample)
        ensures
            final (self).total_ns() == old(self).accumulated_ns(up_to),
            final (self).resume_ns() == old(self).resume_ns(),
    {
        if up_to.nanos >= self.process_time.nanos {
            let d = up_to.nanos - self.process_time.nanos;
            if self.total_elapsed <= u64::MAX - d {
                self.total_elapsed = self.total_elapsed + d;
            } else {
                self.total_elapsed = u64::MAX;
            }
        }
    }

    /// Moves the resume point to `new_time`; the accumulated total is kept.
    pub fn reset_time(&mut self, new_time: ProcessSample)
        ensures
            final (self).resume_ns() == new_time.nanos,
            final (self).total_ns() == old(self).total_ns(),
    {
        self.process_time = new_time;
    }

    /// The accumulated total, in nanoseconds.
    pub fn get_total_elapsed(&self) -> (r: u64)
        ensures
            r == self.total_ns(),
    {
        self.total_elapsed
    }
}

/// Accumulating never decreases a timer's total, whatever sample the clock
/// hands back.
pub proof fn lemma_accumulate_monotonic(s: TimerState, up_to: ProcessSample)
    ensures
        s.accumulated_ns(up_to) >= s.total_ns(),
{
}

/// A completed interval on a monotonic clock adds exactly its duration: after
/// resuming at `a` and accumulating up to `b`, the total grows by `b - a`,
/// provided the sum fits in 64 bits.
pub proof fn lemma_accumulate_adds_interval(total: u64, a: u64, b: u64)
    requires
        a <= b,
        total + (b - a) <= u64::MAX,
    ensures
        accumulate_ns(total, a, b) == total + (b - a),
{
}

/// The summed duration of a sequence of intervals, each given as the pair of
/// the sample at its start and the sample at its end.
pub open spec fn sum_of_intervals(pairs: Seq<(u64, u64)>) -> int
    decreases pairs.len(),
{
    if pairs.len() == 0 {
        0
    } else {
        sum_of_intervals(pairs.drop_last()) + (pairs.last().1 - pairs.last().0)
    }
}

/// The total a timer holds after running one start/stop cycle per interval in
/// `pairs`, each cycle resuming at the interval's first sample and
/// accumulating up to its second.
pub open spec fn total_after_cycles(total0: u64, pairs: Seq<(u64, u64)>) -> u64
    decreases pairs.len(),
{
    if pairs.len() == 0 {
        total0
    } else {
        accumulate_ns(total_after_cycles(total0, pairs.drop_last()), pairs.last().0, pairs.last().1)
    }
}

proof fn lemma_sum_of_intervals_nonneg(pairs: Seq<(u64, u64)>)
    requires
        forall|i: int| 0 <= i < pairs.len() ==> (#[trigger] pairs[i]).0 <= pairs[i].1,
    ensures
        sum_of_intervals(pairs) >= 0,
    decreases pairs.len(),
{
    if pairs.len() > 0 {
        let rest = pairs.drop_last();
        assert forall|i: int| 0 <= i < rest.len() implies (#[trigger] rest[i]).0 <= rest[i].1 by {
            assert(rest[i] == pairs[i]);
        }
        lemma_sum_of_intervals_nonneg(rest);
        assert(pairs[pairs.len() - 1].0 <= pairs[pairs.len() - 1].1);
    }
}

/// Repeated start/stop cycles accumulate: after any number of cycles the total
/// equals the initial total plus the sum of the individual interval durations,
/// provided each interval ends no earlier than it starts and the sum fits in
/// 64 bits.
pub proof fn lemma_cycles_accumulate(total0: u64, pairs: Seq<(u64, u64)>)
    requires
        forall|i: int| 0 <= i < pairs.len() ==> (#[trigger] pairs[i]).0 <= pairs[i].1,
        total0 + sum_of_intervals(pairs) <= u64::MAX,
    ensures
        total_after_cycles(total0, pairs) == total0 + sum_of_intervals(pairs),
    decreases pairs.len(),
{
    if pairs.len() > 0 {
        let rest = pairs.drop_last();
        let a = pairs.last().0;
        let b = pairs.last().1;
        assert forall|i: int| 0 <= i < rest.len() implies (#[trigger] rest[i]).0 <= rest[i].1 by {
            assert(rest[i] == pairs[i]);
        }
        assert(pairs[pairs.len() - 1].0 <= pairs[pairs.len() - 1].1);
        lemma_sum_of_intervals_nonneg(rest);
        lemma_cycles_accumulate(total0, rest);
        lemma_accumulate_adds_interval(total_after_cycles(total0, rest), a, b);
    }
}

/// The accumulated total is monotonically non-decreasing: whatever samples the
/// cycles saw — even non-monotonic or overflowing ones — running more cycles
/// never shrinks it.
pub proof fn lemma_cycles_monotonic(total0: u64, pairs: Seq<(u64, u64)>)
    ensures
        total_after_cycles(total0, pairs) >= total0,
    decreases pairs.len(),
{
    if pairs.len() > 0 {
        lemma_cycles_monotonic(total0, pairs.drop_last());
    }
}

} // verus!
