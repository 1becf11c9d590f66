//! The delay model: rolling minimum-delay buckets that form the LEDBAT
//! base-delay ("no queuing") baseline, and a smoothed filter over recent
//! samples that serves as the current-delay signal.
//!
//! Delays are signed microsecond counts; `DELAY_INFINITY` is the sentinel
//! for "no sample observed".

use vstd::prelude::*;
use vstd::arithmetic::div_mod::lemma_div_is_ordered;
use vstd::arithmetic::div_mod::lemma_div_multiples_vanish;
use vstd::arithmetic::div_mod::lemma_div_pos_is_pos;
use crate::params::BASE_BUCKET_MICROS;
use crate::params::BASE_HISTORY;
use crate::params::DELAY_INFINITY;
use crate::params::MAX_DELAY_MICROS;

verus! {

/// One step of the exponentially weighted moving average with weight
/// 2/61 (about 1/30.5) on the new sample, seeded by the first sample.
pub open spec fn ewma_step_spec(prev: i64, sample: i64) -> int {
    if prev == DELAY_INFINITY {
        sample as int
    } else {
        (2 * sample + 59 * prev) / 61
    }
}

/// Minimum of a sequence of delays, `DELAY_INFINITY` when it is empty.
pub open spec fn min_delay_spec(s: Seq<i64>) -> int
    decreases s.len(),
{
    if s.len() == 0 {
        DELAY_INFINITY as int
    } else {
        let rest = min_delay_spec(s.skip(1));
        if s[0] <= rest {
            s[0] as int
        } else {
            rest
        }
    }
}

/// A delay value is either the "unknown" sentinel or a bounded,
/// non-negative number of microseconds.
pub open spec fn delay_value_ok(d: i64) -> bool {
    d == DELAY_INFINITY || (0 <= d && d <= MAX_DELAY_MICROS)
}

/// How one recorded delay changes a history: the relation `add_delay`
/// establishes between its pre- and post-state.
pub open spec fn history_add_ok(pre: DelayHistory, post: DelayHistory, delay: i64, now: u64) -> bool {
    &&& (now - pre.last_rollover >= BASE_BUCKET_MICROS ==> {
        &&& post.base_delays@ == pre.base_delays@.skip(1).push(delay)
        &&& post.last_rollover == now
    })
    &&& (now - pre.last_rollover < BASE_BUCKET_MICROS ==> {
        &&& post.base_delays@ == pre.base_delays@.update(
            pre.base_delays@.len() - 1,
            if delay <= pre.base_delays@.last() {
                delay
            } else {
                pre.base_delays@.last()
            },
        )
        &&& post.last_rollover == pre.last_rollover
    })
    &&& post.current == ewma_step_spec(pre.current, delay)
}

/// Rolling minimum-delay buckets plus a smoothed recent-delay filter.
pub struct DelayHistory {
    /// Minimum delay seen in each time bucket, oldest first; the last
    /// entry is the bucket still being filled.
    pub base_delays: Vec<i64>,
    /// Start of the bucket currently being filled, in microseconds.
    pub last_rollover: u64,
    /// Smoothed delay over recent samples, `DELAY_INFINITY` before the
    /// first sample.
    pub current: i64,
}

impl DelayHistory {
    pub open spec fn wf(self) -> bool {
        &&& self.base_delays@.len() == BASE_HISTORY
        &&& forall|i: int|
            0 <= i < self.base_delays@.len() ==> delay_value_ok(#[trigger] self.base_delays@[i])
        &&& delay_value_ok(self.current)
        &&& self.last_rollover <= 0x4000_0000_0000_0000u64
    }

    /// A fresh history: every bucket empty, no smoothed sample yet.
    pub fn new() -> (r: DelayHistory)
        ensures
            r.wf(),
            r.last_rollover == 0,
            r.current == DELAY_INFINITY,
            forall|i: int| 0 <= i < r.base_delays@.len() ==> #[trigger] r.base_delays@[i] == DELAY_INFINITY,
    {
        let mut buckets: Vec<i64> = Vec::new();
        let mut i: usize = 0;
        while i < BASE_HISTORY
            invariant
                i <= BASE_HISTORY,
                buckets@.len() == i,
                forall|j: int| 0 <= j < i ==> #[trigger] buckets@[j] == DELAY_INFINITY,
            decreases BASE_HISTORY - i,
        {
            buckets.push(DELAY_INFINITY);
            i = i + 1;
        }
        DelayHistory { base_delays: buckets, last_rollover: 0, current: DELAY_INFINITY }
    }

    /// Record one observed delay at time `now`.
    ///
    /// If the current bucket's minute has elapsed the oldest bucket is
    /// dropped and a new one opened with this sample; otherwise the
    /// current bucket keeps the minimum of itself and the sample. The
    /// smoothed filter always advances by one EWMA step.
    pub fn add_delay(&mut self, delay: i64, now: u64)
        requires
            old(self).wf(),
            0 <= delay <= MAX_DELAY_MICROS,
            old(self).last_rollover <= now,
            now <= 0x4000_0000_0000_0000u64,
        ensures
            final(self).wf(),
            now - old(self).last_rollover >= BASE_BUCKET_MICROS ==> {
                &&& final(self).base_delays@ == old(self).base_delays@.skip(1).push(delay)
                &&& final(self).last_rollover == now
            },
            now - old(self).last_rollover < BASE_BUCKET_MICROS ==> {
                &&& final(self).base_delays@ == old(self).base_delays@.update(
                    old(self).base_delays@.len() - 1,
                    if delay <= old(self).base_delays@.last() {
                        delay
                    } else {
                        old(self).base_delays@.last()
                    },
                )
                &&& final(self).last_rollover == old(self).last_rollover
            },
            final(self).current == ewma_step_spec(old(self).current, delay),
            history_add_ok(*old(self), *final(self), delay, now),
    {
        if now - self.last_rollover >= BASE_BUCKET_MICROS {
            self.base_delays.remove(0);
            self.base_delays.push(delay);
            self.last_rollover = now;
            proof {
                assert(self.base_delays@ =~= old(self).base_delays@.skip(1).push(delay));
            }
        } else {
            let last_index = self.base_delays.len() - 1;
            let tail = self.base_delays[last_index];
            if delay <= tail {
                self.base_delays.set(last_index, delay);
            } else {
                proof {
                    assert(self.base_delays@ =~= old(self).base_delays@.update(
                        old(self).base_delays@.len() - 1,
                        old(self).base_delays@.last(),
                    ));
                }
            }
        }
        if self.current == DELAY_INFINITY {
            self.current = delay;
        } else {
            let num: u64 = 2 * (delay as u64) + 59 * (self.current as u64);
            let avg: u64 = num / 61;
            proof {
                lemma_div_is_ordered(num as int, 61 * (MAX_DELAY_MICROS as int), 61);
                lemma_div_multiples_vanish(MAX_DELAY_MICROS as int, 61);
                lemma_div_pos_is_pos(num as int, 61);
            }
            self.current = avg as i64;
        }
    }

    /// The LEDBAT base delay: the minimum over all buckets.
    pub fn base_delay(&self) -> (r: i64)
        requires
            self.wf(),
        ensures
            r == min_delay_spec(self.base_delays@),
            delay_value_ok(r),
    {
        let mut best: i64 = DELAY_INFINITY;
        let n = self.base_delays.len();
        let mut i: usize = n;
        while i > 0
            invariant
                i <= n,
                n == self.base_delays@.len(),
                self.wf(),
                best == min_delay_spec(self.base_delays@.skip(i as int)),
                delay_value_ok(best),
            decreases i,
        {
            i = i - 1;
            let d = self.base_delays[i];
            proof {
                assert(self.base_delays@.skip(i as int)[0] == self.base_delays@[i as int]);
                assert(self.base_delays@.skip(i as int).skip(1) =~= self.base_delays@.skip(
                    i as int + 1,
                ));
            }
            if d <= best {
                best = d;
            }
        }
        proof {
            assert(self.base_delays@.skip(0) =~= self.base_delays@);
        }
        best
    }

    /// The smoothed current delay, `DELAY_INFINITY` before any sample.
    pub fn current_delay(&self) -> (r: i64)
        ensures
            r == self.current,
    {
        self.current
    }

    /// Whether at least one sample has been recorded.
    pub fn has_sample(&self) -> (r: bool)
        ensures
            r == (self.current != DELAY_INFINITY),
    {
        self.current != DELAY_INFINITY
    }
}

} // verus!
