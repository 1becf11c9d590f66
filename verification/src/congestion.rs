//! Congestion-controller arithmetic: the delay-based (LEDBAT) window
//! update applied on each acknowledgement, the loss and timeout
//! responses, the receive-retry backoff schedule, and the smoothed
//! round-trip estimator behind the congestion timeout.

use vstd::prelude::*;
use vstd::arithmetic::div_mod::lemma_div_is_ordered;
use vstd::arithmetic::div_mod::lemma_div_multiples_vanish;
use vstd::arithmetic::div_mod::lemma_div_nonincreasing;
use vstd::arithmetic::div_mod::lemma_div_pos_is_pos;
use crate::params::ALLOWED_INCREASE;
use crate::params::GAIN;
use crate::params::MAX_TIMEOUT_MICROS;
use crate::params::MIN_CWND;
use crate::params::MIN_TIMEOUT_MICROS;
use crate::params::MSS;
use crate::params::TARGET;

verus! {

/// The congestion-window floor, in bytes: the window never drops below
/// this through acknowledgement processing or loss response.
pub open spec fn cwnd_floor() -> int {
    MIN_CWND * MSS
}

/// Signed division rounded toward zero, as machine division rounds.
pub open spec fn div_toward_zero(n: int, d: int) -> int
    recommends
        d > 0,
{
    if n >= 0 {
        n / d
    } else {
        -((-n) / d)
    }
}

/// The LEDBAT growth term of one acknowledgement:
/// `GAIN x off_target x bytes_newly_acked x MSS / cwnd`, with
/// `off_target = (TARGET - queuing_delay) / TARGET` folded into a single
/// quotient. Negative when the queuing delay exceeds the target.
pub open spec fn ledbat_gain_spec(cwnd: u64, queuing_delay: int, bytes_newly_acked: u64) -> int {
    div_toward_zero(
        GAIN * (TARGET - queuing_delay) * bytes_newly_acked * MSS,
        TARGET * cwnd,
    )
}

/// The congestion window after one acknowledgement: grow (or shrink) by
/// the LEDBAT term, never beyond the bytes that were in flight plus
/// `ALLOWED_INCREASE` segments, and never below the floor.
pub open spec fn cwnd_after_ack_spec(
    cwnd: u64,
    queuing_delay: int,
    bytes_newly_acked: u64,
    inflight_before: u64,
) -> int {
    let grown = cwnd + ledbat_gain_spec(cwnd, queuing_delay, bytes_newly_acked);
    let max_allowed = inflight_before + ALLOWED_INCREASE * MSS;
    let capped = if grown <= max_allowed {
        grown
    } else {
        max_allowed
    };
    if capped >= cwnd_floor() {
        capped
    } else {
        cwnd_floor()
    }
}

/// The congestion window after a loss event:
/// `min(cwnd, max(cwnd / 2, MIN_CWND x MSS))`.
pub open spec fn cwnd_after_loss_spec(c: u64) -> int {
    let halved = if (c as int) / 2 >= cwnd_floor() {
        (c as int) / 2
    } else {
        cwnd_floor()
    };
    if c <= halved {
        c as int
    } else {
        halved
    }
}

pub open spec fn pow2(k: nat) -> int
    decreases k,
{
    if k == 0 {
        1
    } else {
        2 * pow2((k - 1) as nat)
    }
}

/// Wait duration of the k-th receive attempt within one receive call:
/// the congestion timeout doubled k times.
pub open spec fn backoff_spec(t: u64, k: nat) -> int
    decreases k,
{
    if k == 0 {
        t as int
    } else {
        2 * backoff_spec(t, (k - 1) as nat)
    }
}

/// Consecutive receive timeouts wait exponentially longer: after `k`
/// doublings the wait is the initial timeout times 2^k.
pub proof fn lemma_backoff_is_pow2(t: u64, k: nat)
    ensures
        backoff_spec(t, k) == t * pow2(k),
    decreases k,
{
    if k == 0 {
        assert(pow2(0) == 1);
    } else {
        lemma_backoff_is_pow2(t, (k - 1) as nat);
        assert(2 * (t * pow2((k - 1) as nat)) == t * (2 * pow2((k - 1) as nat)))
            by (nonlinear_arith);
    }
}

/// Absolute difference of two unsigned values.
pub open spec fn abs_diff_spec(a: u64, b: u64) -> int {
    if a >= b {
        a - b
    } else {
        b - a
    }
}

/// Smoothed round-trip mean after one sample: seeded by the first
/// sample, then an exponentially weighted mean with weight 1/8.
pub open spec fn srtt_after_spec(srtt: u64, sample: u64) -> int {
    if srtt == 0 {
        sample as int
    } else {
        (7 * srtt + sample) / 8
    }
}

/// Round-trip variation after one sample: seeded by half the first
/// sample, then an exponentially weighted mean deviation with weight 1/4.
pub open spec fn rttvar_after_spec(srtt: u64, rttvar: u64, sample: u64) -> int {
    if srtt == 0 {
        (sample as int) / 2
    } else {
        (3 * rttvar + abs_diff_spec(srtt, sample)) / 4
    }
}

/// The congestion timeout derived from the estimator: mean plus four
/// deviations, clamped between `MIN_TIMEOUT_MICROS` and
/// `MAX_TIMEOUT_MICROS`.
pub open spec fn rto_spec(srtt: int, rttvar: int) -> int {
    let raw = srtt + 4 * rttvar;
    if raw < MIN_TIMEOUT_MICROS {
        MIN_TIMEOUT_MICROS as int
    } else if raw > MAX_TIMEOUT_MICROS {
        MAX_TIMEOUT_MICROS as int
    } else {
        raw
    }
}

/// One acknowledgement's window update (the exec form of
/// `cwnd_after_ack_spec`).
pub fn cwnd_after_ack(
    cwnd: u64,
    queuing_delay: i64,
    bytes_newly_acked: u64,
    inflight_before: u64,
) -> (r: u64)
    requires
        MSS <= cwnd <= 0x2_0000_0000,
        -0x1_0000_0000 <= queuing_delay <= 0x1_0000_0000,
        bytes_newly_acked <= 0xffff_ffff,
        inflight_before <= 0xffff_ffff,
    ensures
        r == cwnd_after_ack_spec(cwnd, queuing_delay as int, bytes_newly_acked, inflight_before),
        cwnd_floor() <= r <= 0x2_0000_0000,
{
    let off: i128 = (GAIN as i128) * ((TARGET as i128) - (queuing_delay as i128));
    proof {
        assert(-0x2_0002_0000 <= off <= 0x2_0002_0000);
    }
    proof {
        assert(-0x2_0002_0000 * 0x1_0000_0000 <= (off as int) * (bytes_newly_acked as int)
            <= 0x2_0002_0000 * 0x1_0000_0000) by (nonlinear_arith)
            requires
                -0x2_0002_0000 <= off <= 0x2_0002_0000,
                0 <= bytes_newly_acked <= 0xffff_ffff;
    }
    let num_a: i128 = off * (bytes_newly_acked as i128);
    proof {
        assert(-0x2_0002_0000 * 0x1_0000_0000 * 1400 <= (num_a as int) * 1400
            <= 0x2_0002_0000 * 0x1_0000_0000 * 1400) by (nonlinear_arith)
            requires
                -0x2_0002_0000 * 0x1_0000_0000 <= num_a <= 0x2_0002_0000 * 0x1_0000_0000;
    }
    let num: i128 = num_a * (MSS as i128);
    proof {
        assert(0 < 100_000 * (cwnd as int) <= 100_000 * 0x2_0000_0000) by (nonlinear_arith)
            requires
                1400 <= cwnd <= 0x2_0000_0000;
    }
    let den: u128 = (TARGET as u128) * (cwnd as u128);
    let delta: i128 = if num >= 0 {
        let q: u128 = (num as u128) / den;
        proof {
            lemma_div_nonincreasing(num as int, den as int);
            lemma_div_pos_is_pos(num as int, den as int);
        }
        q as i128
    } else {
        let q: u128 = ((-num) as u128) / den;
        proof {
            lemma_div_nonincreasing((-num) as int, den as int);
            lemma_div_pos_is_pos((-num) as int, den as int);
        }
        -(q as i128)
    };
    let grown: i128 = (cwnd as i128) + delta;
    let max_allowed: u64 = inflight_before + ALLOWED_INCREASE * MSS;
    let capped: i128 = if grown <= max_allowed as i128 {
        grown
    } else {
        max_allowed as i128
    };
    let floor: u64 = MIN_CWND * MSS;
    if capped >= floor as i128 {
        capped as u64
    } else {
        floor
    }
}

/// The loss response (the exec form of `cwnd_after_loss_spec`).
pub fn cwnd_after_loss(c: u64) -> (r: u64)
    requires
        MSS <= c <= 0x2_0000_0000,
    ensures
        r == cwnd_after_loss_spec(c),
        MSS <= r <= 0x2_0000_0000,
        c >= cwnd_floor() ==> r >= cwnd_floor(),
{
    let floor: u64 = MIN_CWND * MSS;
    let half = c / 2;
    let halved = if half >= floor {
        half
    } else {
        floor
    };
    if c <= halved {
        c
    } else {
        halved
    }
}

/// One step of the round-trip estimator: the new smoothed mean, the new
/// variation, and the congestion timeout derived from them.
pub fn rto_after(srtt: u64, rttvar: u64, sample: u64) -> (r: (u64, u64, u64))
    requires
        srtt <= 0xffff_ffff,
        rttvar <= 0xffff_ffff,
        sample <= 0xffff_ffff,
    ensures
        r.0 == srtt_after_spec(srtt, sample),
        r.1 == rttvar_after_spec(srtt, rttvar, sample),
        r.2 == rto_spec(r.0 as int, r.1 as int),
        r.0 <= 0xffff_ffff,
        r.1 <= 0xffff_ffff,
        MIN_TIMEOUT_MICROS <= r.2 <= MAX_TIMEOUT_MICROS,
{
    let new_srtt: u64;
    let new_rttvar: u64;
    if srtt == 0 {
        new_srtt = sample;
        new_rttvar = sample / 2;
    } else {
        let diff = if srtt >= sample {
            srtt - sample
        } else {
            sample - srtt
        };
        let var_num = 3 * rttvar + diff;
        proof {
            lemma_div_is_ordered(var_num as int, 4 * 0xffff_ffffint, 4);
            lemma_div_multiples_vanish(0xffff_ffff, 4);
        }
        new_rttvar = var_num / 4;
        let srtt_num = 7 * srtt + sample;
        proof {
            lemma_div_is_ordered(srtt_num as int, 8 * 0xffff_ffffint, 8);
            lemma_div_multiples_vanish(0xffff_ffff, 8);
        }
        new_srtt = srtt_num / 8;
    }
    let raw = new_srtt + 4 * new_rttvar;
    let rto = if raw < MIN_TIMEOUT_MICROS {
        MIN_TIMEOUT_MICROS
    } else if raw > MAX_TIMEOUT_MICROS {
        MAX_TIMEOUT_MICROS
    } else {
        raw
    };
    (new_srtt, new_rttvar, rto)
}

} // verus!
