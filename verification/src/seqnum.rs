//! Sequence-number arithmetic: a 16-bit counter with wraparound, a
//! wrap-aware order, and the epoch view that links the wrapped counter to
//! an unbounded ghost transmission counter.

use vstd::prelude::*;
use vstd::arithmetic::div_mod::lemma_fundamental_div_mod;
use vstd::arithmetic::div_mod::lemma_mod_multiples_vanish;
use vstd::arithmetic::div_mod::lemma_small_mod;

verus! {

/// The sequence number that follows `s`, wrapping at 2^16.
pub open spec fn seq_add1_spec(s: u16) -> u16 {
    if s == 0xffff {
        0
    } else {
        (s + 1) as u16
    }
}

/// The sequence number that precedes `s`, wrapping at 2^16.
pub open spec fn seq_sub1_spec(s: u16) -> u16 {
    if s == 0 {
        0xffff
    } else {
        (s - 1) as u16
    }
}

/// Forward distance from `a` to `b` in the wrapped sequence space,
/// i.e. `(b - a) mod 2^16`.
pub open spec fn seq_forward_dist(a: u16, b: u16) -> int {
    if b >= a {
        b - a
    } else {
        b - a + 0x10000
    }
}

/// Wrap-aware "less or equal": `a` is at or before `b` when `b` lies less
/// than half the sequence space ahead of `a`.
pub open spec fn seq_le_spec(a: u16, b: u16) -> bool {
    seq_forward_dist(a, b) < 0x8000
}

/// The wrapped 16-bit value of an unbounded transmission counter.
pub open spec fn seq_of_epoch(u: int) -> u16 {
    (u % 0x10000) as u16
}

pub fn seq_add1(s: u16) -> (r: u16)
    ensures
        r == seq_add1_spec(s),
{
    if s == 0xffff {
        0
    } else {
        s + 1
    }
}

pub fn seq_sub1(s: u16) -> (r: u16)
    ensures
        r == seq_sub1_spec(s),
{
    if s == 0 {
        0xffff
    } else {
        s - 1
    }
}

pub fn seq_le(a: u16, b: u16) -> (r: bool)
    ensures
        r == seq_le_spec(a, b),
{
    if b >= a {
        b - a < 0x8000
    } else {
        a - b > 0x8000
    }
}

/// Stepping the unbounded transmission counter steps its wrapped view by
/// exactly one, across the wrap point included.
pub proof fn lemma_seq_of_epoch_step(u: int)
    requires
        u >= 0,
    ensures
        seq_of_epoch(u + 1) == seq_add1_spec(seq_of_epoch(u)),
{
    let m = 0x10000int;
    let r = u % m;
    lemma_fundamental_div_mod(u, m);
    let q = u / m;
    if r == m - 1 {
        assert(u + 1 == m * (q + 1)) by (nonlinear_arith)
            requires u == m * q + r && r == m - 1;
        lemma_mod_multiples_vanish(q + 1, 0, m);
        lemma_small_mod(0, m as nat);
        assert((u + 1) % m == 0);
    } else {
        assert(u + 1 == m * q + (r + 1)) by (nonlinear_arith)
            requires u == m * q + r;
        lemma_mod_multiples_vanish(q, r + 1, m);
        lemma_small_mod((r + 1) as nat, m as nat);
        assert((u + 1) % m == r + 1);
    }
}

/// For two transmissions less than 2^16 apart on the unbounded counter,
/// the wrapped forward distance between their sequence numbers is their
/// true distance: the wrap-aware order reads the counter faithfully
/// within one epoch.
pub proof fn lemma_dist_of_epochs(u1: int, u2: int)
    requires
        0 <= u1 <= u2,
        u2 - u1 < 0x10000,
    ensures
        seq_forward_dist(seq_of_epoch(u1), seq_of_epoch(u2)) == u2 - u1,
{
    let m = 0x10000int;
    lemma_fundamental_div_mod(u1, m);
    lemma_fundamental_div_mod(u2, m);
    let q1 = u1 / m;
    let q2 = u2 / m;
    let a = u1 % m;
    let b = u2 % m;
    assert(u2 - u1 == m * (q2 - q1) + (b - a)) by (nonlinear_arith)
        requires
            u1 == m * q1 + a,
            u2 == m * q2 + b;
    let k = q2 - q1;
    // 0 <= u2 - u1 < m and -m < b - a < m force k to be 0 or 1.
    assert(k == 0 || k == 1) by (nonlinear_arith)
        requires
            u2 - u1 == m * k + (b - a),
            0 <= u2 - u1 < m,
            0 <= a < m,
            0 <= b < m;
}

/// Two transmissions less than 2^16 apart on the unbounded counter never
/// carry the same wrapped sequence number: within one un-wrapped epoch a
/// sequence number is used at most once.
pub proof fn lemma_no_repeat_within_epoch(u1: int, u2: int)
    requires
        0 <= u1 < u2,
        u2 - u1 < 0x10000,
    ensures
        seq_of_epoch(u1) != seq_of_epoch(u2),
{
    let m = 0x10000int;
    lemma_fundamental_div_mod(u1, m);
    lemma_fundamental_div_mod(u2, m);
    let q1 = u1 / m;
    let q2 = u2 / m;
    if u1 % m == u2 % m {
        assert(u2 - u1 == m * (q2 - q1)) by (nonlinear_arith)
            requires
                u1 == m * q1 + u1 % m,
                u2 == m * q2 + u2 % m,
                u1 % m == u2 % m;
        assert(false) by (nonlinear_arith)
            requires
                0 < m,
                u2 - u1 == m * (q2 - q1),
                0 < u2 - u1 < m;
    }
}

} // verus!
