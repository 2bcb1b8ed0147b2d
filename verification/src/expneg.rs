//! Fixed-point exponential decay `e^(-x)` in micro-units.
//!
//! The argument is split into whole and fractional parts; the fractional
//! part goes through an eight-term alternating series with truncating
//! division, the whole part through repeated multiplication by the
//! micro-unit constant for `e^(-1)`.  Beyond `x = 14` the true value is
//! below one micro-unit, so the function returns exactly 0 there.

use vstd::prelude::*;

use crate::SCALE;
use crate::fixed::{div_i64, div_tr};

verus! {

/// `e^(-1)` in micro-units, rounded down.
pub const EXP_NEG1: i64 = 367_879;

/// Cut-off: decay is exactly 0 from here on.
pub const EXP_CUTOFF: i64 = 14_000_000;

/// Series term `k` for the fractional part `f`: `f^k / k!`, each step a
/// truncating division.
pub open spec fn taylor_term(f: int, k: nat) -> int
    decreases k,
{
    if k == 0 {
        SCALE as int
    } else {
        div_tr(taylor_term(f, (k - 1) as nat) * f, SCALE * k)
    }
}

/// Alternating series sum through term `n`.
pub open spec fn taylor_sum(f: int, n: nat) -> int
    decreases n,
{
    if n == 0 {
        SCALE as int
    } else {
        taylor_sum(f, (n - 1) as nat) + (if n % 2 == 1 {
            -taylor_term(f, n)
        } else {
            taylor_term(f, n)
        })
    }
}

/// `e^(-1)` to the power `e`, in micro-units with truncating steps.
pub open spec fn pow_neg1(e: nat) -> int
    decreases e,
{
    if e == 0 {
        SCALE as int
    } else {
        div_tr(pow_neg1((e - 1) as nat) * EXP_NEG1, SCALE as int)
    }
}

/// The decay value for a non-negative micro-unit argument.
pub open spec fn spec_exp_neg(x: int) -> int {
    if x >= EXP_CUTOFF {
        0
    } else {
        div_tr(taylor_sum(x % (SCALE as int), 8) * pow_neg1((x / (SCALE as int)) as nat), SCALE as int)
    }
}

proof fn lemma_taylor_term_zero(k: nat)
    ensures
        k >= 1 ==> taylor_term(0, k) == 0,
    decreases k,
{
    if k >= 2 {
        lemma_taylor_term_zero((k - 1) as nat);
    }
}

proof fn lemma_taylor_sum_zero(n: nat)
    ensures
        taylor_sum(0, n) == SCALE,
    decreases n,
{
    if n >= 1 {
        lemma_taylor_sum_zero((n - 1) as nat);
        lemma_taylor_term_zero(n);
    }
}

/// Scaling a non-negative value by a factor of at most one (as a
/// truncating fixed-point step) keeps it between zero and itself.
pub proof fn lemma_scaled_step_bounds_pub(t: int, m: int, d: int)
    requires
        0 <= t,
        0 <= m <= d,
        1 <= d,
    ensures
        0 <= div_tr(t * m, d) <= t,
{
    broadcast use vstd::arithmetic::div_mod::lemma_div_pos_is_pos;

    assert(0 <= t * m <= t * d) by (nonlinear_arith)
        requires
            0 <= t && 0 <= m <= d,
    ;
    if t * m == 0 {
    } else {
        vstd::arithmetic::div_mod::lemma_div_is_ordered(t * m, t * d, d);
        vstd::arithmetic::div_mod::lemma_div_by_multiple(t, d);
        assert(t * d == d * t) by (nonlinear_arith);
    }
}

/// Fixed-point `e^(-x)` for non-negative `x` in micro-units.  The result
/// is 1 (in micro-units) exactly at `x = 0`, stays within `[0, 1]`, and is
/// exactly 0 from the cut-off on: with no events the tracked intensity
/// decays all the way back to its baseline.
pub fn exp_neg(x: i64) -> (r: i64)
    requires
        0 <= x,
    ensures
        r == spec_exp_neg(x as int),
        0 <= r <= SCALE,
        x == 0 ==> r == SCALE,
        x >= EXP_CUTOFF ==> r == 0,
{
    if x >= EXP_CUTOFF {
        return 0;
    }
    let f: i64 = x % SCALE;
    let e: i64 = x / SCALE;
    let mut t: i64 = SCALE;
    let mut s: i64 = SCALE;
    let mut k: i64 = 1;
    while k <= 8
        invariant
            0 <= f < SCALE,
            1 <= k <= 9,
            t == taylor_term(f as int, (k - 1) as nat),
            s == taylor_sum(f as int, (k - 1) as nat),
            0 <= t <= SCALE,
            0 <= s <= SCALE,
            k % 2 == 1 ==> s >= t,
            k % 2 == 0 ==> s + t <= SCALE,
        decreases 9 - k,
    {
        proof {
            assert(0 <= t * f <= 1_000_000_000_000) by (nonlinear_arith)
                requires
                    0 <= t <= SCALE && 0 <= f < SCALE && SCALE == 1_000_000,
            ;
            lemma_scaled_step_bounds_pub(t as int, f as int, SCALE * (k as int));
            assert(f <= SCALE * (k as int)) by (nonlinear_arith)
                requires
                    0 <= f < SCALE && k >= 1 && SCALE == 1_000_000,
            ;
        }
        let tn: i64 = div_i64(t * f, SCALE * k);
        if k % 2 == 1 {
            s = s - tn;
        } else {
            s = s + tn;
        }
        t = tn;
        k += 1;
    }
    let mut p: i64 = SCALE;
    let mut j: i64 = 0;
    while j < e
        invariant
            0 <= j <= e <= 13,
            p == pow_neg1(j as nat),
            0 <= p <= SCALE,
        decreases e - j,
    {
        proof {
            lemma_scaled_step_bounds_pub(p as int, EXP_NEG1 as int, SCALE as int);
        }
        p = div_i64(p * EXP_NEG1, SCALE);
        j += 1;
    }
    proof {
        lemma_scaled_step_bounds_pub(s as int, p as int, SCALE as int);
        if x == 0 {
            lemma_taylor_sum_zero(8);
            vstd::arithmetic::div_mod::lemma_div_by_multiple(1, SCALE as int);
            assert(div_tr(SCALE * SCALE, SCALE as int) == SCALE) by {
                vstd::arithmetic::div_mod::lemma_div_by_multiple(SCALE as int, SCALE as int);
                assert(SCALE * SCALE == (SCALE as int) * SCALE) by (nonlinear_arith);
            };
        }
    }
    let r: i64 = div_i64(s * p, SCALE);
    r
}

proof fn lemma_taylor_bounds(f: int, n: nat)
    requires
        0 <= f < SCALE,
    ensures
        0 <= taylor_term(f, n) <= SCALE,
        0 <= taylor_sum(f, n) <= SCALE,
        n % 2 == 0 ==> taylor_sum(f, n) >= taylor_term(f, n),
        n % 2 == 1 ==> taylor_sum(f, n) + taylor_term(f, n) <= SCALE,
    decreases n,
{
    if n == 0 {
    } else {
        lemma_taylor_bounds(f, (n - 1) as nat);
        assert(f <= SCALE * n) by (nonlinear_arith)
            requires
                0 <= f < SCALE && n >= 1 && SCALE == 1_000_000,
        ;
        lemma_scaled_step_bounds_pub(taylor_term(f, (n - 1) as nat), f, SCALE * n);
    }
}

proof fn lemma_pow_bounds(e: nat)
    ensures
        0 <= pow_neg1(e) <= SCALE,
    decreases e,
{
    if e > 0 {
        lemma_pow_bounds((e - 1) as nat);
        lemma_scaled_step_bounds_pub(pow_neg1((e - 1) as nat), EXP_NEG1 as int, SCALE as int);
    }
}

/// The decay factor always lies in `[0, 1]` (micro-units).
pub proof fn lemma_exp_neg_range(x: int)
    requires
        0 <= x,
    ensures
        0 <= spec_exp_neg(x) <= SCALE,
{
    if x >= EXP_CUTOFF {
    } else {
        vstd::arithmetic::div_mod::lemma_mod_bound(x, SCALE as int);
        lemma_taylor_bounds(x % (SCALE as int), 8);
        vstd::arithmetic::div_mod::lemma_div_pos_is_pos(x, SCALE as int);
        lemma_pow_bounds((x / (SCALE as int)) as nat);
        lemma_scaled_step_bounds_pub(
            taylor_sum(x % (SCALE as int), 8),
            pow_neg1((x / (SCALE as int)) as nat),
            SCALE as int,
        );
    }
}

} // verus!
