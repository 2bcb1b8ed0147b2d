//! Stateless signal primitives: exponentially weighted moving averages,
//! per-side order-flow-imbalance contributions, and an exact integer
//! square root, all in micro-unit fixed point.

use vstd::prelude::*;

use crate::SCALE;
use crate::fixed::div_tr;

verus! {

/// Magnitude cap for signal values: keeps every product with `SCALE`
/// inside the 64-bit range.
pub const VAL_CAP: i64 = 0x100_0000_0000;

/// Truncating division shrinks: a numerator within `b * c` divides to a
/// quotient within `c`.
pub proof fn lemma_div_tr_bound(a: int, b: int, c: int)
    requires
        b >= 1,
        c >= 0,
        -(b * c) <= a <= b * c,
    ensures
        -c <= div_tr(a, b) <= c,
{
    broadcast use vstd::arithmetic::div_mod::lemma_div_pos_is_pos;

    vstd::arithmetic::div_mod::lemma_div_by_multiple(c, b);
    assert(b * c == c * b) by (nonlinear_arith);
    if a == 0 {
    } else if a > 0 {
        vstd::arithmetic::div_mod::lemma_div_is_ordered(a, b * c, b);
    } else {
        vstd::arithmetic::div_mod::lemma_div_is_ordered(-a, b * c, b);
    }
}

/// Smoothing constant for a window of `n` observations, in micro-units:
/// `2 / (n + 1)`.
pub open spec fn spec_ewma_alpha(n: int) -> int {
    2 * SCALE / (n + 1)
}

pub fn ewma_alpha(window: usize) -> (r: i64)
    requires
        1 <= window <= 0xffff_ffff,
    ensures
        r == spec_ewma_alpha(window as int),
        0 <= r <= SCALE,
{
    let w: u64 = window as u64;
    let a: u64 = (2 * SCALE as u64) / (w + 1);
    proof {
        vstd::arithmetic::div_mod::lemma_div_is_ordered(
            2 * SCALE,
            SCALE * (w + 1) as int,
            (w + 1) as int,
        );
        vstd::arithmetic::div_mod::lemma_div_by_multiple(SCALE as int, (w + 1) as int);
        assert(SCALE * (w + 1) as int == (w + 1) as int * SCALE) by (nonlinear_arith);
        assert(2 * SCALE <= SCALE * (w + 1) as int) by (nonlinear_arith)
            requires
                w >= 1,
        ;
    }
    a as i64
}

/// One smoothing step in micro-units with truncating division:
/// `alpha * x + (1 - alpha) * prev`.
pub open spec fn spec_ewma_step(prev: int, x: int, alpha: int) -> int {
    div_tr(alpha * x + (SCALE - alpha) * prev, SCALE as int)
}

pub fn ewma_step(prev: i64, x: i64, alpha: i64) -> (r: i64)
    requires
        0 <= alpha <= SCALE,
        -VAL_CAP <= prev <= VAL_CAP,
        -VAL_CAP <= x <= VAL_CAP,
    ensures
        r == spec_ewma_step(prev as int, x as int, alpha as int),
        -VAL_CAP <= r <= VAL_CAP,
{
    proof {
        assert(-(SCALE * VAL_CAP) <= alpha * x + (SCALE - alpha) * prev <= SCALE
            * VAL_CAP) by (nonlinear_arith)
            requires
                0 <= alpha <= SCALE && -VAL_CAP <= prev <= VAL_CAP && -VAL_CAP <= x <= VAL_CAP,
        ;
        lemma_div_tr_bound(alpha * x + (SCALE - alpha) * prev, SCALE as int, VAL_CAP as int);
        assert(-(SCALE * VAL_CAP) <= alpha * x <= SCALE * VAL_CAP) by (nonlinear_arith)
            requires
                0 <= alpha <= SCALE && -VAL_CAP <= x <= VAL_CAP,
        ;
        assert(-(SCALE * VAL_CAP) <= (SCALE - alpha) * prev <= SCALE * VAL_CAP) by (nonlinear_arith)
            requires
                0 <= alpha <= SCALE && -VAL_CAP <= prev <= VAL_CAP,
        ;
    }
    let num: i128 = (alpha as i128) * (x as i128) + ((SCALE - alpha) as i128) * (prev as i128);
    let r = crate::fixed::div_i128(num, SCALE as i128);
    r as i64
}

/// Bid-side order-flow contribution between two snapshots of the best bid:
/// a higher price contributes the new quantity, an unchanged price the
/// quantity change, a lower price minus the old quantity.
pub open spec fn spec_bid_flow(p: int, q: int, prev_p: int, prev_q: int) -> int {
    if p > prev_p {
        q
    } else if p < prev_p {
        -prev_q
    } else {
        q - prev_q
    }
}

/// Ask-side order-flow contribution; the improving direction is a price
/// decrease.  This one convention is used uniformly across the crate.
pub open spec fn spec_ask_flow(p: int, q: int, prev_p: int, prev_q: int) -> int {
    if p < prev_p {
        q
    } else if p > prev_p {
        -prev_q
    } else {
        q - prev_q
    }
}

pub fn bid_flow(p: i64, q: i64, prev_p: i64, prev_q: i64) -> (r: i64)
    requires
        -VAL_CAP <= q <= VAL_CAP,
        -VAL_CAP <= prev_q <= VAL_CAP,
    ensures
        r == spec_bid_flow(p as int, q as int, prev_p as int, prev_q as int),
        -2 * VAL_CAP <= r <= 2 * VAL_CAP,
{
    if p > prev_p {
        q
    } else if p < prev_p {
        -prev_q
    } else {
        q - prev_q
    }
}

pub fn ask_flow(p: i64, q: i64, prev_p: i64, prev_q: i64) -> (r: i64)
    requires
        -VAL_CAP <= q <= VAL_CAP,
        -VAL_CAP <= prev_q <= VAL_CAP,
    ensures
        r == spec_ask_flow(p as int, q as int, prev_p as int, prev_q as int),
        -2 * VAL_CAP <= r <= 2 * VAL_CAP,
{
    if p < prev_p {
        q
    } else if p > prev_p {
        -prev_q
    } else {
        q - prev_q
    }
}

/// Exact integer square root: the largest `r` with `r * r <= x`.
pub fn isqrt_u128(x: u128) -> (r: u64)
    ensures
        (r as int) * (r as int) <= x,
        (r as int + 1) * (r as int + 1) > x,
{
    let mut lo: u64 = 0;
    let mut hi: u64 = u64::MAX;
    proof {
        assert((hi as int + 1) * (hi as int + 1) > u128::MAX) by (nonlinear_arith)
            requires
                hi == u64::MAX,
        ;
    }
    while lo < hi
        invariant
            lo <= hi,
            (lo as int) * (lo as int) <= x,
            (hi as int + 1) * (hi as int + 1) > x,
        decreases hi - lo,
    {
        let mid: u64 = hi - (hi - lo) / 2;
        assert(lo < mid <= hi);
        proof {
            assert((mid as int) * (mid as int) <= u128::MAX) by (nonlinear_arith)
                requires
                    0 <= mid <= u64::MAX,
            ;
        }
        let sq: u128 = (mid as u128) * (mid as u128);
        if sq <= x {
            lo = mid;
        } else {
            hi = mid - 1;
        }
    }
    lo
}

/// Sum of the element products over the last `k` positions of two
/// equally long columns.
pub open spec fn sum_prod_last(v: Seq<i64>, s: Seq<i64>, k: nat) -> int
    decreases k,
{
    if k == 0 || v.len() == 0 || s.len() == 0 {
        0
    } else {
        v.last() * s.last() + sum_prod_last(v.drop_last(), s.drop_last(), (k - 1) as nat)
    }
}

/// Sum of the last `k` elements of one column.
pub open spec fn sum_last(v: Seq<i64>, k: nat) -> int
    decreases k,
{
    if k == 0 || v.len() == 0 {
        0
    } else {
        v.last() + sum_last(v.drop_last(), (k - 1) as nat)
    }
}

/// Widening the product window by one takes in the element `k` from the
/// end.
pub proof fn lemma_sum_prod_last_unfold(v: Seq<i64>, s: Seq<i64>, k: nat)
    requires
        v.len() == s.len(),
        k < v.len(),
    ensures
        sum_prod_last(v, s, k + 1) == v[v.len() - 1 - k] * s[v.len() - 1 - k] + sum_prod_last(
            v,
            s,
            k,
        ),
    decreases k,
{
    if k == 0 {
        assert(sum_prod_last(v.drop_last(), s.drop_last(), 0) == 0);
        assert(sum_prod_last(v, s, 1) == v.last() * s.last() + sum_prod_last(
            v.drop_last(),
            s.drop_last(),
            0,
        ));
    } else {
        lemma_sum_prod_last_unfold(v.drop_last(), s.drop_last(), (k - 1) as nat);
        assert(sum_prod_last(v, s, k + 1) == v.last() * s.last() + sum_prod_last(
            v.drop_last(),
            s.drop_last(),
            k,
        ));
        assert(sum_prod_last(v, s, k) == v.last() * s.last() + sum_prod_last(
            v.drop_last(),
            s.drop_last(),
            (k - 1) as nat,
        ));
    }
}

/// Widening the sum window by one takes in the element `k` from the end.
pub proof fn lemma_sum_last_unfold(v: Seq<i64>, k: nat)
    requires
        k < v.len(),
    ensures
        sum_last(v, k + 1) == v[v.len() - 1 - k] + sum_last(v, k),
    decreases k,
{
    if k == 0 {
        assert(sum_last(v.drop_last(), 0) == 0);
        assert(sum_last(v, 1) == v.last() + sum_last(v.drop_last(), 0));
    } else {
        lemma_sum_last_unfold(v.drop_last(), (k - 1) as nat);
        assert(sum_last(v, k + 1) == v.last() + sum_last(v.drop_last(), k));
        assert(sum_last(v, k) == v.last() + sum_last(v.drop_last(), (k - 1) as nat));
    }
}

/// A window that does not reach the front ignores a dropped front element.
pub proof fn lemma_sum_prod_last_skip1(v: Seq<i64>, s: Seq<i64>, k: nat)
    requires
        v.len() == s.len(),
        v.len() >= 1,
        k <= v.len() - 1,
    ensures
        sum_prod_last(v.skip(1), s.skip(1), k) == sum_prod_last(v, s, k),
    decreases k,
{
    if k == 0 {
    } else {
        assert(v.skip(1).drop_last() =~= v.drop_last().skip(1));
        assert(s.skip(1).drop_last() =~= s.drop_last().skip(1));
        assert(v.skip(1).last() == v.last());
        assert(s.skip(1).last() == s.last());
        lemma_sum_prod_last_skip1(v.drop_last(), s.drop_last(), (k - 1) as nat);
    }
}

/// A window that does not reach the front ignores a dropped front element.
pub proof fn lemma_sum_last_skip1(v: Seq<i64>, k: nat)
    requires
        v.len() >= 1,
        k <= v.len() - 1,
    ensures
        sum_last(v.skip(1), k) == sum_last(v, k),
    decreases k,
{
    if k == 0 {
    } else {
        assert(v.skip(1).drop_last() =~= v.drop_last().skip(1));
        assert(v.skip(1).last() == v.last());
        lemma_sum_last_skip1(v.drop_last(), (k - 1) as nat);
    }
}

/// Bound on a product-window sum from element bounds.
pub proof fn lemma_sum_prod_last_bound(v: Seq<i64>, s: Seq<i64>, k: nat, c: int)
    requires
        v.len() == s.len(),
        c >= 0,
        forall|i: int| 0 <= i < v.len() ==> 0 <= #[trigger] v[i] <= c,
        forall|i: int| 0 <= i < s.len() ==> -1 <= #[trigger] s[i] <= 1,
    ensures
        -(k * c) <= sum_prod_last(v, s, k) <= k * c,
    decreases k,
{
    if k == 0 || v.len() == 0 {
        assert(k * c >= 0) by (nonlinear_arith)
            requires
                k >= 0 && c >= 0,
        ;
    } else {
        lemma_sum_prod_last_bound(v.drop_last(), s.drop_last(), (k - 1) as nat, c);
        assert(-c <= v.last() * s.last() <= c) by (nonlinear_arith)
            requires
                0 <= v.last() <= c && -1 <= s.last() <= 1,
        ;
        assert((k - 1) * c + c == k * c) by (nonlinear_arith);
    }
}

/// Bound on a plain window sum from element bounds.
pub proof fn lemma_sum_last_bound(v: Seq<i64>, k: nat, c: int)
    requires
        c >= 0,
        forall|i: int| 0 <= i < v.len() ==> 0 <= #[trigger] v[i] <= c,
    ensures
        0 <= sum_last(v, k) <= k * c,
    decreases k,
{
    if k == 0 || v.len() == 0 {
        assert(k * c >= 0) by (nonlinear_arith)
            requires
                k >= 0 && c >= 0,
        ;
    } else {
        lemma_sum_last_bound(v.drop_last(), (k - 1) as nat, c);
        assert((k - 1) * c + c == k * c) by (nonlinear_arith);
    }
}

/// Sum of the squared last `k` elements of one column.
pub open spec fn sum_sq_last(v: Seq<i64>, k: nat) -> int
    decreases k,
{
    if k == 0 || v.len() == 0 {
        0
    } else {
        v.last() * v.last() + sum_sq_last(v.drop_last(), (k - 1) as nat)
    }
}

/// Widening the squared sum window by one takes in the element `k` from
/// the end.
pub proof fn lemma_sum_sq_last_unfold(v: Seq<i64>, k: nat)
    requires
        k < v.len(),
    ensures
        sum_sq_last(v, k + 1) == v[v.len() - 1 - k] * v[v.len() - 1 - k] + sum_sq_last(v, k),
    decreases k,
{
    if k == 0 {
        assert(sum_sq_last(v.drop_last(), 0) == 0);
        assert(sum_sq_last(v, 1) == v.last() * v.last() + sum_sq_last(v.drop_last(), 0));
    } else {
        lemma_sum_sq_last_unfold(v.drop_last(), (k - 1) as nat);
        assert(sum_sq_last(v, k + 1) == v.last() * v.last() + sum_sq_last(v.drop_last(), k));
        assert(sum_sq_last(v, k) == v.last() * v.last() + sum_sq_last(
            v.drop_last(),
            (k - 1) as nat,
        ));
    }
}

/// Bound on a squared-sum window from an element bound.
pub proof fn lemma_sum_sq_last_bound(v: Seq<i64>, k: nat, c: int)
    requires
        c >= 0,
        forall|i: int| 0 <= i < v.len() ==> -c <= #[trigger] v[i] <= c,
    ensures
        0 <= sum_sq_last(v, k) <= k * (c * c),
    decreases k,
{
    if k == 0 || v.len() == 0 {
        assert(k * (c * c) >= 0) by (nonlinear_arith)
            requires
                k >= 0 && c >= 0,
        ;
    } else {
        lemma_sum_sq_last_bound(v.drop_last(), (k - 1) as nat, c);
        assert(0 <= v.last() * v.last() <= c * c) by (nonlinear_arith)
            requires
                -c <= v.last() <= c,
        ;
        assert((k - 1) * (c * c) + c * c == k * (c * c)) by (nonlinear_arith);
    }
}

/// Signed-sum bound over a window from an element bound.
pub proof fn lemma_sum_last_abs_bound(v: Seq<i64>, k: nat, c: int)
    requires
        c >= 0,
        forall|i: int| 0 <= i < v.len() ==> -c <= #[trigger] v[i] <= c,
    ensures
        -(k * c) <= sum_last(v, k) <= k * c,
    decreases k,
{
    if k == 0 || v.len() == 0 {
        assert(k * c >= 0) by (nonlinear_arith)
            requires
                k >= 0 && c >= 0,
        ;
    } else {
        lemma_sum_last_abs_bound(v.drop_last(), (k - 1) as nat, c);
        assert((k - 1) * c + c == k * c) by (nonlinear_arith);
    }
}

/// Sum of all elements of a column.
pub open spec fn seq_sum(s: Seq<i64>) -> int
    decreases s.len(),
{
    if s.len() == 0 {
        0
    } else {
        seq_sum(s.drop_last()) + s.last()
    }
}

/// Replacing one element moves the sum by the difference.
pub proof fn lemma_seq_sum_update(s: Seq<i64>, i: int, v: i64)
    requires
        0 <= i < s.len(),
    ensures
        seq_sum(s.update(i, v)) == seq_sum(s) - s[i] + v,
    decreases s.len(),
{
    let su = s.update(i, v);
    if i == s.len() - 1 {
        assert(su.drop_last() =~= s.drop_last());
        assert(su.last() == v);
    } else {
        lemma_seq_sum_update(s.drop_last(), i, v);
        assert(su.drop_last() =~= s.drop_last().update(i, v));
        assert(su.last() == s.last());
    }
}

/// A prefix sum grows by the next element.
pub proof fn lemma_seq_sum_take_unfold(s: Seq<i64>, k: int)
    requires
        0 <= k < s.len(),
    ensures
        seq_sum(s.take(k + 1)) == seq_sum(s.take(k)) + s[k],
{
    assert(s.take(k + 1).drop_last() =~= s.take(k));
    assert(s.take(k + 1).last() == s[k]);
}

/// Prefix sums ignore later replacements.
pub proof fn lemma_seq_sum_take_update(s: Seq<i64>, k: int, i: int, v: i64)
    requires
        0 <= k <= i < s.len(),
    ensures
        seq_sum(s.update(i, v).take(k)) == seq_sum(s.take(k)),
{
    assert(s.update(i, v).take(k) =~= s.take(k));
}

/// Whole-column sum bound from element bounds.
pub proof fn lemma_seq_sum_bound(s: Seq<i64>, c: int)
    requires
        c >= 0,
        forall|i: int| 0 <= i < s.len() ==> 0 <= #[trigger] s[i] <= c,
    ensures
        0 <= seq_sum(s) <= s.len() * c,
    decreases s.len(),
{
    if s.len() == 0 {
    } else {
        lemma_seq_sum_bound(s.drop_last(), c);
        assert((s.len() - 1) * c + c == s.len() * c) by (nonlinear_arith);
    }
}

/// Magnitude cap for the wide smoothing step.
pub const WIDE_CAP: i64 = 0x4000_0000_0000_0000;

/// One smoothing step for wide values: same recurrence as `ewma_step`,
/// admitted up to a quarter of the 64-bit range.
pub fn ewma_step_wide(prev: i64, x: i64, alpha: i64) -> (r: i64)
    requires
        0 <= alpha <= SCALE,
        -WIDE_CAP <= prev <= WIDE_CAP,
        -WIDE_CAP <= x <= WIDE_CAP,
    ensures
        r == spec_ewma_step(prev as int, x as int, alpha as int),
        -WIDE_CAP <= r <= WIDE_CAP,
{
    proof {
        assert(-(SCALE * WIDE_CAP) <= alpha * x + (SCALE - alpha) * prev <= SCALE
            * WIDE_CAP) by (nonlinear_arith)
            requires
                0 <= alpha <= SCALE && -WIDE_CAP <= prev <= WIDE_CAP && -WIDE_CAP <= x <= WIDE_CAP,
        ;
        lemma_div_tr_bound(alpha * x + (SCALE - alpha) * prev, SCALE as int, WIDE_CAP as int);
        assert(-(SCALE * WIDE_CAP) <= alpha * x <= SCALE * WIDE_CAP) by (nonlinear_arith)
            requires
                0 <= alpha <= SCALE && -WIDE_CAP <= x <= WIDE_CAP,
        ;
        assert(-(SCALE * WIDE_CAP) <= (SCALE - alpha) * prev <= SCALE * WIDE_CAP) by (
        nonlinear_arith)
            requires
                0 <= alpha <= SCALE && -WIDE_CAP <= prev <= WIDE_CAP,
        ;
    }
    let num: i128 = (alpha as i128) * (x as i128) + ((SCALE - alpha) as i128) * (prev as i128);
    let r = crate::fixed::div_i128(num, SCALE as i128);
    r as i64
}

/// Round-to-nearest with ties to even of the rational `n / d`, for a
/// positive denominator, over the floor quotient and remainder.
pub open spec fn spec_round_div_te(n: int, d: int) -> int
    recommends
        d >= 1,
{
    let q = n / d;
    let rem = n % d;
    if 2 * rem < d {
        q
    } else if 2 * rem > d {
        q + 1
    } else if q % 2 == 0 {
        q
    } else {
        q + 1
    }
}

/// Round-to-nearest, ties to even, of `n / d`, saturated to 64 bits.
pub fn round_div_te(n: i128, d: i128) -> (r: i64)
    requires
        1 <= d,
        -0x1_0000_0000_0000_0000_0000_0000i128 <= n <= 0x1_0000_0000_0000_0000_0000_0000i128,
        d <= 0x1_0000_0000_0000_0000_0000_0000i128,
    ensures
        r == crate::fixed::sat_i64(spec_round_div_te(n as int, d as int)),
{
    proof {
        vstd::arithmetic::div_mod::lemma_fundamental_div_mod(n as int, d as int);
        vstd::arithmetic::div_mod::lemma_mod_bound(n as int, d as int);
        crate::signal_math::lemma_div_tr_bound(
            if n >= 0 {
                n as int
            } else {
                -(n as int)
            },
            d as int,
            0x1_0000_0000_0000_0000_0000_0000,
        );
    }
    let qt: i128 = crate::fixed::div_i128(n, d);
    proof {
        lemma_div_tr_mul_range(n as int, d as int);
    }
    let rt: i128 = n - qt * d;
    proof {
        if n >= 0 {
            vstd::arithmetic::div_mod::lemma_fundamental_div_mod(n as int, d as int);
            vstd::arithmetic::div_mod::lemma_mod_bound(n as int, d as int);
            assert((d as int) * ((n as int) / (d as int)) == ((n as int) / (d as int)) * (
            d as int)) by (nonlinear_arith);
            assert(rt == (n as int) % (d as int));
        } else {
            vstd::arithmetic::div_mod::lemma_fundamental_div_mod(-(n as int), d as int);
            vstd::arithmetic::div_mod::lemma_mod_bound(-(n as int), d as int);
            let m = (-(n as int)) / (d as int);
            assert(qt as int == -m);
            assert((d as int) * m == m * (d as int)) by (nonlinear_arith);
            assert((-m) * (d as int) == -(m * (d as int))) by (nonlinear_arith);
            assert(rt == -((-(n as int)) % (d as int)));
        }
    }
    let (q, rem): (i128, i128) = if n >= 0 || rt == 0 {
        (qt, rt)
    } else {
        (qt - 1, rt + d)
    };
    proof {
        if !(n >= 0 || rt == 0) {
            assert((qt - 1) * (d as int) == qt * (d as int) - (d as int)) by (nonlinear_arith);
        }
        assert(n as int == (q as int) * (d as int) + rem) by (nonlinear_arith)
            requires
                rt == n - qt * d && ((q == qt && rem == rt) || (q == qt - 1 && rem == rt + d)),
        ;
        lemma_floor_div_match(n as int, d as int, q as int, rem as int);
    }
    let out: i128 = if 2 * rem < d {
        q
    } else if 2 * rem > d {
        q + 1
    } else {
        let half: i128 = crate::fixed::div_i128(q, 2);
        proof {
            lemma_trunc_even(q as int);
        }
        if q - half * 2 == 0 {
            q
        } else {
            q + 1
        }
    };
    crate::fixed::clamp_i128_to_i64(out)
}

/// The truncating quotient times the divisor stays between zero and the
/// numerator.
proof fn lemma_div_tr_mul_range(n: int, d: int)
    requires
        d >= 1,
    ensures
        n >= 0 ==> 0 <= crate::fixed::div_tr(n, d) * d <= n,
        n < 0 ==> n <= crate::fixed::div_tr(n, d) * d <= 0,
{
    if n >= 0 {
        vstd::arithmetic::div_mod::lemma_fundamental_div_mod(n, d);
        vstd::arithmetic::div_mod::lemma_mod_bound(n, d);
        vstd::arithmetic::div_mod::lemma_div_pos_is_pos(n, d);
        assert(d * (n / d) == (n / d) * d) by (nonlinear_arith);
        assert((n / d) * d >= 0) by (nonlinear_arith)
            requires
                n / d >= 0 && d >= 1,
        ;
    } else {
        vstd::arithmetic::div_mod::lemma_fundamental_div_mod(-n, d);
        vstd::arithmetic::div_mod::lemma_mod_bound(-n, d);
        vstd::arithmetic::div_mod::lemma_div_pos_is_pos(-n, d);
        let m = (-n) / d;
        assert(crate::fixed::div_tr(n, d) == -m);
        assert(d * m == m * d) by (nonlinear_arith);
        assert(m * d >= 0) by (nonlinear_arith)
            requires
                m >= 0 && d >= 1,
        ;
        assert((-m) * d == -(m * d)) by (nonlinear_arith);
    }
}

/// The rounded quotient of a bounded rational stays within one of the
/// bound.
pub proof fn lemma_round_div_bound(n: int, d: int, c: int)
    requires
        d >= 1,
        c >= 0,
        -(c * d) <= n <= c * d,
    ensures
        -c - 1 <= spec_round_div_te(n, d) <= c + 1,
{
    vstd::arithmetic::div_mod::lemma_div_is_ordered(n, c * d, d);
    vstd::arithmetic::div_mod::lemma_div_is_ordered(-(c * d), n, d);
    vstd::arithmetic::div_mod::lemma_div_multiples_vanish(c, d);
    vstd::arithmetic::div_mod::lemma_div_multiples_vanish(-c, d);
    assert(c * d == d * c && -(c * d) == (-c) * d && (-c) * d == d * (-c)) by (nonlinear_arith);
}

/// A quotient-remainder pair with the remainder in `[0, d)` is the floor
/// division.
proof fn lemma_floor_div_match(n: int, d: int, q: int, rem: int)
    requires
        d >= 1,
        0 <= rem < d,
        n == q * d + rem,
    ensures
        q == n / d,
        rem == n % d,
{
    vstd::arithmetic::div_mod::lemma_fundamental_div_mod_converse(n, d, q, rem);
}

/// Truncating halving detects evenness: `q - 2 * trunc(q / 2)` vanishes
/// exactly on even `q`.
proof fn lemma_trunc_even(q: int)
    ensures
        (q - crate::fixed::div_tr(q, 2) * 2 == 0) <==> q % 2 == 0,
{
    if q >= 0 {
        vstd::arithmetic::div_mod::lemma_fundamental_div_mod(q, 2);
        vstd::arithmetic::div_mod::lemma_mod_bound(q, 2);
    } else {
        vstd::arithmetic::div_mod::lemma_fundamental_div_mod(-q, 2);
        vstd::arithmetic::div_mod::lemma_mod_bound(-q, 2);
        let m = (-q) / 2;
        let r = (-q) % 2;
        assert(q == -(2 * m) - r);
        assert(crate::fixed::div_tr(q, 2) == -m);
        if r == 0 {
            assert(q == 2 * (-m)) by (nonlinear_arith)
                requires
                    q == -(2 * m) - r && r == 0,
            ;
            vstd::arithmetic::div_mod::lemma_mod_multiples_basic(-m, 2);
        } else {
            assert(q == 2 * (-m - 1) + 1) by (nonlinear_arith)
                requires
                    q == -(2 * m) - r && r == 1,
            ;
            vstd::arithmetic::div_mod::lemma_fundamental_div_mod_converse(q, 2, -m - 1, 1);
        }
    }
}

} // verus!
