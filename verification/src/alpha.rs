//! Depth-slope factor: an ordinary-least-squares slope of log quantity
//! against level index, per side, smoothed by an exponentially weighted
//! average of the bid-ask slope difference.
//!
//! The logarithm is fixed point: a base-two logarithm with sixteen
//! fractional bits found by repeated squaring of the mantissa, scaled to a
//! natural logarithm in micro-units through the micro-unit constant for
//! `ln 2`.

use vstd::prelude::*;

use crate::SCALE;
use crate::fixed::{div_i64, div_tr};
use crate::lob::LimitOrderBook;
use crate::signal_math::{ewma_alpha, ewma_step, spec_ewma_step, VAL_CAP};

verus! {

/// `ln 2` in micro-units, rounded down.
pub const LN2_MICRO: i64 = 693_147;

/// Whole part of the base-two logarithm.
pub open spec fn spec_floor_log2(x: int) -> nat
    recommends
        x >= 1,
    decreases x,
{
    if x < 2 {
        0
    } else {
        1 + spec_floor_log2(x / 2)
    }
}

/// One mantissa-squaring step: the next fractional bit and the mantissa
/// that carries on, kept in `[65536, 131072)`.
pub open spec fn spec_frac_step(m: int) -> (int, int) {
    let sq = (m * m) / 65536;
    if sq >= 131072 {
        (sq / 2, 1int)
    } else {
        (sq, 0int)
    }
}

/// Mantissa and accumulated fraction after `i` squaring steps.
pub open spec fn spec_log2_frac(m: int, i: nat) -> (int, int)
    decreases i,
{
    if i == 0 {
        (m, 0int)
    } else {
        let prev = spec_log2_frac(m, (i - 1) as nat);
        let st = spec_frac_step(prev.0);
        (st.0, prev.1 * 2 + st.1)
    }
}

/// The base-two logarithm with sixteen fractional bits.
pub open spec fn spec_log2_q16(x: int) -> int
    recommends
        x >= 1,
{
    let n = spec_floor_log2(x);
    let m0 = (x * 65536) / vstd::arithmetic::power2::pow2(n) as int;
    n * 65536 + spec_log2_frac(m0, 16).1
}

/// Fixed-point `ln(1 + q)` for a micro-unit quantity `q`: the base-two
/// logarithms of `q + 1` and of `1` (in micro-units) differenced and
/// scaled by `ln 2`.
pub open spec fn spec_ln1p(q: int) -> int {
    div_tr((spec_log2_q16(q + SCALE) - spec_log2_q16(SCALE as int)) * LN2_MICRO, 65536)
}

/// Sum of the level indices `1..=k`.
pub open spec fn sum_x(k: int) -> int
    decreases k,
{
    if k <= 0 {
        0
    } else {
        sum_x(k - 1) + k
    }
}

/// Sum of the squared level indices.
pub open spec fn sum_xx(k: int) -> int
    decreases k,
{
    if k <= 0 {
        0
    } else {
        sum_xx(k - 1) + k * k
    }
}

/// Sum of the log quantities of the first `k` levels.
pub open spec fn sum_y(vols: Seq<i64>, k: int) -> int
    decreases k,
{
    if k <= 0 {
        0
    } else {
        sum_y(vols, k - 1) + spec_ln1p(vols[k - 1] as int)
    }
}

/// Sum of index-weighted log quantities of the first `k` levels.
pub open spec fn sum_xy(vols: Seq<i64>, k: int) -> int
    decreases k,
{
    if k <= 0 {
        0
    } else {
        sum_xy(vols, k - 1) + k * spec_ln1p(vols[k - 1] as int)
    }
}

/// Ordinary-least-squares slope of log quantity against level index:
/// 0 for fewer than two levels or a degenerate index variance.
pub open spec fn spec_slope(vols: Seq<i64>) -> int {
    let n = vols.len() as int;
    if n < 2 {
        0
    } else {
        let den = n * sum_xx(n) - sum_x(n) * sum_x(n);
        if den <= 0 {
            0
        } else {
            div_tr(n * sum_xy(vols, n) - sum_x(n) * sum_y(vols, n), den)
        }
    }
}

/// The up-to-ten best quantities of one side, best level first.
pub open spec fn spec_side_vols(s: Seq<(u64, i64)>, from_end: bool) -> Seq<i64> {
    Seq::new(
        if s.len() <= 10 {
            s.len()
        } else {
            10
        },
        |k: int|
            s[if from_end {
                s.len() - 1 - k
            } else {
                k
            }].1,
    )
}

/// Whole and fractional base-two logarithm of a positive 64-bit value.
fn log2_q16(x: u64) -> (r: i64)
    requires
        1 <= x,
    ensures
        r == spec_log2_q16(x as int),
        0 <= r <= 64 * 65536,
{
    let mut y: u64 = x;
    let mut n: u64 = 0;
    let mut p: u64 = 1;
    proof {
        vstd::arithmetic::power2::lemma2_to64();
    }
    while y >= 2
        invariant
            1 <= y,
            p == vstd::arithmetic::power2::pow2(n as nat),
            1 <= p,
            y == x / p,
            n <= 63,
            spec_floor_log2(x as int) == n + spec_floor_log2(y as int),
        decreases y,
    {
        proof {
            vstd::arithmetic::power2::lemma2_to64();
            vstd::arithmetic::div_mod::lemma_fundamental_div_mod(x as int, p as int);
            vstd::arithmetic::div_mod::lemma_mod_bound(x as int, p as int);
            assert(x as int >= 2 * p) by (nonlinear_arith)
                requires
                    x as int == (p as int) * (y as int) + ((x as int) % (p as int)) && y >= 2 && ((
                    x as int) % (p as int)) >= 0 && p >= 1,
            ;
            if n >= 63 {
                vstd::arithmetic::power2::lemma2_to64_rest();
                assert(p == vstd::arithmetic::power2::pow2(63));
                assert(false);
            }
            vstd::arithmetic::power2::lemma_pow2_strictly_increases(n as nat, 63);
            vstd::arithmetic::power2::lemma_pow2_unfold((n + 1) as nat);
            vstd::arithmetic::div_mod::lemma_div_denominator(x as int, p as int, 2);
        }
        y = y / 2;
        n = n + 1;
        p = p * 2;
    }
    // y == 1: p <= x < 2 * p, mantissa in [65536, 131072).
    proof {
        vstd::arithmetic::div_mod::lemma_fundamental_div_mod(x as int, p as int);
        vstd::arithmetic::div_mod::lemma_mod_bound(x as int, p as int);
        assert((x as int) * 65536 >= (p as int) * 65536) by (nonlinear_arith)
            requires
                x >= p >= 1,
        ;
        assert((x as int) * 65536 < (p as int) * 131072) by (nonlinear_arith)
            requires
                (x as int) < 2 * (p as int),
        ;
        vstd::arithmetic::div_mod::lemma_div_is_ordered(
            (p as int) * 65536,
            (x as int) * 65536,
            p as int,
        );
        vstd::arithmetic::div_mod::lemma_div_by_multiple(65536, p as int);
        assert((p as int) * 65536 == 65536 * (p as int)) by (nonlinear_arith);
        assert(((x as int) * 65536) / (p as int) < 131072) by {
            assert((x as int) * 65536 < (p as int) * 131072) by (nonlinear_arith)
                requires
                    (x as int) < 2 * (p as int),
            ;
            vstd::arithmetic::div_mod::lemma_multiply_divide_lt(
                (x as int) * 65536,
                p as int,
                131072,
            );
        };
    }
    let mx: u128 = ((x as u128) * 65536) / (p as u128);
    let mut m: u128 = mx;
    let mut frac: u64 = 0;
    let mut i: u64 = 0;
    proof {
        vstd::arithmetic::power2::lemma2_to64();
    }
    while i < 16
        invariant
            0 <= i <= 16,
            65536 <= m < 131072,
            frac < vstd::arithmetic::power2::pow2(i as nat),
            (m as int, frac as int) == spec_log2_frac(mx as int, i as nat),
        decreases 16 - i,
    {
        proof {
            assert(65536 * 65536 <= (m as int) * (m as int) < 131072 * 131072) by (
            nonlinear_arith)
                requires
                    65536 <= m < 131072,
            ;
            vstd::arithmetic::div_mod::lemma_div_is_ordered(
                65536int * 65536,
                (m as int) * (m as int),
                65536int,
            );
            vstd::arithmetic::div_mod::lemma_div_is_ordered(
                (m as int) * (m as int),
                131072int * 131072 - 1,
                65536int,
            );
            vstd::arithmetic::power2::lemma_pow2_unfold((i + 1) as nat);
            vstd::arithmetic::power2::lemma2_to64();
        }
        let sq: u128 = (m as u128) * (m as u128) / 65536;
        if sq >= 131072 {
            m = sq / 2;
            frac = frac * 2 + 1;
        } else {
            m = sq;
            frac = frac * 2;
        }
        i = i + 1;
    }
    proof {
        vstd::arithmetic::power2::lemma2_to64();
    }
    (n * 65536 + frac) as i64
}

/// Fixed-point `ln(1 + q)` in micro-units for a micro-unit quantity.
fn ln1p_micro(q: i64) -> (r: i64)
    requires
        0 <= q <= VAL_CAP,
    ensures
        r == spec_ln1p(q as int),
        -46_000_000 <= r <= 46_000_000,
{
    let a: i64 = log2_q16((q + SCALE) as u64);
    let b: i64 = log2_q16(SCALE as u64);
    let d: i64 = a - b;
    proof {
        assert(-(65536 * 46_000_000) <= d * LN2_MICRO <= 65536 * 46_000_000) by (nonlinear_arith)
            requires
                -(64 * 65536) <= d <= 64 * 65536 && LN2_MICRO == 693_147,
        ;
        crate::signal_math::lemma_div_tr_bound(d * LN2_MICRO, 65536, 46_000_000);
    }
    div_i64(d * LN2_MICRO, 65536)
}

/// Ordinary-least-squares slope over one side's best quantities.
fn side_slope(vols: &Vec<i64>) -> (r: i64)
    requires
        vols@.len() <= 10,
        forall|i: int| 0 <= i < vols@.len() ==> 0 <= #[trigger] vols@[i] <= VAL_CAP,
    ensures
        r == spec_slope(vols@),
        -100_000_000_000 <= r <= 100_000_000_000,
{
    let n = vols.len();
    if n < 2 {
        return 0;
    }
    let mut sx: i64 = 0;
    let mut sxx: i64 = 0;
    let mut sy: i64 = 0;
    let mut sxy: i64 = 0;
    let mut k: usize = 0;
    while k < n
        invariant
            2 <= n <= 10,
            n == vols@.len(),
            0 <= k <= n,
            forall|i: int| 0 <= i < vols@.len() ==> 0 <= #[trigger] vols@[i] <= VAL_CAP,
            sx == sum_x(k as int),
            sxx == sum_xx(k as int),
            sy == sum_y(vols@, k as int),
            sxy == sum_xy(vols@, k as int),
            0 <= sx <= 10 * (k as int),
            0 <= sxx <= 100 * (k as int),
            -46_000_000 * (k as int) <= sy <= 46_000_000 * (k as int),
            -460_000_000 * (k as int) <= sxy <= 460_000_000 * (k as int),
        decreases n - k,
    {
        let y: i64 = ln1p_micro(vols[k]);
        let xi: i64 = (k + 1) as i64;
        proof {
            assert(-460_000_000 <= xi * y <= 460_000_000) by (nonlinear_arith)
                requires
                    1 <= xi <= 10 && -46_000_000 <= y <= 46_000_000,
            ;
            assert(1 <= xi * xi <= 100) by (nonlinear_arith)
                requires
                    1 <= xi <= 10,
            ;
        }
        sx = sx + xi;
        sxx = sxx + xi * xi;
        sy = sy + y;
        sxy = sxy + xi * y;
        k += 1;
    }
    let nn: i64 = n as i64;
    proof {
        assert(0 <= nn * sxx <= 10_000) by (nonlinear_arith)
            requires
                2 <= nn <= 10 && 0 <= sxx <= 1_000,
        ;
        assert(0 <= sx * sx <= 10_000) by (nonlinear_arith)
            requires
                0 <= sx <= 100,
        ;
    }
    let den: i64 = nn * sxx - sx * sx;
    if den <= 0 {
        return 0;
    }
    proof {
        assert(-46_000_000_000 <= nn * sxy <= 46_000_000_000) by (nonlinear_arith)
            requires
                2 <= nn <= 10 && -4_600_000_000i64 <= sxy <= 4_600_000_000i64,
        ;
        assert(-46_000_000_000 <= sx * sy <= 46_000_000_000) by (nonlinear_arith)
            requires
                0 <= sx <= 100 && -460_000_000i64 <= sy <= 460_000_000i64,
        ;
    }
    let num: i64 = nn * sxy - sx * sy;
    proof {
        assert(-(100_000_000_000 * den) <= num <= 100_000_000_000 * den) by (nonlinear_arith)
            requires
                den >= 1 && -92_000_000_000i64 <= num <= 92_000_000_000i64,
        ;
        crate::signal_math::lemma_div_tr_bound(num as int, den as int, 100_000_000_000);
    }
    div_i64(num, den)
}

/// Depth-slope factor state: the smoothed bid-ask slope difference.
pub struct AlphaDepthSlope {
    alpha: i64,
    ewma_signal: i64,
    initialized: bool,
}

impl AlphaDepthSlope {
    /// Smoothing constant (micro-units).
    pub closed spec fn alpha_spec(&self) -> i64 {
        self.alpha
    }

    /// The smoothed signal.
    pub closed spec fn signal_spec(&self) -> i64 {
        self.ewma_signal
    }

    /// Whether a first observation was folded in.
    pub closed spec fn initialized_spec(&self) -> bool {
        self.initialized
    }

    pub closed spec fn wf(&self) -> bool {
        &&& 0 <= self.alpha <= SCALE
        &&& -VAL_CAP <= self.ewma_signal <= VAL_CAP
    }

    pub fn new(window_size: usize) -> (r: AlphaDepthSlope)
        requires
            1 <= window_size <= 0xffff_ffff,
        ensures
            r.wf(),
            r.signal_spec() == 0,
            !r.initialized_spec(),
    {
        AlphaDepthSlope { alpha: ewma_alpha(window_size), ewma_signal: 0, initialized: false }
    }

    /// Fold one book snapshot into the smoothed signal and return it: the
    /// bid-side slope minus the ask-side slope over the ten best levels
    /// each, smoothed; the first observation seeds the average directly.
    pub fn calculate(&mut self, lob: &LimitOrderBook) -> (r: i64)
        requires
            old(self).wf(),
            lob.wf(),
            forall|i: int| 0 <= i < lob.bids@.len() ==> 0 <= (#[trigger] lob.bids@[i]).1
                <= VAL_CAP,
            forall|i: int| 0 <= i < lob.asks@.len() ==> 0 <= (#[trigger] lob.asks@[i]).1
                <= VAL_CAP,
        ensures
            final(self).wf(),
            final(self).alpha_spec() == old(self).alpha_spec(),
            final(self).initialized_spec(),
            ({
                let raw = spec_slope(spec_side_vols(lob.bids@, true)) - spec_slope(
                    spec_side_vols(lob.asks@, false),
                );
                final(self).signal_spec() == if old(self).initialized_spec() {
                    spec_ewma_step(
                        old(self).signal_spec() as int,
                        raw,
                        old(self).alpha_spec() as int,
                    )
                } else {
                    raw
                }
            }),
            r == final(self).signal_spec(),
    {
        let bid_vols = side_vols_of(&lob.bids, true);
        let ask_vols = side_vols_of(&lob.asks, false);
        let bs = side_slope(&bid_vols);
        let asl = side_slope(&ask_vols);
        let raw: i64 = bs - asl;
        if !self.initialized {
            self.ewma_signal = raw;
            self.initialized = true;
        } else {
            self.ewma_signal = ewma_step(self.ewma_signal, raw, self.alpha);
        }
        self.ewma_signal
    }
}

/// Collect the up-to-ten best quantities of one side, best level first.
fn side_vols_of(s: &Vec<(u64, i64)>, from_end: bool) -> (r: Vec<i64>)
    ensures
        r@ == spec_side_vols(s@, from_end),
        r@.len() <= 10,
{
    let n = s.len();
    let take = if n <= 10 {
        n
    } else {
        10
    };
    let mut r: Vec<i64> = Vec::new();
    let mut k: usize = 0;
    while k < take
        invariant
            take <= n,
            take <= 10,
            n == s@.len(),
            0 <= k <= take,
            r@.len() == k,
            forall|t: int|
                0 <= t < k ==> #[trigger] r@[t] == s@[if from_end {
                    s@.len() - 1 - t
                } else {
                    t
                }].1,
        decreases take - k,
    {
        let idx = if from_end {
            n - 1 - k
        } else {
            k
        };
        let q = s[idx].1;
        r.push(q);
        k += 1;
    }
    proof {
        assert(r@ =~= spec_side_vols(s@, from_end));
    }
    r
}

} // verus!
