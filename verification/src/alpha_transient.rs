//! Transient-reprice factor: mean reversion of the mid-price return over
//! a fixed lag.
//!
//! For `t >= k` the value is the negated relative mid-price move
//! `-(mid[t] - mid[t-k]) / mid[t-k]` in micro-units; earlier indices and a
//! zero reference mid give 0.  The halving in the mid-price cancels in the
//! ratio, so the computation uses the bid/ask price sums directly.

use vstd::prelude::*;

use crate::SCALE;
use crate::fixed::{div_i128, div_tr};
use crate::signal_math::VAL_CAP;

verus! {

/// The factor value at one index: lag-`k` negated mid-price return in
/// micro-units, over twice-the-mid sums.
pub open spec fn spec_reprice_at(bid_p: Seq<i64>, ask_p: Seq<i64>, k: int, t: int) -> int {
    if t < k {
        0
    } else {
        let m = bid_p[t] + ask_p[t];
        let mp = bid_p[t - k] + ask_p[t - k];
        if mp == 0 {
            0
        } else {
            -div_tr((m - mp) * SCALE, mp)
        }
    }
}

/// Transient-reprice factor over a fixed lag window.
pub struct AlphaTransientReprice {
    window_size: usize,
}

impl AlphaTransientReprice {
    /// The configured lag.
    pub closed spec fn window(&self) -> int {
        self.window_size as int
    }

    pub fn new(window_size: usize) -> (r: AlphaTransientReprice)
        ensures
            r.window() == window_size,
    {
        AlphaTransientReprice { window_size }
    }

    /// Compute the lagged reversal signal for two aligned price columns.
    /// Fails exactly when the columns differ in length.
    pub fn compute(&self, bid_p: &Vec<i64>, ask_p: &Vec<i64>) -> (r: Option<Vec<i64>>)
        requires
            forall|i: int| 0 <= i < bid_p@.len() ==> -VAL_CAP <= #[trigger] bid_p@[i] <= VAL_CAP,
            forall|i: int| 0 <= i < ask_p@.len() ==> -VAL_CAP <= #[trigger] ask_p@[i] <= VAL_CAP,
        ensures
            r is Some <==> ask_p@.len() == bid_p@.len(),
            r matches Some(o) ==> o@.len() == bid_p@.len() && forall|t: int|
                0 <= t < o@.len() ==> #[trigger] o@[t] == spec_reprice_at(
                    bid_p@,
                    ask_p@,
                    self.window(),
                    t,
                ),
    {
        let n = bid_p.len();
        if ask_p.len() != n {
            return None;
        }
        let k = self.window_size;
        let mut out: Vec<i64> = Vec::new();
        let mut t: usize = 0;
        while t < n
            invariant
                0 <= t <= n,
                n == bid_p@.len() && n == ask_p@.len(),
                k == self.window(),
                forall|i: int| 0 <= i < bid_p@.len() ==> -VAL_CAP <= #[trigger] bid_p@[i]
                    <= VAL_CAP,
                forall|i: int| 0 <= i < ask_p@.len() ==> -VAL_CAP <= #[trigger] ask_p@[i]
                    <= VAL_CAP,
                out@.len() == t,
                forall|u: int|
                    0 <= u < t ==> #[trigger] out@[u] == spec_reprice_at(
                        bid_p@,
                        ask_p@,
                        self.window(),
                        u,
                    ),
            decreases n - t,
        {
            let v: i64 = if t < k {
                0
            } else {
                let m: i64 = bid_p[t] + ask_p[t];
                let mp: i64 = bid_p[t - k] + ask_p[t - k];
                if mp == 0 {
                    0
                } else {
                    let d: i64 = m - mp;
                    proof {
                        assert(-(4 * VAL_CAP * SCALE) <= d * SCALE <= 4 * VAL_CAP
                            * SCALE) by (nonlinear_arith)
                            requires
                                -4 * VAL_CAP <= d <= 4 * VAL_CAP,
                        ;
                    }
                    let num: i128 = (d as i128) * (SCALE as i128);
                    let q: i128 = div_i128(num, mp as i128);
                    proof {
                        lemma_div_tr_abs_le(num as int, mp as int);
                    }
                    -(q as i64)
                }
            };
            out.push(v);
            t += 1;
        }
        Some(out)
    }
}

/// A truncating quotient never exceeds the numerator in magnitude.
pub proof fn lemma_div_tr_abs_le(a: int, b: int)
    requires
        b != 0,
    ensures
        -(if a >= 0 {
            a
        } else {
            -a
        }) <= div_tr(a, b) <= (if a >= 0 {
            a
        } else {
            -a
        }),
{
    broadcast use vstd::arithmetic::div_mod::lemma_div_nonincreasing;
    broadcast use vstd::arithmetic::div_mod::lemma_div_pos_is_pos;

    if a == 0 {
    } else if a > 0 && b > 0 {
        assert(a / b <= a && a / b >= 0);
    } else if a < 0 && b < 0 {
        assert((-a) / (-b) <= -a && (-a) / (-b) >= 0);
    } else if a < 0 {
        assert((-a) / b <= -a && (-a) / b >= 0);
    } else {
        assert(a / (-b) <= a && a / (-b) >= 0);
    }
}

} // verus!
