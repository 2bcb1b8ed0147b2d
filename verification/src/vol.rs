//! Smoothed volatility monitor shared by the gated factors: an
//! exponentially weighted variance of clamped relative mid-price moves,
//! and a threshold gate.
//!
//! The factors compare the deviation (the square root of the variance)
//! against a threshold; since both sides are non-negative this is decided
//! exactly on squares, without computing any square root: the deviation
//! in micro-units is below `thr` exactly when `variance * 1_000_000 <
//! thr^2`.

use vstd::prelude::*;

use crate::SCALE;
use crate::alpha_meta::{spec_ret_of, RET_CAP};
use crate::fixed::div_i128;
use crate::signal_math::{ewma_step, isqrt_u128, spec_ewma_step, VAL_CAP};

verus! {

/// The monitor after seeing one mid price: before the first observation
/// it only arms itself; afterwards each positive pair of mids contributes
/// one squared clamped return to the smoothed variance.
pub open spec fn spec_vol_observe(
    initialized: bool,
    prev_mid_x2: int,
    variance: int,
    alpha: int,
    mid_x2: int,
) -> int {
    if initialized && mid_x2 > 0 && prev_mid_x2 > 0 {
        let ret = spec_ret_of(mid_x2, prev_mid_x2);
        spec_ewma_step(variance, div_tr_sq(ret), alpha)
    } else {
        variance
    }
}

/// Squared micro-unit return brought back to micro-units.
pub open spec fn div_tr_sq(ret: int) -> int {
    crate::fixed::div_tr(ret * ret, SCALE as int)
}

/// The threshold gate, decided on squares: closed exactly when the
/// current deviation is strictly below the (positive) threshold.
pub open spec fn spec_gate_closed(variance: int, vol_known: bool, thr: int) -> bool {
    if vol_known {
        thr > 0 && variance * SCALE < thr * thr
    } else {
        thr > 0
    }
}

/// Exponentially weighted variance monitor over mid-price returns.
pub struct VolMonitor {
    vol_alpha: i64,
    ewma_variance: i64,
    prev_mid_x2: i64,
    initialized: bool,
}

impl VolMonitor {
    /// Smoothing constant (micro-units).
    pub closed spec fn alpha_spec(&self) -> i64 {
        self.vol_alpha
    }

    /// Smoothed variance (micro-units).
    pub closed spec fn variance(&self) -> i64 {
        self.ewma_variance
    }

    /// Twice the previous mid price, 0 before the first observation.
    pub closed spec fn prev_mid_spec(&self) -> i64 {
        self.prev_mid_x2
    }

    /// Whether a first observation was seen.
    pub closed spec fn initialized_spec(&self) -> bool {
        self.initialized
    }

    pub closed spec fn wf(&self) -> bool {
        &&& 0 <= self.vol_alpha <= SCALE
        &&& 0 <= self.ewma_variance <= VAL_CAP
        &&& 0 <= self.prev_mid_x2 <= 4 * VAL_CAP
    }

    pub fn new(vol_alpha: i64) -> (r: VolMonitor)
        requires
            0 <= vol_alpha <= SCALE,
        ensures
            r.wf(),
            r.alpha_spec() == vol_alpha,
            r.variance() == 0,
            !r.initialized_spec(),
    {
        VolMonitor { vol_alpha, ewma_variance: 0, prev_mid_x2: 0, initialized: false }
    }

    /// Fold one mid price (twice the mid, scaled) into the variance and
    /// report whether the variance was actually updated.
    pub fn observe(&mut self, mid_x2: i64) -> (updated: bool)
        requires
            old(self).wf(),
            0 <= mid_x2 <= 4 * VAL_CAP,
        ensures
            final(self).wf(),
            final(self).alpha_spec() == old(self).alpha_spec(),
            final(self).initialized_spec(),
            final(self).prev_mid_spec() == mid_x2,
            final(self).variance() == spec_vol_observe(
                old(self).initialized_spec(),
                old(self).prev_mid_spec() as int,
                old(self).variance() as int,
                old(self).alpha_spec() as int,
                mid_x2 as int,
            ),
            updated == (old(self).initialized_spec() && mid_x2 > 0 && old(self).prev_mid_spec()
                > 0),
    {
        let mut updated = false;
        if self.initialized && mid_x2 > 0 && self.prev_mid_x2 > 0 {
            let d: i64 = mid_x2 - self.prev_mid_x2;
            proof {
                assert(-(4 * VAL_CAP * SCALE) <= d * SCALE <= 4 * VAL_CAP
                    * SCALE) by (nonlinear_arith)
                    requires
                        -4 * VAL_CAP <= d <= 4 * VAL_CAP,
                ;
            }
            let rnum: i128 = (d as i128) * (SCALE as i128);
            let rq: i128 = div_i128(rnum, self.prev_mid_x2 as i128);
            proof {
                crate::alpha_transient::lemma_div_tr_abs_le(rnum as int, self.prev_mid_x2 as int);
            }
            let ret: i64 = if rq > RET_CAP as i128 {
                RET_CAP
            } else if rq < -RET_CAP as i128 {
                -RET_CAP
            } else {
                rq as i64
            };
            proof {
                assert(0 <= ret * ret <= RET_CAP * RET_CAP) by (nonlinear_arith)
                    requires
                        -RET_CAP <= ret <= RET_CAP,
                ;
                crate::signal_math::lemma_div_tr_bound(ret * ret, SCALE as int, VAL_CAP as int);
            }
            let sqnum: i128 = (ret as i128) * (ret as i128);
            let ret_sq128: i128 = div_i128(sqnum, SCALE as i128);
            let ret_sq: i64 = ret_sq128 as i64;
            self.ewma_variance = ewma_step(self.ewma_variance, ret_sq, self.vol_alpha);
            updated = true;
        }
        self.initialized = true;
        self.prev_mid_x2 = mid_x2;
        updated
    }

    /// Current deviation in micro-units, as the exact integer square root
    /// of the scaled variance.
    pub fn current_vol(&self) -> (r: i64)
        requires
            self.wf(),
        ensures
            0 <= r,
            (r as int) * (r as int) <= self.variance() * SCALE,
            (r as int + 1) * (r as int + 1) > self.variance() * SCALE,
    {
        proof {
            assert(0 <= self.ewma_variance * SCALE <= VAL_CAP * SCALE) by (nonlinear_arith)
                requires
                    0 <= self.ewma_variance <= VAL_CAP,
            ;
        }
        let x: u128 = (self.ewma_variance as u128) * (SCALE as u128);
        let s: u64 = isqrt_u128(x);
        proof {
            assert((s as int) * (s as int) <= VAL_CAP * SCALE);
            assert(s as int <= 0x4000_0000i64 * SCALE) by (nonlinear_arith)
                requires
                    (s as int) * (s as int) <= VAL_CAP * SCALE && s >= 0 && VAL_CAP
                        == 0x100_0000_0000 && SCALE == 1_000_000,
            ;
        }
        s as i64
    }

    /// Whether the deviation is strictly below the threshold, decided
    /// exactly on squares.
    pub fn below_threshold(&self, thr: i64, vol_known: bool) -> (r: bool)
        requires
            self.wf(),
        ensures
            r == spec_gate_closed(self.variance() as int, vol_known, thr as int),
    {
        if !vol_known {
            return thr > 0;
        }
        if thr <= 0 {
            return false;
        }
        proof {
            assert(0 <= self.ewma_variance * SCALE) by (nonlinear_arith)
                requires
                    0 <= self.ewma_variance,
            ;
            assert(0 <= (thr as int) * (thr as int)
                <= 0x4000_0000_0000_0000_0000_0000_0000_0000i128) by (nonlinear_arith)
                requires
                    0 < thr <= i64::MAX,
            ;
        }
        let v: i128 = (self.ewma_variance as i128) * (SCALE as i128);
        let t2: i128 = (thr as i128) * (thr as i128);
        v < t2
    }
}

} // verus!
