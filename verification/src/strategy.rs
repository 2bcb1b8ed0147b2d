//! Self-exciting intensity tracking and the top-of-book strategy signal.
//!
//! The tracker keeps a Hawkes-style event-rate estimate in micro-units:
//! between events it decays exponentially toward the baseline `mu`, and
//! each event adds `alpha` on top, after the decay.  Non-positive time
//! steps skip the decay on purpose (a guard against clock jumps), but the
//! jump still applies.

use vstd::prelude::*;

use crate::SCALE;
use crate::expneg::{exp_neg, spec_exp_neg, EXP_CUTOFF};
use crate::fixed::{div_i128, div_tr, sat_add_i64, sat_i64};
use crate::signal_math::VAL_CAP;

verus! {

/// Nanoseconds per second: timestamps arrive in nanoseconds.
pub const NS_PER_SEC: i64 = 1_000_000_000;

/// Hawkes-style intensity tracker state, all rates in micro-units.
pub struct HawkesTracker {
    mu: i64,
    alpha: i64,
    beta: i64,
    last_ts: i64,
    intensity: i64,
}

/// The decayed intensity an update computes before any jump: unchanged
/// for a non-positive time step, otherwise pulled toward `mu` by the
/// fixed-point exponential factor `e^(-beta * dt)`.
pub open spec fn spec_decayed(mu: int, beta: int, intensity: int, last_ts: int, ts: int) -> int {
    let dt = ts - last_ts;
    if dt <= 0 {
        intensity
    } else {
        mu + div_tr((intensity - mu) * spec_exp_neg(div_tr(beta * dt, NS_PER_SEC as int)), SCALE as int)
    }
}

/// The decay step never moves the intensity below the baseline or above
/// its previous value: with no events the intensity can only fall toward
/// `mu`.
pub proof fn lemma_decay_contracts(mu: int, beta: int, intensity: int, last_ts: int, ts: int)
    requires
        0 <= beta,
        mu <= intensity,
        last_ts <= ts,
    ensures
        mu <= spec_decayed(mu, beta, intensity, last_ts, ts) <= intensity,
{
    let dt = ts - last_ts;
    if dt <= 0 {
    } else {
        let x = div_tr(beta * dt, NS_PER_SEC as int);
        assert(beta * dt >= 0) by (nonlinear_arith)
            requires
                beta >= 0 && dt >= 0,
        ;
        let d = spec_exp_neg(x);
        crate::expneg::lemma_exp_neg_range(x);
        crate::expneg::lemma_scaled_step_bounds_pub(intensity - mu, d, SCALE as int);
    }
}

/// With no event and a long enough gap the intensity lands exactly on the
/// baseline `mu`: the estimator converges to `mu` as the quiet time grows.
pub proof fn lemma_intensity_converges(mu: int, beta: int, intensity: int, last_ts: int, ts: int)
    requires
        mu <= intensity,
        div_tr(beta * (ts - last_ts), NS_PER_SEC as int) >= EXP_CUTOFF,
        ts > last_ts,
    ensures
        spec_decayed(mu, beta, intensity, last_ts, ts) == mu,
{
    let x = div_tr(beta * (ts - last_ts), NS_PER_SEC as int);
    assert(spec_exp_neg(x) == 0);
    assert(div_tr((intensity - mu) * 0, SCALE as int) == 0) by {
        assert((intensity - mu) * 0 == 0) by (nonlinear_arith);
    };
}

impl HawkesTracker {
    /// Baseline event rate.
    pub closed spec fn mu_spec(&self) -> i64 {
        self.mu
    }

    /// Jump added by each event.
    pub closed spec fn alpha_spec(&self) -> i64 {
        self.alpha
    }

    /// Decay rate per second.
    pub closed spec fn beta_spec(&self) -> i64 {
        self.beta
    }

    /// Timestamp of the last update, nanoseconds.
    pub closed spec fn last_ts_spec(&self) -> i64 {
        self.last_ts
    }

    /// Current intensity estimate.
    pub closed spec fn intensity_spec(&self) -> i64 {
        self.intensity
    }

    /// Well-formed: non-negative bounded parameters, the intensity never
    /// below the baseline, timestamps non-negative.
    pub closed spec fn wf(&self) -> bool {
        &&& 0 <= self.mu <= VAL_CAP
        &&& 0 <= self.alpha <= VAL_CAP
        &&& 0 <= self.beta <= VAL_CAP
        &&& 0 <= self.last_ts
        &&& self.mu <= self.intensity
    }

    pub fn new(mu: i64, alpha: i64, beta: i64) -> (r: HawkesTracker)
        requires
            0 <= mu <= VAL_CAP,
            0 <= alpha <= VAL_CAP,
            0 <= beta <= VAL_CAP,
        ensures
            r.wf(),
            r.mu_spec() == mu && r.alpha_spec() == alpha && r.beta_spec() == beta,
            r.intensity_spec() == mu,
            r.last_ts_spec() == 0,
    {
        HawkesTracker { mu, alpha, beta, last_ts: 0, intensity: mu }
    }

    /// Advance to `current_ts`: decay toward the baseline when time moved
    /// forward, then add the jump if this update is an event, and return
    /// the new intensity.
    pub fn update(&mut self, current_ts: i64, is_event: bool) -> (r: i64)
        requires
            old(self).wf(),
            0 <= current_ts,
        ensures
            final(self).wf(),
            final(self).mu_spec() == old(self).mu_spec(),
            final(self).alpha_spec() == old(self).alpha_spec(),
            final(self).beta_spec() == old(self).beta_spec(),
            final(self).last_ts_spec() == current_ts,
            ({
                let d = spec_decayed(
                    old(self).mu_spec() as int,
                    old(self).beta_spec() as int,
                    old(self).intensity_spec() as int,
                    old(self).last_ts_spec() as int,
                    current_ts as int,
                );
                final(self).intensity_spec() == if is_event {
                    sat_i64(d + old(self).alpha_spec())
                } else {
                    d
                }
            }),
            r == final(self).intensity_spec(),
    {
        let dt: i64 = current_ts - self.last_ts;
        if dt > 0 {
            proof {
                assert(0 <= self.beta * dt <= 0x1_0000_0000_0000_0000_0000_0000_0000i128) by (
                nonlinear_arith)
                    requires
                        0 <= self.beta <= VAL_CAP && 0 < dt <= i64::MAX,
                ;
            }
            let x128: i128 = div_i128((self.beta as i128) * (dt as i128), NS_PER_SEC as i128);
            proof {
                crate::alpha_transient::lemma_div_tr_abs_le(
                    (self.beta as i128) * (dt as i128) as int,
                    NS_PER_SEC as int,
                );
            }
            let x: i64 = if x128 >= EXP_CUTOFF as i128 {
                EXP_CUTOFF
            } else {
                x128 as i64
            };
            let decay: i64 = exp_neg(x);
            proof {
                if x128 >= EXP_CUTOFF as i128 {
                    assert(spec_exp_neg(x128 as int) == 0);
                }
            }
            let gap: i64 = self.intensity - self.mu;
            proof {
                assert(0 <= (gap as i128) * (decay as i128) <= 0x8000_0000_0000_0000_0000_0000i128)
                    by (nonlinear_arith)
                    requires
                        0 <= gap <= i64::MAX && 0 <= decay <= SCALE,
                ;
                crate::expneg::lemma_scaled_step_bounds_pub(gap as int, decay as int, SCALE as int);
            }
            let newgap: i128 = div_i128((gap as i128) * (decay as i128), SCALE as i128);
            self.intensity = self.mu + (newgap as i64);
        }
        if is_event {
            self.intensity = sat_add_i64(self.intensity, self.alpha);
        }
        self.last_ts = current_ts;
        self.intensity
    }
}

/// The momentum term, in twice-the-price units: last trade against the
/// current mid, 0 before any trade.
pub open spec fn spec_momentum_x2(last_trade: int, mid_x2: int) -> int {
    if last_trade > 0 {
        2 * last_trade - mid_x2
    } else {
        0
    }
}

/// Top-of-book imbalance in micro-units at one depth level.
pub open spec fn spec_level_imbalance(bq: int, aq: int) -> int {
    if bq + aq > 0 {
        div_tr((bq - aq) * SCALE, bq + aq)
    } else {
        0
    }
}

/// Combined strategy signal in micro-units: imbalance at the configured
/// depth plus half the momentum, the momentum read in price units.
pub open spec fn spec_strategy_signal(imb: int, mom_x2: int) -> int {
    imb + div_tr(mom_x2 * SCALE, 4)
}

/// Depth-imbalance strategy with a Hawkes intensity feature.
pub struct AlphaStrategy {
    deep_level: usize,
    hawkes: HawkesTracker,
    last_trade_price: i64,
    mid_price_x2: i64,
}

impl AlphaStrategy {
    /// The configured depth level (1-based; 0 behaves as 1).
    pub closed spec fn level(&self) -> nat {
        self.deep_level as nat
    }

    /// The embedded intensity tracker.
    pub closed spec fn hawkes_spec(&self) -> HawkesTracker {
        self.hawkes
    }

    /// Last observed trade price (scaled), 0 before any trade.
    pub closed spec fn last_trade_spec(&self) -> i64 {
        self.last_trade_price
    }

    /// Twice the current mid price (scaled), 0 before any book update.
    pub closed spec fn mid_x2_spec(&self) -> i64 {
        self.mid_price_x2
    }

    pub closed spec fn wf(&self) -> bool {
        &&& self.hawkes.wf()
        &&& 0 <= self.last_trade_price <= VAL_CAP
        &&& 0 <= self.mid_price_x2 <= 2 * VAL_CAP
    }

    pub fn new(level: usize, mu: i64, alpha: i64, beta: i64) -> (r: AlphaStrategy)
        requires
            0 <= mu <= VAL_CAP,
            0 <= alpha <= VAL_CAP,
            0 <= beta <= VAL_CAP,
        ensures
            r.wf(),
            r.level() == level,
            r.last_trade_spec() == 0,
            r.hawkes_spec().intensity_spec() == mu,
    {
        AlphaStrategy {
            deep_level: level,
            hawkes: HawkesTracker::new(mu, alpha, beta),
            last_trade_price: 0,
            mid_price_x2: 0,
        }
    }

    /// Process one book snapshot, both sides best-first as (price,
    /// quantity) pairs, and return the signal: 0 when either side is
    /// empty, otherwise the imbalance at the configured level combined
    /// with the trade momentum.
    pub fn on_depth(&mut self, bids: &Vec<(i64, i64)>, asks: &Vec<(i64, i64)>) -> (r: i64)
        requires
            old(self).wf(),
            forall|i: int|
                0 <= i < bids@.len() ==> 0 <= (#[trigger] bids@[i]).0 <= VAL_CAP && 0
                    <= bids@[i].1 <= VAL_CAP,
            forall|i: int|
                0 <= i < asks@.len() ==> 0 <= (#[trigger] asks@[i]).0 <= VAL_CAP && 0
                    <= asks@[i].1 <= VAL_CAP,
        ensures
            final(self).wf(),
            final(self).level() == old(self).level(),
            final(self).hawkes_spec() == old(self).hawkes_spec(),
            final(self).last_trade_spec() == old(self).last_trade_spec(),
            bids@.len() == 0 || asks@.len() == 0 ==> r == 0 && *final(self) == *old(self),
            bids@.len() > 0 && asks@.len() > 0 ==> ({
                let idx: int = if old(self).level() > 0 {
                    old(self).level() - 1
                } else {
                    0
                };
                let imb: int = if idx < bids@.len() && idx < asks@.len() {
                    spec_level_imbalance(bids@[idx].1 as int, asks@[idx].1 as int)
                } else {
                    0
                };
                &&& final(self).mid_x2_spec() == bids@[0].0 + asks@[0].0
                &&& r == spec_strategy_signal(
                    imb,
                    spec_momentum_x2(
                        old(self).last_trade_spec() as int,
                        bids@[0].0 + asks@[0].0,
                    ),
                )
            }),
    {
        if bids.len() == 0 || asks.len() == 0 {
            return 0;
        }
        let mid_x2: i64 = bids[0].0 + asks[0].0;
        self.mid_price_x2 = mid_x2;
        let idx: usize = if self.deep_level > 0 {
            self.deep_level - 1
        } else {
            0
        };
        let imb: i64 = if idx < bids.len() && idx < asks.len() {
            let bq = bids[idx].1;
            let aq = asks[idx].1;
            if bq + aq > 0 {
                proof {
                    assert(-(2 * VAL_CAP * SCALE) <= (bq - aq) * SCALE <= 2 * VAL_CAP
                        * SCALE) by (nonlinear_arith)
                        requires
                            -2 * VAL_CAP <= bq - aq <= 2 * VAL_CAP,
                    ;
                }
                let num: i128 = ((bq - aq) as i128) * (SCALE as i128);
                let q = div_i128(num, (bq + aq) as i128);
                proof {
                    crate::alpha_transient::lemma_div_tr_abs_le(num as int, (bq + aq) as int);
                }
                q as i64
            } else {
                0
            }
        } else {
            0
        };
        let mom_x2: i64 = if self.last_trade_price > 0 {
            2 * self.last_trade_price - mid_x2
        } else {
            0
        };
        proof {
            assert(-(4 * VAL_CAP * SCALE) <= mom_x2 * SCALE <= 4 * VAL_CAP
                * SCALE) by (nonlinear_arith)
                requires
                    -4 * VAL_CAP <= mom_x2 <= 4 * VAL_CAP,
            ;
        }
        let mnum: i128 = (mom_x2 as i128) * (SCALE as i128);
        let mterm = div_i128(mnum, 4);
        proof {
            crate::alpha_transient::lemma_div_tr_abs_le(mnum as int, 4);
        }
        imb + (mterm as i64)
    }

    /// Record a trade: remember its price and feed the intensity tracker
    /// one event at the trade's timestamp; returns the new intensity.
    pub fn on_trade(&mut self, ts: i64, price: i64, _qty: i64, _is_buyer_maker: bool) -> (r: i64)
        requires
            old(self).wf(),
            0 <= ts,
            0 <= price <= VAL_CAP,
        ensures
            final(self).wf(),
            final(self).last_trade_spec() == price,
            final(self).mid_x2_spec() == old(self).mid_x2_spec(),
            final(self).hawkes_spec().last_ts_spec() == ts,
            r == final(self).hawkes_spec().intensity_spec(),
            final(self).hawkes_spec().intensity_spec() == sat_i64(
                spec_decayed(
                    old(self).hawkes_spec().mu_spec() as int,
                    old(self).hawkes_spec().beta_spec() as int,
                    old(self).hawkes_spec().intensity_spec() as int,
                    old(self).hawkes_spec().last_ts_spec() as int,
                    ts as int,
                ) + old(self).hawkes_spec().alpha_spec(),
            ),
    {
        self.last_trade_price = price;
        self.hawkes.update(ts, true)
    }

    /// Current signal state: the intensity and twice the momentum.
    pub fn get_signal(&self) -> (r: (i64, i64))
        requires
            self.wf(),
        ensures
            r.0 == self.hawkes_spec().intensity_spec(),
            r.1 == spec_momentum_x2(self.last_trade_spec() as int, self.mid_x2_spec() as int),
    {
        let mom_x2: i64 = if self.last_trade_price > 0 {
            2 * self.last_trade_price - self.mid_price_x2
        } else {
            0
        };
        (self.hawkes.intensity_value(), mom_x2)
    }
}

impl HawkesTracker {
    /// The current intensity, readable without an update.
    pub fn intensity_value(&self) -> (r: i64)
        ensures
            r == self.intensity_spec(),
    {
        self.intensity
    }
}

} // verus!
