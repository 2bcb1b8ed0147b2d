//! Top-of-book feature kernel: assembles the per-tick integer feature
//! vector from best-level data — imbalances in parts per million, a
//! quantity-weighted microprice, the level-one order-flow imbalance with
//! its running total, and three eight-tick smoothed series.  Rounding to
//! integers is round-to-nearest with ties to even.

use vstd::prelude::*;

use crate::SCALE;
use crate::fixed::sat_i64;
use crate::signal_math::{
    ewma_step_wide, round_div_te, spec_ask_flow, spec_bid_flow, spec_ewma_step, spec_round_div_te,
    VAL_CAP, WIDE_CAP,
};

verus! {

/// Smoothing constant for the eight-tick averages: `2 / 9` in
/// micro-units.
pub const ALPHA_8: i64 = 222_222;

/// Imbalance of two non-negative quantities in parts per million, rounded
/// ties-to-even; 0 when both are zero.
pub open spec fn spec_imb_ppm(b: int, a: int) -> int {
    if b + a > 0 {
        sat_i64(spec_round_div_te((b - a) * 1_000_000, b + a))
    } else {
        0
    }
}

/// Twice the quantity-weighted microprice, rounded ties-to-even; falls
/// back to twice the mid when the level is empty.
pub open spec fn spec_microprice_x2(bb: int, ba: int, mid_x2: int, bq: int, aq: int) -> int {
    if bq + aq > 0 {
        sat_i64(spec_round_div_te(2 * (ba * bq + bb * aq), bq + aq))
    } else {
        mid_x2
    }
}

/// Level-one order-flow imbalance between two best-level snapshots.
pub open spec fn spec_ofi_l1(
    bb: int,
    ba: int,
    bq: int,
    aq: int,
    pbb: int,
    pba: int,
    pbq: int,
    paq: int,
) -> int {
    spec_bid_flow(bb, bq, pbb, pbq) - spec_ask_flow(ba, aq, pba, paq)
}

/// Clamp a possibly negative input to zero.
pub open spec fn spec_at_least_zero(x: int) -> int {
    if x < 0 {
        0
    } else {
        x
    }
}

/// Per-tick feature kernel state: the previous best-level snapshot, the
/// running order-flow total, and three smoothed series in micro-units.
pub struct LobFeatureKernelV1 {
    prev_best_bid: i64,
    prev_best_ask: i64,
    prev_l1_bid_qty: i64,
    prev_l1_ask_qty: i64,
    ofi_l1_cum: i64,
    ofi_l1_ema8: i64,
    spread_ema8: i64,
    imbalance_ema8_ppm: i64,
    initialized: bool,
}

impl LobFeatureKernelV1 {
    /// Previous snapshot (best bid, best ask, bid quantity, ask quantity).
    pub closed spec fn prev_spec(&self) -> (i64, i64, i64, i64) {
        (self.prev_best_bid, self.prev_best_ask, self.prev_l1_bid_qty, self.prev_l1_ask_qty)
    }

    /// Running order-flow total.
    pub closed spec fn ofi_cum_spec(&self) -> i64 {
        self.ofi_l1_cum
    }

    /// The three smoothed series in micro-units (order flow, spread,
    /// imbalance).
    pub closed spec fn emas_spec(&self) -> (i64, i64, i64) {
        (self.ofi_l1_ema8, self.spread_ema8, self.imbalance_ema8_ppm)
    }

    /// Whether a first snapshot was seen.
    pub closed spec fn initialized_spec(&self) -> bool {
        self.initialized
    }

    pub closed spec fn wf(&self) -> bool {
        &&& 0 <= self.prev_l1_bid_qty <= VAL_CAP
        &&& 0 <= self.prev_l1_ask_qty <= VAL_CAP
        &&& -WIDE_CAP <= self.ofi_l1_ema8 <= WIDE_CAP
        &&& -WIDE_CAP <= self.spread_ema8 <= WIDE_CAP
        &&& -WIDE_CAP <= self.imbalance_ema8_ppm <= WIDE_CAP
    }

    pub fn new() -> (r: LobFeatureKernelV1)
        ensures
            r.wf(),
            !r.initialized_spec(),
            r.ofi_cum_spec() == 0,
            r.emas_spec() == (0i64, 0i64, 0i64),
            r.prev_spec() == (0i64, 0i64, 0i64, 0i64),
    {
        LobFeatureKernelV1 {
            prev_best_bid: 0,
            prev_best_ask: 0,
            prev_l1_bid_qty: 0,
            prev_l1_ask_qty: 0,
            ofi_l1_cum: 0,
            ofi_l1_ema8: 0,
            spread_ema8: 0,
            imbalance_ema8_ppm: 0,
            initialized: false,
        }
    }

    /// Forget all state.
    pub fn reset(&mut self)
        ensures
            final(self).wf(),
            !final(self).initialized_spec(),
            final(self).ofi_cum_spec() == 0,
            final(self).emas_spec() == (0i64, 0i64, 0i64),
            final(self).prev_spec() == (0i64, 0i64, 0i64, 0i64),
    {
        self.prev_best_bid = 0;
        self.prev_best_ask = 0;
        self.prev_l1_bid_qty = 0;
        self.prev_l1_ask_qty = 0;
        self.ofi_l1_cum = 0;
        self.ofi_l1_ema8 = 0;
        self.spread_ema8 = 0;
        self.imbalance_ema8_ppm = 0;
        self.initialized = false;
    }

    /// Fold one best-level snapshot into the kernel and return the
    /// sixteen-element feature vector: the raw inputs, the depth and
    /// level-one imbalances in parts per million, the microprice, the raw
    /// and cumulative order flow, and the rounded smoothed series.  The
    /// first snapshot seeds the averages; negative depths and quantities
    /// are treated as zero.
    #[verifier::rlimit(100)]
    pub fn update(
        &mut self,
        best_bid: i64,
        best_ask: i64,
        mid_price_x2: i64,
        spread_scaled: i64,
        bid_depth: i64,
        ask_depth: i64,
        l1_bid_qty: i64,
        l1_ask_qty: i64,
    ) -> (out: Vec<i64>)
        requires
            old(self).wf(),
            -VAL_CAP <= best_bid <= VAL_CAP,
            -VAL_CAP <= best_ask <= VAL_CAP,
            -VAL_CAP <= mid_price_x2 <= VAL_CAP,
            -VAL_CAP <= spread_scaled <= VAL_CAP,
            bid_depth <= VAL_CAP,
            ask_depth <= VAL_CAP,
            l1_bid_qty <= VAL_CAP,
            l1_ask_qty <= VAL_CAP,
        ensures
            final(self).wf(),
            final(self).initialized_spec(),
            out@.len() == 16,
            ({
                let bd = spec_at_least_zero(bid_depth as int);
                let ad = spec_at_least_zero(ask_depth as int);
                let bq = spec_at_least_zero(l1_bid_qty as int);
                let aq = spec_at_least_zero(l1_ask_qty as int);
                let l1_imb: int = if bq + aq > 0 {
                    spec_imb_ppm(bq, aq)
                } else {
                    0
                };
                let prev = old(self).prev_spec();
                let ofi_raw: int = if old(self).initialized_spec() {
                    spec_ofi_l1(
                        best_bid as int,
                        best_ask as int,
                        bq,
                        aq,
                        prev.0 as int,
                        prev.1 as int,
                        prev.2 as int,
                        prev.3 as int,
                    )
                } else {
                    0
                };
                &&& final(self).prev_spec() == (best_bid, best_ask, bq as i64, aq as i64)
                &&& final(self).ofi_cum_spec() == if old(self).initialized_spec() {
                    sat_i64(old(self).ofi_cum_spec() + ofi_raw)
                } else {
                    old(self).ofi_cum_spec() as int
                }
                &&& final(self).emas_spec() == (if old(self).initialized_spec() {
                    (
                        spec_ewma_step(
                            old(self).emas_spec().0 as int,
                            ofi_raw * SCALE,
                            ALPHA_8 as int,
                        ) as i64,
                        spec_ewma_step(
                            old(self).emas_spec().1 as int,
                            spread_scaled * SCALE,
                            ALPHA_8 as int,
                        ) as i64,
                        spec_ewma_step(
                            old(self).emas_spec().2 as int,
                            l1_imb * SCALE,
                            ALPHA_8 as int,
                        ) as i64,
                    )
                } else {
                    ((0i64, (spread_scaled * SCALE) as i64, (l1_imb * SCALE) as i64))
                })
                &&& out@[0] == best_bid
                &&& out@[1] == best_ask
                &&& out@[2] == mid_price_x2
                &&& out@[3] == spread_scaled
                &&& out@[4] == bd
                &&& out@[5] == ad
                &&& out@[6] == spec_imb_ppm(bd, ad)
                &&& out@[7] == spec_microprice_x2(
                    best_bid as int,
                    best_ask as int,
                    mid_price_x2 as int,
                    bq,
                    aq,
                )
                &&& out@[8] == bq
                &&& out@[9] == aq
                &&& out@[10] == l1_imb
                &&& out@[11] == ofi_raw
                &&& out@[12] == final(self).ofi_cum_spec()
                &&& out@[13] == sat_i64(
                    spec_round_div_te(final(self).emas_spec().0 as int, SCALE as int),
                )
                &&& out@[14] == sat_i64(
                    spec_round_div_te(final(self).emas_spec().1 as int, SCALE as int),
                )
                &&& out@[15] == sat_i64(
                    spec_round_div_te(final(self).emas_spec().2 as int, SCALE as int),
                )
            }),
    {
        let bd: i64 = if bid_depth < 0 {
            0
        } else {
            bid_depth
        };
        let ad: i64 = if ask_depth < 0 {
            0
        } else {
            ask_depth
        };
        let bq: i64 = if l1_bid_qty < 0 {
            0
        } else {
            l1_bid_qty
        };
        let aq: i64 = if l1_ask_qty < 0 {
            0
        } else {
            l1_ask_qty
        };
        let imbalance_ppm: i64 = if bd + ad > 0 {
            proof {
                lemma_feat_products(bd as int, ad as int);
            }
            round_div_te(((bd - ad) as i128) * 1_000_000, (bd + ad) as i128)
        } else {
            0
        };
        let l1_total: i64 = bq + aq;
        let (l1_imb, microprice_x2): (i64, i64) = if l1_total > 0 {
            proof {
                lemma_feat_products(bq as int, aq as int);
                lemma_micro_products(best_bid as int, best_ask as int, bq as int, aq as int);
            }
            let imb = round_div_te(((bq - aq) as i128) * 1_000_000, l1_total as i128);
            proof {
                assert(-(1_000_000 * (l1_total as int)) <= ((bq - aq) as int) * 1_000_000
                    <= 1_000_000 * (l1_total as int)) by (nonlinear_arith)
                    requires
                        0 <= bq && 0 <= aq && l1_total == bq + aq && l1_total > 0,
                ;
                crate::signal_math::lemma_round_div_bound(
                    ((bq - aq) as int) * 1_000_000,
                    l1_total as int,
                    1_000_000,
                );
            }
            let mp = round_div_te(
                2 * ((best_ask as i128) * (bq as i128) + (best_bid as i128) * (aq as i128)),
                l1_total as i128,
            );
            (imb, mp)
        } else {
            (0, mid_price_x2)
        };
        let mut ofi_raw: i64 = 0;
        if self.initialized {
            let b_flow = crate::signal_math::bid_flow(
                best_bid,
                bq,
                self.prev_best_bid,
                self.prev_l1_bid_qty,
            );
            let a_flow = crate::signal_math::ask_flow(
                best_ask,
                aq,
                self.prev_best_ask,
                self.prev_l1_ask_qty,
            );
            ofi_raw = b_flow - a_flow;
            self.ofi_l1_cum = crate::fixed::sat_add_i64(self.ofi_l1_cum, ofi_raw);
            proof {
                lemma_feat_scale(ofi_raw as int);
                lemma_feat_scale(spread_scaled as int);
                lemma_feat_scale(l1_imb as int);
            }
            self.ofi_l1_ema8 = ewma_step_wide(self.ofi_l1_ema8, ofi_raw * SCALE, ALPHA_8);
            self.spread_ema8 = ewma_step_wide(self.spread_ema8, spread_scaled * SCALE, ALPHA_8);
            self.imbalance_ema8_ppm = ewma_step_wide(
                self.imbalance_ema8_ppm,
                l1_imb * SCALE,
                ALPHA_8,
            );
        } else {
            proof {
                lemma_feat_scale(spread_scaled as int);
                lemma_feat_scale(l1_imb as int);
            }
            self.ofi_l1_ema8 = 0;
            self.spread_ema8 = spread_scaled * SCALE;
            self.imbalance_ema8_ppm = l1_imb * SCALE;
        }
        self.initialized = true;
        self.prev_best_bid = best_bid;
        self.prev_best_ask = best_ask;
        self.prev_l1_bid_qty = bq;
        self.prev_l1_ask_qty = aq;
        let ema_ofi_out = round_div_te(self.ofi_l1_ema8 as i128, SCALE as i128);
        let ema_spread_out = round_div_te(self.spread_ema8 as i128, SCALE as i128);
        let ema_imb_out = round_div_te(self.imbalance_ema8_ppm as i128, SCALE as i128);
        let mut out: Vec<i64> = Vec::new();
        out.push(best_bid);
        out.push(best_ask);
        out.push(mid_price_x2);
        out.push(spread_scaled);
        out.push(bd);
        out.push(ad);
        out.push(imbalance_ppm);
        out.push(microprice_x2);
        out.push(bq);
        out.push(aq);
        out.push(l1_imb);
        out.push(ofi_raw);
        out.push(self.ofi_l1_cum);
        out.push(ema_ofi_out);
        out.push(ema_spread_out);
        out.push(ema_imb_out);
        out
    }
}

/// Bounds for the parts-per-million numerators.
proof fn lemma_feat_products(b: int, a: int)
    requires
        0 <= b <= VAL_CAP,
        0 <= a <= VAL_CAP,
    ensures
        -0x1_0000_0000_0000_0000_0000_0000 <= (b - a) * 1_000_000
            <= 0x1_0000_0000_0000_0000_0000_0000,
{
    assert(-(VAL_CAP * 1_000_000) <= (b - a) * 1_000_000 <= VAL_CAP * 1_000_000) by (
    nonlinear_arith)
        requires
            -VAL_CAP <= b - a <= VAL_CAP,
    ;
}

/// Bounds for the microprice numerator.
proof fn lemma_micro_products(bb: int, ba: int, bq: int, aq: int)
    requires
        -VAL_CAP <= bb <= VAL_CAP,
        -VAL_CAP <= ba <= VAL_CAP,
        0 <= bq <= VAL_CAP,
        0 <= aq <= VAL_CAP,
    ensures
        -0x1_0000_0000_0000_0000_0000_0000 <= 2 * (ba * bq + bb * aq)
            <= 0x1_0000_0000_0000_0000_0000_0000,
        -(VAL_CAP * VAL_CAP) <= ba * bq <= VAL_CAP * VAL_CAP,
        -(VAL_CAP * VAL_CAP) <= bb * aq <= VAL_CAP * VAL_CAP,
{
    assert(-(VAL_CAP * VAL_CAP) <= ba * bq <= VAL_CAP * VAL_CAP) by (nonlinear_arith)
        requires
            -VAL_CAP <= ba <= VAL_CAP && 0 <= bq <= VAL_CAP,
    ;
    assert(-(VAL_CAP * VAL_CAP) <= bb * aq <= VAL_CAP * VAL_CAP) by (nonlinear_arith)
        requires
            -VAL_CAP <= bb <= VAL_CAP && 0 <= aq <= VAL_CAP,
    ;
}

/// Values scaled to micro-units stay inside the wide smoothing range.
proof fn lemma_feat_scale(x: int)
    requires
        -4 * VAL_CAP <= x <= 4 * VAL_CAP,
    ensures
        -WIDE_CAP <= x * SCALE <= WIDE_CAP,
{
    assert(-(4 * VAL_CAP * SCALE) <= x * SCALE <= 4 * VAL_CAP * SCALE) by (nonlinear_arith)
        requires
            -4 * VAL_CAP <= x <= 4 * VAL_CAP,
    ;
}

} // verus!
