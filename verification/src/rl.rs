//! Feature assembly for the downstream inference model.
//!
//! The model itself is an external collaborator that maps a fixed-length
//! numeric vector to a discrete action index; this module only maintains
//! the microprice and decayed order-flow state and assembles the
//! eleven-element vector (level imbalances, a reserved momentum slot,
//! three reserved zero slots, the microprice deviation, the decayed order
//! flow, and the current inventory), all in micro-unit fixed point.

use vstd::prelude::*;

use crate::SCALE;
use crate::fixed::{div_i128, div_tr, sat_add_i64, sat_i64};
use crate::signal_math::{ask_flow, bid_flow, spec_ask_flow, spec_bid_flow, VAL_CAP};

verus! {

/// Decay kept on the order-flow accumulator each tick: nine tenths.
pub const OFI_KEEP_NUM: i64 = 9;

/// Decay denominator.
pub const OFI_KEEP_DEN: i64 = 10;

/// Static strategy configuration.
pub struct RLParams {
    pub max_position: i64,
    pub tick_size: i64,
}

impl RLParams {
    pub fn new(max_position: i64, tick_size: i64) -> (r: RLParams)
        ensures
            r.max_position == max_position,
            r.tick_size == tick_size,
    {
        RLParams { max_position, tick_size }
    }
}

/// Quantity imbalance of one level in micro-units, 0 on an empty level.
pub open spec fn spec_qty_imb(bq: int, aq: int) -> int {
    if bq + aq > 0 {
        div_tr((bq - aq) * SCALE, bq + aq)
    } else {
        0
    }
}

/// The cubed normalized imbalance in micro-units: emphasizes extreme
/// imbalance while staying within `[-1, 1]`.
pub open spec fn spec_imb_cubed(t: int) -> int {
    div_tr(div_tr(t * t, SCALE as int) * t, SCALE as int)
}

/// Twice the microprice deviation from the mid: the spread scaled by the
/// cubed imbalance (the factor one half cancels against working on twice
/// the deviation).
pub open spec fn spec_micro_dev_x2(spread: int, t: int) -> int {
    div_tr(spread * spec_imb_cubed(t), SCALE as int)
}

/// One step of the decayed order-flow accumulator.
pub open spec fn spec_ofi_decay_step(ofi: int, raw: int) -> int {
    raw + div_tr(ofi * OFI_KEEP_NUM, OFI_KEEP_DEN as int)
}

/// Feature-assembly state for the inference model.
pub struct RLStrategy {
    params: RLParams,
    inventory: i64,
    microprice_dev_x2: i64,
    ofi_i: i64,
    prev_best_bid: i64,
    prev_best_ask: i64,
    prev_bid_qty: i64,
    prev_ask_qty: i64,
}

impl RLStrategy {
    /// Current inventory (signed lots).
    pub closed spec fn inventory_spec(&self) -> i64 {
        self.inventory
    }

    /// Twice the microprice deviation of the last snapshot.
    pub closed spec fn micro_dev_spec(&self) -> i64 {
        self.microprice_dev_x2
    }

    /// The decayed order-flow accumulator.
    pub closed spec fn ofi_spec(&self) -> i64 {
        self.ofi_i
    }

    /// The previous best-level snapshot.
    pub closed spec fn prev_spec(&self) -> (i64, i64, i64, i64) {
        (self.prev_best_bid, self.prev_best_ask, self.prev_bid_qty, self.prev_ask_qty)
    }

    pub closed spec fn wf(&self) -> bool {
        &&& 0 <= self.prev_bid_qty <= VAL_CAP
        &&& 0 <= self.prev_ask_qty <= VAL_CAP
        &&& -40 * VAL_CAP <= self.ofi_i <= 40 * VAL_CAP
    }

    pub fn new(params: RLParams) -> (r: RLStrategy)
        ensures
            r.wf(),
            r.inventory_spec() == 0,
            r.ofi_spec() == 0,
            r.prev_spec() == (0i64, 0i64, 0i64, 0i64),
    {
        RLStrategy {
            params,
            inventory: 0,
            microprice_dev_x2: 0,
            ofi_i: 0,
            prev_best_bid: 0,
            prev_best_ask: 0,
            prev_bid_qty: 0,
            prev_ask_qty: 0,
        }
    }

    /// Record an inventory change (saturating).
    pub fn update_position(&mut self, change: i64)
        requires
            old(self).wf(),
        ensures
            final(self).wf(),
            final(self).inventory_spec() == sat_i64(old(self).inventory_spec() + change),
            final(self).ofi_spec() == old(self).ofi_spec(),
            final(self).prev_spec() == old(self).prev_spec(),
    {
        self.inventory = sat_add_i64(self.inventory, change);
    }

    /// Fold one book snapshot (both sides best-first) into the microprice
    /// and order-flow state and return the eleven-element feature vector.
    pub fn on_depth(&mut self, bids: &Vec<(i64, i64)>, asks: &Vec<(i64, i64)>) -> (out: Vec<i64>)
        requires
            old(self).wf(),
            forall|i: int|
                0 <= i < bids@.len() ==> 0 <= (#[trigger] bids@[i]).0 <= VAL_CAP && 0
                    <= bids@[i].1 <= VAL_CAP,
            forall|i: int|
                0 <= i < asks@.len() ==> 0 <= (#[trigger] asks@[i]).0 <= VAL_CAP && 0
                    <= asks@[i].1 <= VAL_CAP,
        ensures
            final(self).wf(),
            final(self).inventory_spec() == old(self).inventory_spec(),
            out@.len() == 11,
            ({
                let bb: int = if bids@.len() > 0 {
                    bids@[0].0 as int
                } else {
                    0
                };
                let ba: int = if asks@.len() > 0 {
                    asks@[0].0 as int
                } else {
                    0
                };
                let bq: int = if bids@.len() > 0 {
                    bids@[0].1 as int
                } else {
                    0
                };
                let aq: int = if asks@.len() > 0 {
                    asks@[0].1 as int
                } else {
                    0
                };
                let t: int = if bq + aq > 0 {
                    spec_qty_imb(bq, aq)
                } else {
                    0
                };
                let prev = old(self).prev_spec();
                let raw: int = spec_bid_flow(bb, bq, prev.0 as int, prev.2 as int)
                    - spec_ask_flow(ba, aq, prev.1 as int, prev.3 as int);
                let lvl = |k: int| -> int {
                    let b: int = if k < bids@.len() {
                        bids@[k].1 as int
                    } else {
                        0
                    };
                    let a: int = if k < asks@.len() {
                        asks@[k].1 as int
                    } else {
                        0
                    };
                    spec_qty_imb(b, a)
                };
                &&& final(self).prev_spec() == (bb as i64, ba as i64, bq as i64, aq as i64)
                &&& final(self).ofi_spec() == spec_ofi_decay_step(old(self).ofi_spec() as int, raw)
                &&& final(self).micro_dev_spec() == spec_micro_dev_x2(ba - bb, t)
                &&& out@[0] == lvl(2)
                &&& out@[1] == lvl(3)
                &&& out@[2] == lvl(4)
                &&& out@[3] == 0i64
                &&& out@[4] == lvl(0)
                &&& out@[5] == 0i64 && out@[6] == 0i64 && out@[7] == 0i64
                &&& out@[8] == final(self).micro_dev_spec()
                &&& out@[9] == final(self).ofi_spec()
                &&& out@[10] == old(self).inventory_spec()
            }),
    {
        let bb: i64 = if bids.len() > 0 {
            bids[0].0
        } else {
            0
        };
        let ba: i64 = if asks.len() > 0 {
            asks[0].0
        } else {
            0
        };
        let bq: i64 = if bids.len() > 0 {
            bids[0].1
        } else {
            0
        };
        let aq: i64 = if asks.len() > 0 {
            asks[0].1
        } else {
            0
        };
        // Microprice deviation from the cubed top-of-book imbalance.
        let t: i64 = level_imb(bq, aq);
        let spread: i64 = ba - bb;
        proof {
            assert(-(SCALE * SCALE) <= t * t <= SCALE * SCALE) by (nonlinear_arith)
                requires
                    -SCALE <= t <= SCALE,
            ;
            crate::signal_math::lemma_div_tr_bound(t * t, SCALE as int, SCALE as int);
        }
        let t2: i64 = crate::fixed::div_i64(t * t, SCALE);
        proof {
            assert(-(SCALE * SCALE) <= t2 * t <= SCALE * SCALE) by (nonlinear_arith)
                requires
                    -SCALE <= t2 <= SCALE && -SCALE <= t <= SCALE,
            ;
            crate::signal_math::lemma_div_tr_bound(t2 * t, SCALE as int, SCALE as int);
        }
        let t3: i64 = crate::fixed::div_i64(t2 * t, SCALE);
        proof {
            assert(-(2 * VAL_CAP * SCALE) <= spread * t3 <= 2 * VAL_CAP * SCALE) by (
            nonlinear_arith)
                requires
                    -VAL_CAP <= spread <= VAL_CAP && -SCALE <= t3 <= SCALE,
            ;
            crate::signal_math::lemma_div_tr_bound(spread * t3, SCALE as int, 2 * VAL_CAP as int);
        }
        let dev_x2: i64 = crate::fixed::div_i64(spread * t3, SCALE);
        self.microprice_dev_x2 = dev_x2;
        // Decayed order flow.
        let d_bid = bid_flow(bb, bq, self.prev_best_bid, self.prev_bid_qty);
        let d_ask = ask_flow(ba, aq, self.prev_best_ask, self.prev_ask_qty);
        let raw: i64 = d_bid - d_ask;
        proof {
            assert(-(40 * VAL_CAP) * OFI_KEEP_NUM <= self.ofi_i * OFI_KEEP_NUM <= (40 * VAL_CAP)
                * OFI_KEEP_NUM) by (nonlinear_arith)
                requires
                    -40 * VAL_CAP <= self.ofi_i <= 40 * VAL_CAP,
            ;
            crate::signal_math::lemma_div_tr_bound(
                self.ofi_i * OFI_KEEP_NUM,
                OFI_KEEP_DEN as int,
                36 * VAL_CAP as int,
            );
        }
        let kept: i64 = crate::fixed::div_i64(self.ofi_i * OFI_KEEP_NUM, OFI_KEEP_DEN);
        self.ofi_i = raw + kept;
        self.prev_best_bid = bb;
        self.prev_best_ask = ba;
        self.prev_bid_qty = bq;
        self.prev_ask_qty = aq;
        // The vector.
        let i3 = level_imb_at(bids, asks, 2);
        let i4 = level_imb_at(bids, asks, 3);
        let i5 = level_imb_at(bids, asks, 4);
        let i1 = level_imb_at(bids, asks, 0);
        let mut out: Vec<i64> = Vec::new();
        out.push(i3);
        out.push(i4);
        out.push(i5);
        out.push(0);
        out.push(i1);
        out.push(0);
        out.push(0);
        out.push(0);
        out.push(dev_x2);
        out.push(self.ofi_i);
        out.push(self.inventory);
        out
    }
}

/// Micro-unit imbalance of one quantity pair.
fn level_imb(bq: i64, aq: i64) -> (r: i64)
    requires
        0 <= bq <= VAL_CAP,
        0 <= aq <= VAL_CAP,
    ensures
        r == spec_qty_imb(bq as int, aq as int),
        -SCALE <= r <= SCALE,
{
    if bq + aq > 0 {
        proof {
            assert(-((bq + aq) * SCALE) <= (bq - aq) * SCALE <= (bq + aq) * SCALE) by (
            nonlinear_arith)
                requires
                    0 <= bq && 0 <= aq && bq + aq > 0,
            ;
            crate::signal_math::lemma_div_tr_bound((bq - aq) * SCALE, (bq + aq) as int, SCALE as int);
        }
        let num: i128 = ((bq - aq) as i128) * (SCALE as i128);
        let q = div_i128(num, (bq + aq) as i128);
        q as i64
    } else {
        0
    }
}

/// Micro-unit imbalance at one depth level of two best-first sides.
fn level_imb_at(bids: &Vec<(i64, i64)>, asks: &Vec<(i64, i64)>, k: usize) -> (r: i64)
    requires
        forall|i: int|
            0 <= i < bids@.len() ==> 0 <= (#[trigger] bids@[i]).0 <= VAL_CAP && 0 <= bids@[i].1
                <= VAL_CAP,
        forall|i: int|
            0 <= i < asks@.len() ==> 0 <= (#[trigger] asks@[i]).0 <= VAL_CAP && 0 <= asks@[i].1
                <= VAL_CAP,
    ensures
        r == spec_qty_imb(
            if k < bids@.len() {
                bids@[k as int].1 as int
            } else {
                0
            },
            if k < asks@.len() {
                asks@[k as int].1 as int
            } else {
                0
            },
        ),
        -SCALE <= r <= SCALE,
{
    let b: i64 = if k < bids.len() {
        bids[k].1
    } else {
        0
    };
    let a: i64 = if k < asks.len() {
        asks[k].1
    } else {
        0
    };
    level_imb(b, a)
}

} // verus!
