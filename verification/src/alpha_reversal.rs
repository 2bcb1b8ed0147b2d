//! Regime-reversal factor: the negated relative deviation of the mid
//! price from its rolling simple moving average, gated by the same
//! smoothed volatility threshold as the pressure factor.  The average is
//! kept as an O(1) rolling sum over a fixed circular buffer of mids.

use vstd::prelude::*;

use crate::SCALE;
use crate::alpha_flow::WINDOW_CAP;
use crate::fixed::{div_i128, div_i64, div_tr};
use crate::lob::LimitOrderBook;
use crate::signal_math::{
    ewma_alpha, lemma_div_tr_bound, lemma_seq_sum_bound, lemma_seq_sum_take_unfold,
    lemma_seq_sum_take_update, lemma_seq_sum_update, seq_sum, VAL_CAP,
};
use crate::vol::{spec_gate_closed, spec_vol_observe, VolMonitor};

verus! {

/// The reversal value for a mid and its window average: the negated
/// relative deviation in micro-units, 0 for an empty or zero average.
pub open spec fn spec_reversal_value(mid_x2: int, sum: int, count: int) -> int {
    if count > 0 {
        let ma = div_tr(sum, count);
        if ma > 0 {
            -div_tr((mid_x2 - ma) * SCALE, ma)
        } else {
            0
        }
    } else {
        0
    }
}

/// Regime-reversal factor state.
pub struct AlphaRegimeReversal {
    vol: VolMonitor,
    vol_threshold: i64,
    buffer: Vec<i64>,
    sum: i64,
    idx: usize,
    count: usize,
}

impl AlphaRegimeReversal {
    /// The embedded volatility monitor.
    pub closed spec fn vol_spec(&self) -> VolMonitor {
        self.vol
    }

    /// The gating threshold (micro-units of deviation).
    pub closed spec fn threshold(&self) -> i64 {
        self.vol_threshold
    }

    /// The circular buffer of stored mids (twice the mid, scaled).
    pub closed spec fn buf(&self) -> Seq<i64> {
        self.buffer@
    }

    /// How many window slots are filled.
    pub closed spec fn count_spec(&self) -> nat {
        self.count as nat
    }

    /// The rolling sum of the filled slots.
    pub closed spec fn sum_spec(&self) -> i64 {
        self.sum
    }

    /// The slot the next mid will replace.
    pub closed spec fn idx_spec(&self) -> nat {
        self.idx as nat
    }

    /// Well-formed: the monitor is, the buffer is one whole window with
    /// bounded entries, and the rolling sum equals the filled prefix
    /// while the window fills, then the whole buffer.
    pub closed spec fn wf(&self) -> bool {
        &&& self.vol.wf()
        &&& 1 <= self.buffer@.len() <= WINDOW_CAP
        &&& self.idx < self.buffer@.len()
        &&& self.count <= self.buffer@.len()
        &&& forall|i: int| 0 <= i < self.buffer@.len() ==> 0 <= #[trigger] self.buffer@[i] <= 4
            * VAL_CAP
        &&& (self.count < self.buffer@.len() ==> self.idx == self.count && self.sum == seq_sum(
            self.buffer@.take(self.count as int),
        ))
        &&& (self.count == self.buffer@.len() ==> self.sum == seq_sum(self.buffer@))
    }

    pub fn new(vol_window: usize, vol_threshold: i64, sma_window: usize) -> (r: AlphaRegimeReversal)
        requires
            1 <= vol_window <= 0xffff_ffff,
            1 <= sma_window <= WINDOW_CAP,
        ensures
            r.wf(),
            r.threshold() == vol_threshold,
            r.count_spec() == 0,
            r.buf().len() == sma_window,
            !r.vol_spec().initialized_spec(),
    {
        let mut buffer: Vec<i64> = Vec::new();
        let mut i: usize = 0;
        while i < sma_window
            invariant
                0 <= i <= sma_window,
                buffer@.len() == i,
                forall|j: int| 0 <= j < i ==> #[trigger] buffer@[j] == 0i64,
            decreases sma_window - i,
        {
            buffer.push(0);
            i += 1;
        }
        let r = AlphaRegimeReversal {
            vol: VolMonitor::new(ewma_alpha(vol_window)),
            vol_threshold,
            buffer,
            sum: 0,
            idx: 0,
            count: 0,
        };
        proof {
            assert(r.buffer@.take(0) =~= Seq::<i64>::empty());
        }
        r
    }

    /// Process one book snapshot: an empty side leaves the state untouched
    /// and yields 0; otherwise the mid enters the volatility monitor and
    /// the rolling window, and the result is 0 while the deviation sits
    /// under the threshold, else the negated deviation of the mid from the
    /// window average.
    pub fn calculate(&mut self, lob: &LimitOrderBook) -> (r: i64)
        requires
            old(self).wf(),
            lob.wf(),
            forall|i: int| 0 <= i < lob.bids@.len() ==> (#[trigger] lob.bids@[i]).0 <= VAL_CAP,
            forall|i: int| 0 <= i < lob.asks@.len() ==> (#[trigger] lob.asks@[i]).0 <= VAL_CAP,
        ensures
            final(self).wf(),
            final(self).threshold() == old(self).threshold(),
            final(self).buf().len() == old(self).buf().len(),
            lob.bids@.len() == 0 || lob.asks@.len() == 0 ==> r == 0 && *final(self) == *old(self),
            lob.bids@.len() > 0 && lob.asks@.len() > 0 ==> ({
                let bb = lob.bids@[lob.bids@.len() - 1];
                let ba = lob.asks@[0];
                let mid_x2: int = bb.0 + ba.0;
                let vol_known = old(self).vol_spec().initialized_spec() && mid_x2 > 0 && old(
                    self,
                ).vol_spec().prev_mid_spec() > 0;
                let filling = old(self).count_spec() < old(self).buf().len();
                &&& final(self).vol_spec().variance() == spec_vol_observe(
                    old(self).vol_spec().initialized_spec(),
                    old(self).vol_spec().prev_mid_spec() as int,
                    old(self).vol_spec().variance() as int,
                    old(self).vol_spec().alpha_spec() as int,
                    mid_x2,
                )
                &&& final(self).count_spec() == if filling {
                    old(self).count_spec() + 1
                } else {
                    old(self).count_spec()
                }
                &&& final(self).sum_spec() == if filling {
                    old(self).sum_spec() + mid_x2
                } else {
                    old(self).sum_spec() - old(self).buf()[old(self).idx_spec() as int] + mid_x2
                }
                &&& r == if spec_gate_closed(
                    final(self).vol_spec().variance() as int,
                    vol_known,
                    old(self).threshold() as int,
                ) {
                    0
                } else {
                    spec_reversal_value(
                        mid_x2,
                        final(self).sum_spec() as int,
                        final(self).count_spec() as int,
                    )
                }
            }),
    {
        let nb = lob.bids.len();
        if nb == 0 || lob.asks.len() == 0 {
            return 0;
        }
        let bb = lob.bids[nb - 1];
        let ba = lob.asks[0];
        let mid_x2: i64 = (bb.0 as i64) + (ba.0 as i64);
        let vol_known = self.vol.observe(mid_x2);
        let window = self.buffer.len();
        let old_val: i64 = self.buffer[self.idx];
        let ghost pre_buf = self.buffer@;
        proof {
            if self.count < window {
                lemma_seq_sum_take_update(pre_buf, self.count as int, self.idx as int, mid_x2);
                lemma_seq_sum_take_unfold(pre_buf.update(self.idx as int, mid_x2), self.count as int);
            } else {
                lemma_seq_sum_update(pre_buf, self.idx as int, mid_x2);
            }
            lemma_seq_sum_bound(pre_buf, 4 * VAL_CAP as int);
            assert(pre_buf.len() * (4 * VAL_CAP) <= WINDOW_CAP * (4 * VAL_CAP)) by (
            nonlinear_arith)
                requires
                    pre_buf.len() <= WINDOW_CAP,
            ;
            if self.count < window {
                crate::signal_math::lemma_seq_sum_bound(
                    pre_buf.take(self.count as int),
                    4 * VAL_CAP as int,
                );
                assert(self.count * (4 * VAL_CAP) <= WINDOW_CAP * (4 * VAL_CAP)) by (
                nonlinear_arith)
                    requires
                        self.count <= WINDOW_CAP,
                ;
            }
        }
        self.buffer.set(self.idx, mid_x2);
        if self.count < window {
            self.sum = self.sum + mid_x2;
            self.count = self.count + 1;
        } else {
            self.sum = self.sum - old_val + mid_x2;
        }
        self.idx = if self.idx + 1 == window {
            0
        } else {
            self.idx + 1
        };
        proof {
            if self.count < self.buffer@.len() {
                assert(self.buffer@.take(self.count as int) =~= pre_buf.update(
                    old(self).idx as int,
                    mid_x2,
                ).take(self.count as int));
            }
        }
        if self.vol.below_threshold(self.vol_threshold, vol_known) {
            return 0;
        }
        if self.count > 0 {
            proof {
                lemma_seq_sum_bound_current(self);
            }
            let ma: i64 = div_i64(self.sum, self.count as i64);
            proof {
                lemma_div_tr_bound(self.sum as int, self.count as int, 4 * VAL_CAP as int);
            }
            if ma > 0 {
                let d: i64 = mid_x2 - ma;
                proof {
                    assert(-(8 * VAL_CAP * SCALE) <= d * SCALE <= 8 * VAL_CAP
                        * SCALE) by (nonlinear_arith)
                        requires
                            -8 * VAL_CAP <= d <= 8 * VAL_CAP,
                    ;
                }
                let num: i128 = (d as i128) * (SCALE as i128);
                let q: i128 = div_i128(num, ma as i128);
                proof {
                    crate::alpha_transient::lemma_div_tr_abs_le(num as int, ma as int);
                }
                return -(q as i64);
            }
            return 0;
        }
        0
    }

    /// Current deviation in micro-units (exact integer square root of the
    /// scaled variance).
    pub fn get_current_vol(&self) -> (r: i64)
        requires
            self.wf(),
        ensures
            0 <= r,
            (r as int) * (r as int) <= self.vol_spec().variance() * SCALE,
            (r as int + 1) * (r as int + 1) > self.vol_spec().variance() * SCALE,
    {
        self.vol.current_vol()
    }

    /// Current window average (twice the mid, scaled), 0 while empty.
    pub fn get_current_ma(&self) -> (r: i64)
        requires
            self.wf(),
        ensures
            r == if self.count_spec() > 0 {
                div_tr(self.sum_spec() as int, self.count_spec() as int)
            } else {
                0
            },
    {
        if self.count > 0 {
            proof {
                lemma_seq_sum_bound_current(self);
            }
            div_i64(self.sum, self.count as i64)
        } else {
            0
        }
    }
}

/// The rolling sum is bounded by the window bound on its entries.
proof fn lemma_seq_sum_bound_current(a: &AlphaRegimeReversal)
    requires
        a.wf(),
    ensures
        0 <= a.sum_spec() <= a.count_spec() * (4 * VAL_CAP),
        a.count_spec() * (4 * VAL_CAP) <= WINDOW_CAP * (4 * VAL_CAP),
        a.count_spec() <= WINDOW_CAP,
{
    if a.count_spec() < a.buf().len() {
        lemma_seq_sum_bound(a.buf().take(a.count_spec() as int), 4 * VAL_CAP as int);
    } else {
        lemma_seq_sum_bound(a.buf(), 4 * VAL_CAP as int);
    }
    assert(a.count_spec() * (4 * VAL_CAP) <= WINDOW_CAP * (4 * VAL_CAP)) by (nonlinear_arith)
        requires
            a.count_spec() <= WINDOW_CAP,
    ;
}

} // verus!
