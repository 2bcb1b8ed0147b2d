//! Matched-filter trade-flow factor: the signed trade flow summed over a
//! fast window, normalized by the mean volume over a slow window (the
//! stream's "capacity").  The factor is 0 while the slow window is still
//! filling, and 0 when no volume was seen at all.

use vstd::prelude::*;
use std::collections::VecDeque;

use crate::SCALE;
use crate::fixed::{clamp_i128_to_i64, div_i128, div_tr, sat_i64};
use crate::signal_math::{
    lemma_sum_last_bound, lemma_sum_last_skip1, lemma_sum_last_unfold, lemma_sum_prod_last_bound,
    lemma_sum_prod_last_skip1, lemma_sum_prod_last_unfold, sum_last, sum_prod_last, VAL_CAP,
};

verus! {

/// Largest accepted window length.
pub const WINDOW_CAP: usize = 0x10_0000;

/// The fast window never reaches beyond the retained history.
pub open spec fn fast_span(fast: nat, len: nat) -> nat {
    if fast <= len {
        fast
    } else {
        len
    }
}

/// The factor value over a retained history: 0 while fewer than `slow`
/// observations are retained or no volume was seen, else the fast-window
/// signed flow divided by the slow-window mean volume, in micro-units,
/// saturated to the 64-bit range.
pub open spec fn spec_flow_signal(v: Seq<i64>, s: Seq<i64>, fast: nat, slow: nat) -> int {
    if v.len() < slow {
        0
    } else {
        let sv = sum_last(v, v.len());
        if sv <= 0 {
            0
        } else {
            sat_i64(div_tr(sum_prod_last(v, s, fast_span(fast, v.len())) * slow * SCALE, sv))
        }
    }
}

/// Matched-filter trade-flow factor state.
pub struct MatchedFilterTradeFlow {
    fast_window: usize,
    slow_window: usize,
    trade_vol_history: VecDeque<i64>,
    trade_side_history: VecDeque<i64>,
    sum_signed_flow_fast: i64,
    sum_vol_slow: i64,
}

impl MatchedFilterTradeFlow {
    /// Retained volumes, oldest first.
    pub closed spec fn vols(&self) -> Seq<i64> {
        self.trade_vol_history@
    }

    /// Retained signed sides, oldest first.
    pub closed spec fn sides(&self) -> Seq<i64> {
        self.trade_side_history@
    }

    /// Fast window length.
    pub closed spec fn fast(&self) -> nat {
        self.fast_window as nat
    }

    /// Slow window length.
    pub closed spec fn slow(&self) -> nat {
        self.slow_window as nat
    }

    /// Well-formed: sane windows, aligned bounded histories no longer than
    /// the slow window, and the two running sums exactly equal to their
    /// window sums.
    pub closed spec fn wf(&self) -> bool {
        &&& 1 <= self.fast_window <= self.slow_window <= WINDOW_CAP
        &&& self.vols().len() == self.sides().len()
        &&& self.vols().len() <= self.slow_window
        &&& forall|i: int| 0 <= i < self.vols().len() ==> 0 <= #[trigger] self.vols()[i] <= VAL_CAP
        &&& forall|i: int| 0 <= i < self.sides().len() ==> -1 <= #[trigger] self.sides()[i] <= 1
        &&& self.sum_signed_flow_fast == sum_prod_last(
            self.vols(),
            self.sides(),
            fast_span(self.fast(), self.vols().len()),
        )
        &&& self.sum_vol_slow == sum_last(self.vols(), self.vols().len())
    }

    pub fn new(fast_window: usize, slow_window: usize) -> (r: MatchedFilterTradeFlow)
        requires
            1 <= fast_window <= slow_window <= WINDOW_CAP,
        ensures
            r.wf(),
            r.fast() == fast_window,
            r.slow() == slow_window,
            r.vols() == Seq::<i64>::empty(),
            r.sides() == Seq::<i64>::empty(),
    {
        let r = MatchedFilterTradeFlow {
            fast_window,
            slow_window,
            trade_vol_history: VecDeque::new(),
            trade_side_history: VecDeque::new(),
            sum_signed_flow_fast: 0,
            sum_vol_slow: 0,
        };
        proof {
            assert(r.vols() =~= Seq::<i64>::empty());
            assert(r.sides() =~= Seq::<i64>::empty());
        }
        r
    }

    /// Record one trade (volume and signed side) and return the factor
    /// value for the updated history.
    pub fn update(&mut self, trade_vol: i64, trade_side: i64) -> (r: i64)
        requires
            old(self).wf(),
            0 <= trade_vol <= VAL_CAP,
            -1 <= trade_side <= 1,
        ensures
            final(self).wf(),
            final(self).fast() == old(self).fast(),
            final(self).slow() == old(self).slow(),
            ({
                let pv = old(self).vols().push(trade_vol);
                let ps = old(self).sides().push(trade_side);
                if pv.len() > old(self).slow() {
                    final(self).vols() == pv.skip(1) && final(self).sides() == ps.skip(1)
                } else {
                    final(self).vols() == pv && final(self).sides() == ps
                }
            }),
            r == spec_flow_signal(
                final(self).vols(),
                final(self).sides(),
                old(self).fast(),
                old(self).slow(),
            ),
    {
        let ghost ospan: nat = fast_span(old(self).fast(), old(self).vols().len());
        let ghost olen: nat = old(self).vols().len();
        proof {
            lemma_sum_prod_last_bound(old(self).vols(), old(self).sides(), ospan, VAL_CAP as int);
            lemma_sum_last_bound(old(self).vols(), olen, VAL_CAP as int);
            assert(ospan * VAL_CAP <= WINDOW_CAP * VAL_CAP) by (nonlinear_arith)
                requires
                    ospan <= WINDOW_CAP,
            ;
            assert(olen * VAL_CAP <= WINDOW_CAP * VAL_CAP) by (nonlinear_arith)
                requires
                    olen <= WINDOW_CAP,
            ;
            assert(-VAL_CAP <= trade_vol * trade_side <= VAL_CAP) by (nonlinear_arith)
                requires
                    0 <= trade_vol <= VAL_CAP && -1 <= trade_side <= 1,
            ;
        }
        let flow: i64 = trade_vol * trade_side;
        self.trade_vol_history.push_back(trade_vol);
        self.trade_side_history.push_back(trade_side);
        let ghost pv = self.trade_vol_history@;
        let ghost ps = self.trade_side_history@;
        proof {
            assert(pv.drop_last() =~= old(self).vols());
            assert(ps.drop_last() =~= old(self).sides());
        }
        self.sum_signed_flow_fast = self.sum_signed_flow_fast + flow;
        self.sum_vol_slow = self.sum_vol_slow + trade_vol;
        // Now the sums cover the last (old span + 1) and all elements.
        proof {
            assert(sum_prod_last(pv, ps, fast_span(old(self).fast(), old(self).vols().len()) + 1)
                == trade_vol * trade_side + sum_prod_last(
                old(self).vols(),
                old(self).sides(),
                fast_span(old(self).fast(), old(self).vols().len()),
            ));
            assert(sum_last(pv, old(self).vols().len() + 1) == trade_vol + sum_last(
                old(self).vols(),
                old(self).vols().len(),
            ));
        }
        if self.trade_vol_history.len() > self.fast_window {
            let idx = self.trade_vol_history.len() - 1 - self.fast_window;
            let old_vol = self.trade_vol_history[idx];
            let old_side = self.trade_side_history[idx];
            proof {
                lemma_sum_prod_last_unfold(pv, ps, self.fast_window as nat);
                assert(-VAL_CAP <= old_vol * old_side <= VAL_CAP) by (nonlinear_arith)
                    requires
                        0 <= old_vol <= VAL_CAP && -1 <= old_side <= 1,
                ;
            }
            self.sum_signed_flow_fast = self.sum_signed_flow_fast - old_vol * old_side;
        }
        proof {
            assert(self.sum_signed_flow_fast == sum_prod_last(
                pv,
                ps,
                fast_span(self.fast_window as nat, pv.len()),
            ));
        }
        if self.trade_vol_history.len() > self.slow_window {
            let popped_v = self.trade_vol_history.pop_front();
            let popped_s = self.trade_side_history.pop_front();
            let ov: i64 = match popped_v {
                Some(x) => x,
                None => 0,
            };
            proof {
                lemma_sum_last_unfold(pv, (pv.len() - 1) as nat);
                assert(pv[0] == ov);
                lemma_sum_last_skip1(pv, (pv.len() - 1) as nat);
                lemma_sum_prod_last_skip1(pv, ps, fast_span(self.fast_window as nat, (pv.len() - 1) as nat));
                assert(self.trade_vol_history@ =~= pv.skip(1));
                assert(self.trade_side_history@ =~= ps.skip(1));
            }
            self.sum_vol_slow = self.sum_vol_slow - ov;
        }
        // The running sums again match their windows over the new history.
        let hist_len = self.trade_vol_history.len();
        if hist_len < self.slow_window {
            return 0;
        }
        if self.sum_vol_slow <= 0 {
            return 0;
        }
        proof {
            lemma_sum_prod_last_bound(
                self.vols(),
                self.sides(),
                fast_span(self.fast(), self.vols().len()),
                VAL_CAP as int,
            );
            assert(fast_span(self.fast(), self.vols().len()) * VAL_CAP <= WINDOW_CAP
                * VAL_CAP) by (nonlinear_arith)
                requires
                    fast_span(self.fast(), self.vols().len()) <= WINDOW_CAP,
            ;
            assert(-(WINDOW_CAP * VAL_CAP) * WINDOW_CAP <= self.sum_signed_flow_fast
                * (self.slow_window as int) <= (WINDOW_CAP * VAL_CAP)
                * WINDOW_CAP) by (nonlinear_arith)
                requires
                    -(WINDOW_CAP * VAL_CAP) <= self.sum_signed_flow_fast <= WINDOW_CAP * VAL_CAP
                        && 0 <= self.slow_window <= WINDOW_CAP,
            ;
            assert(-(WINDOW_CAP * VAL_CAP) * WINDOW_CAP * SCALE <= self.sum_signed_flow_fast
                * (self.slow_window as int) * SCALE <= (WINDOW_CAP * VAL_CAP) * WINDOW_CAP
                * SCALE) by (nonlinear_arith)
                requires
                    -(WINDOW_CAP * VAL_CAP) * WINDOW_CAP <= self.sum_signed_flow_fast
                        * (self.slow_window as int) <= (WINDOW_CAP * VAL_CAP) * WINDOW_CAP,
            ;
        }
        let num: i128 = (self.sum_signed_flow_fast as i128) * (self.slow_window as i128) * (
        SCALE as i128);
        let q: i128 = div_i128(num, self.sum_vol_slow as i128);
        proof {
            crate::alpha_transient::lemma_div_tr_abs_le(num as int, self.sum_vol_slow as int);
        }
        clamp_i128_to_i64(q)
    }

    /// A well-formed factor has sane windows and a bounded history.
    pub proof fn lemma_flow_windows(&self)
        requires
            self.wf(),
        ensures
            1 <= self.fast() <= self.slow() <= WINDOW_CAP,
            self.vols().len() == self.sides().len() <= self.slow(),
    {
    }

    /// Number of retained observations.
    pub fn hist_len(&self) -> (r: usize)
        requires
            self.wf(),
        ensures
            r == self.vols().len(),
            r <= WINDOW_CAP,
    {
        self.trade_vol_history.len()
    }

    /// The maintained fast-window signed-flow sum.
    pub fn flow_sum(&self) -> (r: i64)
        requires
            self.wf(),
        ensures
            r == sum_prod_last(self.vols(), self.sides(), fast_span(self.fast(), self.vols().len())),
            -(WINDOW_CAP * VAL_CAP) <= r <= WINDOW_CAP * VAL_CAP,
    {
        proof {
            lemma_sum_prod_last_bound(
                self.vols(),
                self.sides(),
                fast_span(self.fast(), self.vols().len()),
                VAL_CAP as int,
            );
            let ghost sp = fast_span(self.fast(), self.vols().len());
            assert(sp * VAL_CAP <= WINDOW_CAP * VAL_CAP) by (nonlinear_arith)
                requires
                    sp <= WINDOW_CAP,
            ;
        }
        self.sum_signed_flow_fast
    }

    /// The maintained slow-window volume sum.
    pub fn vol_sum(&self) -> (r: i64)
        requires
            self.wf(),
        ensures
            r == sum_last(self.vols(), self.vols().len()),
            0 <= r <= WINDOW_CAP * VAL_CAP,
    {
        proof {
            lemma_sum_last_bound(self.vols(), self.vols().len(), VAL_CAP as int);
            let ghost ln = self.vols().len();
            assert(ln * VAL_CAP <= WINDOW_CAP * VAL_CAP) by (nonlinear_arith)
                requires
                    ln <= WINDOW_CAP,
            ;
        }
        self.sum_vol_slow
    }

    /// The configured fast window.
    pub fn fast_len(&self) -> (r: usize)
        ensures
            r == self.fast(),
    {
        self.fast_window
    }

    /// The configured slow window.
    pub fn slow_len(&self) -> (r: usize)
        ensures
            r == self.slow(),
    {
        self.slow_window
    }
}

} // verus!
