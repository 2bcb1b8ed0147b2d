//! Volatility-regime detection and the meta ensemble factor.
//!
//! The regime classifier compares the population deviation of the most
//! recent short window of returns against the long window.  Working with
//! variance numerators avoids any square root: with `A(k) = k * sum(x^2)
//! - sum(x)^2` over the last `k` returns, the deviation ratio exceeds
//! `1.5` exactly when `4 * A(short) * long^2 > 9 * A(long) * short^2`,
//! and falls below `0.7` exactly when `100 * A(short) * long^2 < 49 *
//! A(long) * short^2` — all decisions are exact integer comparisons.

use vstd::prelude::*;
use std::collections::VecDeque;

use crate::SCALE;
use crate::alpha_flow::{fast_span, MatchedFilterTradeFlow, WINDOW_CAP};
use crate::expneg::{exp_neg, spec_exp_neg};
use crate::fixed::{clamp_i128_to_i64, div_i128, div_tr, sat_i64};
use crate::signal_math::{
    lemma_sum_last_abs_bound, lemma_sum_last_unfold, lemma_sum_sq_last_bound,
    lemma_sum_sq_last_unfold, sum_last, sum_prod_last, sum_sq_last, VAL_CAP,
};

verus! {

/// Largest accepted volatility window.
pub const REG_WINDOW_CAP: usize = 0x1_0000;

/// Largest magnitude of one return observation (micro-units).
pub const RET_CAP: i64 = 10_000_000;

/// A window never reaches beyond the retained history.
pub open spec fn span_of(w: nat, len: nat) -> nat {
    if w <= len {
        w
    } else {
        len
    }
}

/// Variance numerator over the last `k` returns: `k` times the squared
/// sum minus the square of the sum (the population variance times `k^2`).
pub open spec fn var_num(v: Seq<i64>, k: nat) -> int {
    k * sum_sq_last(v, k) - sum_last(v, k) * sum_last(v, k)
}

/// The classification: 0 while fewer than `long` returns are retained or
/// the long window shows no variance at all; 1 (high) when the deviation
/// ratio exceeds 3/2; -1 (low) when it falls below 7/10; else 0.
pub open spec fn spec_vol_regime(v: Seq<i64>, short: nat, long: nat) -> i64 {
    if v.len() < long {
        0
    } else {
        let ks = span_of(short, v.len());
        let a_s = var_num(v, ks);
        let a_l = var_num(v, long);
        if a_l <= 0 {
            0
        } else if 4 * a_s * (long * long) > 9 * a_l * (ks * ks) {
            1
        } else if 100 * a_s * (long * long) < 49 * a_l * (ks * ks) {
            -1i64
        } else {
            0
        }
    }
}

/// Threshold law: with enough history and genuine long-window variance, a
/// short-window deviation at twice the long one classifies as high, and
/// one at half the long one classifies as low.  Deviation ratios enter as
/// variance ratios: doubled deviation means `A(short) * long^2 == 4 *
/// A(long) * short_span^2`, halved means a quarter.
pub proof fn lemma_regime_thresholds(v: Seq<i64>, short: nat, long: nat)
    requires
        1 <= short,
        1 <= long <= v.len(),
        var_num(v, long) > 0,
    ensures
        var_num(v, span_of(short, v.len())) * (long * long) == 4 * var_num(v, long) * (span_of(
            short,
            v.len(),
        ) * span_of(short, v.len())) ==> spec_vol_regime(v, short, long) == 1i64,
        4 * (var_num(v, span_of(short, v.len())) * (long * long)) == var_num(v, long) * (span_of(
            short,
            v.len(),
        ) * span_of(short, v.len())) ==> spec_vol_regime(v, short, long) == -1i64,
{
    let ks = span_of(short, v.len());
    let a_s = var_num(v, ks);
    let a_l = var_num(v, long);
    let ll = long * long;
    let kk = ks * ks;
    assert(kk >= 1) by (nonlinear_arith)
        requires
            ks >= 1 && kk == ks * ks,
    ;
    assert(ll >= 1) by (nonlinear_arith)
        requires
            long >= 1 && ll == long * long,
    ;
    assert(a_l * kk > 0) by (nonlinear_arith)
        requires
            a_l > 0 && kk >= 1,
    ;
    if a_s * ll == 4 * a_l * kk {
        assert(4 * a_s * ll > 9 * a_l * kk) by (nonlinear_arith)
            requires
                a_s * ll == 4 * a_l * kk && a_l * kk > 0,
        ;
    }
    if 4 * (a_s * ll) == a_l * kk {
        assert(!(4 * a_s * ll > 9 * a_l * kk)) by (nonlinear_arith)
            requires
                4 * (a_s * ll) == a_l * kk && a_l * kk > 0,
        ;
        assert(100 * a_s * ll < 49 * a_l * kk) by (nonlinear_arith)
            requires
                4 * (a_s * ll) == a_l * kk && a_l * kk > 0,
        ;
    }
}

/// Sum and squared sum of the last `k` retained returns.
fn tail_sums(v: &VecDeque<i64>, k: usize) -> (r: (i64, i64))
    requires
        k <= v@.len(),
        k <= REG_WINDOW_CAP,
        forall|i: int| 0 <= i < v@.len() ==> -RET_CAP <= #[trigger] v@[i] <= RET_CAP,
    ensures
        r.0 == sum_last(v@, k as nat),
        r.1 == sum_sq_last(v@, k as nat),
{
    let n = v.len();
    let mut s: i64 = 0;
    let mut q: i64 = 0;
    let mut j: usize = 0;
    while j < k
        invariant
            k <= v@.len(),
            k <= REG_WINDOW_CAP,
            n == v@.len(),
            forall|i: int| 0 <= i < v@.len() ==> -RET_CAP <= #[trigger] v@[i] <= RET_CAP,
            0 <= j <= k,
            s == sum_last(v@, j as nat),
            q == sum_sq_last(v@, j as nat),
        decreases k - j,
    {
        proof {
            lemma_sum_last_abs_bound(v@, j as nat, RET_CAP as int);
            lemma_sum_sq_last_bound(v@, j as nat, RET_CAP as int);
            lemma_sum_last_unfold(v@, j as nat);
            lemma_sum_sq_last_unfold(v@, j as nat);
            let ghost jj = j as int;
            assert(jj * RET_CAP + RET_CAP <= 0x7fff_ffff_ffff_ffff - 1) by (nonlinear_arith)
                requires
                    0 <= jj < REG_WINDOW_CAP && RET_CAP == 10_000_000 && REG_WINDOW_CAP == 0x1_0000,
            ;
            assert(jj * (RET_CAP * RET_CAP) + RET_CAP * RET_CAP <= 0x7fff_ffff_ffff_ffff
                - 1) by (nonlinear_arith)
                requires
                    0 <= jj < REG_WINDOW_CAP && RET_CAP == 10_000_000 && REG_WINDOW_CAP == 0x1_0000,
            ;
        }
        let x = v[n - 1 - j];
        proof {
            assert(0 <= x * x <= RET_CAP * RET_CAP) by (nonlinear_arith)
                requires
                    -RET_CAP <= x <= RET_CAP,
            ;
        }
        s = s + x;
        q = q + x * x;
        j += 1;
    }
    (s, q)
}

/// Classify the volatility regime of a returns history: 1 high, -1 low,
/// 0 normal (also while the history is shorter than the long window or
/// the long window shows no variance).
pub fn compute_vol_regime(rets: &VecDeque<i64>, short_window: usize, long_window: usize) -> (r:
    i64)
    requires
        1 <= short_window <= REG_WINDOW_CAP,
        1 <= long_window <= REG_WINDOW_CAP,
        forall|i: int| 0 <= i < rets@.len() ==> -RET_CAP <= #[trigger] rets@[i] <= RET_CAP,
    ensures
        r == spec_vol_regime(rets@, short_window as nat, long_window as nat),
{
    let n = rets.len();
    if n < long_window {
        return 0;
    }
    let ks: usize = if short_window <= n {
        short_window
    } else {
        n
    };
    let (ss, qs) = tail_sums(rets, ks);
    let (sl, ql) = tail_sums(rets, long_window);
    proof {
        lemma_sum_last_abs_bound(rets@, ks as nat, RET_CAP as int);
        lemma_sum_sq_last_bound(rets@, ks as nat, RET_CAP as int);
        lemma_sum_last_abs_bound(rets@, long_window as nat, RET_CAP as int);
        lemma_sum_sq_last_bound(rets@, long_window as nat, RET_CAP as int);
        lemma_var_products_bounded(ks as int, ss as int, qs as int);
        lemma_var_products_bounded(long_window as int, sl as int, ql as int);
    }
    let a_s: i128 = (ks as i128) * (qs as i128) - (ss as i128) * (ss as i128);
    let a_l: i128 = (long_window as i128) * (ql as i128) - (sl as i128) * (sl as i128);
    if a_l <= 0 {
        return 0;
    }
    proof {
        assert(0 <= (long_window as int) * (long_window as int) <= 0x1_0000_0000) by (
        nonlinear_arith)
            requires
                0 <= long_window <= 0x1_0000,
        ;
        assert(0 <= (ks as int) * (ks as int) <= 0x1_0000_0000) by (nonlinear_arith)
            requires
                0 <= ks <= 0x1_0000,
        ;
    }
    let ll: i128 = (long_window as i128) * (long_window as i128);
    let kk: i128 = (ks as i128) * (ks as i128);
    proof {
        lemma_regime_compare_bounded(a_s as int, a_l as int, ll as int, kk as int);
    }
    if 4 * a_s * ll > 9 * a_l * kk {
        1
    } else if 100 * a_s * ll < 49 * a_l * kk {
        -1
    } else {
        0
    }
}

/// The variance-numerator building blocks stay far inside 128 bits.
proof fn lemma_var_products_bounded(k: int, s: int, q: int)
    requires
        0 <= k <= REG_WINDOW_CAP,
        -(k * RET_CAP) <= s <= k * RET_CAP,
        0 <= q <= k * (RET_CAP * RET_CAP),
    ensures
        0 <= k * q <= 0x8_0000_0000_0000_0000_0000,
        0 <= s * s <= 0x8_0000_0000_0000_0000_0000,
{
    assert(0 <= k * q <= 0x8_0000_0000_0000_0000_0000) by (nonlinear_arith)
        requires
            0 <= k <= REG_WINDOW_CAP && 0 <= q <= k * (RET_CAP * RET_CAP) && REG_WINDOW_CAP
                == 0x1_0000 && RET_CAP == 10_000_000,
    ;
    assert(0 <= s * s <= 0x8_0000_0000_0000_0000_0000) by (nonlinear_arith)
        requires
            -(k * RET_CAP) <= s <= k * RET_CAP && 0 <= k <= REG_WINDOW_CAP && REG_WINDOW_CAP
                == 0x1_0000 && RET_CAP == 10_000_000,
    ;
}

/// The regime comparison products stay inside 128 bits.
proof fn lemma_regime_compare_bounded(a_s: int, a_l: int, ll: int, kk: int)
    requires
        -0x10_0000_0000_0000_0000_0000 <= a_s <= 0x10_0000_0000_0000_0000_0000,
        -0x10_0000_0000_0000_0000_0000 <= a_l <= 0x10_0000_0000_0000_0000_0000,
        0 <= ll <= 0x1_0000_0000,
        0 <= kk <= 0x1_0000_0000,
    ensures
        -0x4000_0000_0000_0000_0000_0000_0000_0000 <= 4 * a_s * ll
            <= 0x4000_0000_0000_0000_0000_0000_0000_0000,
        -0x4000_0000_0000_0000_0000_0000_0000_0000 <= 9 * a_l * kk
            <= 0x4000_0000_0000_0000_0000_0000_0000_0000,
        -0x4000_0000_0000_0000_0000_0000_0000_0000 <= 100 * a_s * ll
            <= 0x4000_0000_0000_0000_0000_0000_0000_0000,
        -0x4000_0000_0000_0000_0000_0000_0000_0000 <= 49 * a_l * kk
            <= 0x4000_0000_0000_0000_0000_0000_0000_0000,
{
    assert(-0x4000_0000_0000_0000_0000_0000_0000_0000 <= 100 * a_s * ll
        <= 0x4000_0000_0000_0000_0000_0000_0000_0000) by (nonlinear_arith)
        requires
            -0x10_0000_0000_0000_0000_0000 <= a_s <= 0x10_0000_0000_0000_0000_0000 && 0 <= ll
                <= 0x1_0000_0000,
    ;
    assert(-0x4000_0000_0000_0000_0000_0000_0000_0000 <= 4 * a_s * ll
        <= 0x4000_0000_0000_0000_0000_0000_0000_0000) by (nonlinear_arith)
        requires
            -0x10_0000_0000_0000_0000_0000 <= a_s <= 0x10_0000_0000_0000_0000_0000 && 0 <= ll
                <= 0x1_0000_0000,
    ;
    assert(-0x4000_0000_0000_0000_0000_0000_0000_0000 <= 9 * a_l * kk
        <= 0x4000_0000_0000_0000_0000_0000_0000_0000) by (nonlinear_arith)
        requires
            -0x10_0000_0000_0000_0000_0000 <= a_l <= 0x10_0000_0000_0000_0000_0000 && 0 <= kk
                <= 0x1_0000_0000,
    ;
    assert(-0x4000_0000_0000_0000_0000_0000_0000_0000 <= 49 * a_l * kk
        <= 0x4000_0000_0000_0000_0000_0000_0000_0000) by (nonlinear_arith)
        requires
            -0x10_0000_0000_0000_0000_0000 <= a_l <= 0x10_0000_0000_0000_0000_0000 && 0 <= kk
                <= 0x1_0000_0000,
    ;
}

/// Baseline intensity of the embedded event-rate tracker (micro-units).
pub const MU_H: i64 = 20_000;

/// Jump per trade event of the embedded tracker (micro-units).
pub const ALPHA_H: i64 = 200_000;

/// Per-tick decay exponent of the embedded tracker (micro-units).
pub const BETA_H: i64 = 100_000;

/// Weight of the dynamic-ensemble signal in the combination.
pub const DYN_WEIGHT: i64 = 570_000;

/// Weight of the interaction signal in the combination.
pub const INT_WEIGHT: i64 = 430_000;

/// Multiplier applied when both component signals agree and are strong.
pub const BOOST: i64 = 1_500_000;

/// One intensity step with a fixed per-tick decay factor.
pub open spec fn spec_meta_hawkes(intensity: int, decay: int, event: bool) -> int {
    sat_i64(
        MU_H + div_tr((intensity - MU_H) * decay, SCALE as int) + if event {
            ALPHA_H as int
        } else {
            0
        },
    )
}

/// Intensity normalized into `[0, 1]` micro-units: clamped to `[0, 2]`
/// and halved.
pub open spec fn spec_hawkes_signal(intensity: int) -> int {
    let c = if intensity < 0 {
        0
    } else if intensity > 2 * SCALE {
        2 * SCALE
    } else {
        intensity
    };
    c / 2
}

/// Relative price move in micro-units, clamped to the return cap.
pub open spec fn spec_ret_of(mid: int, last: int) -> int {
    let r = div_tr((mid - last) * SCALE, last);
    if r > RET_CAP {
        RET_CAP as int
    } else if r < -RET_CAP {
        -(RET_CAP as int)
    } else {
        r
    }
}

/// One step of the windowed order-flow accumulator: add this tick\'s
/// depth-change imbalance; when the window evicts, decay by 95/100
/// instead of recomputing — a documented O(1) approximation of the
/// window sum.
pub open spec fn spec_ofi_step(ofi: int, tick: int, evict: bool) -> int {
    if evict {
        div_tr((ofi + tick) * 95, 100)
    } else {
        ofi + tick
    }
}

/// The ensemble\'s trade-flow signal: the raw fast-window flow while
/// fewer than `min(slow, 10)` observations are retained (capacity one),
/// else the fast flow over the mean retained volume, micro-units.
pub open spec fn spec_meta_flow(v: Seq<i64>, s: Seq<i64>, fast: nat, slow: nat) -> int {
    let thresh: nat = if slow <= 10 {
        slow
    } else {
        10
    };
    if v.len() < thresh {
        sat_i64(sum_prod_last(v, s, fast_span(fast, v.len())) * SCALE)
    } else {
        let sv = sum_last(v, v.len());
        if sv <= 0 {
            0
        } else {
            sat_i64(div_tr(sum_prod_last(v, s, fast_span(fast, v.len())) * v.len() * SCALE, sv))
        }
    }
}

/// Trade flow weighs more in a high-volatility regime, less in a low one.
pub open spec fn spec_flow_weight(regime: i64) -> int {
    if regime > 0 {
        600_000
    } else if regime < 0 {
        400_000
    } else {
        500_000
    }
}

/// Dynamic ensemble: regime-weighted mix of trade flow and order flow.
pub open spec fn spec_dynamic(fw: int, tf: int, ofi_sig: int) -> int {
    sat_i64(div_tr(fw * tf + (SCALE - fw) * ofi_sig, SCALE as int))
}

/// Interaction: intensity-flipped order flow, and trade flow dampened by
/// the intensity, averaged.
pub open spec fn spec_interaction(h: int, tf: int, ofi_sig: int) -> int {
    sat_i64(
        div_tr(div_tr(-(h * ofi_sig), SCALE as int) + div_tr(tf * (SCALE - h), SCALE as int), 2),
    )
}

/// Final combination with the confirmation boost: when both components
/// share a strict sign and each exceeds one half in magnitude, the
/// weighted sum is multiplied by the boost.
pub open spec fn spec_combined(sd: i64, si: i64) -> int {
    let c = div_tr(DYN_WEIGHT * sd + INT_WEIGHT * si, SCALE as int);
    let same = (sd > 0 && si > 0) || (sd < 0 && si < 0);
    if same && (sd > 500_000 || sd < -500_000) && (si > 500_000 || si < -500_000) {
        sat_i64(div_tr(c * BOOST, SCALE as int))
    } else {
        sat_i64(c)
    }
}

/// Meta ensemble factor: trade flow, approximate order flow, an embedded
/// intensity tracker and a volatility-regime classifier, combined with
/// dynamic weights and a confirmation boost.
pub struct MetaAlpha {
    vol_short_window: usize,
    vol_long_window: usize,
    flow: MatchedFilterTradeFlow,
    bid_qty_history: VecDeque<i64>,
    ask_qty_history: VecDeque<i64>,
    ofi_sum: i64,
    hawkes_intensity: i64,
    hawkes_decay: i64,
    returns_history: VecDeque<i64>,
    last_price: i64,
    signal_dynamic: i64,
    signal_interaction: i64,
}

impl MetaAlpha {
    /// The embedded trade-flow state.
    pub closed spec fn flow_spec(&self) -> MatchedFilterTradeFlow {
        self.flow
    }

    /// Retained best-bid quantities, oldest first.
    pub closed spec fn bid_hist(&self) -> Seq<i64> {
        self.bid_qty_history@
    }

    /// Retained best-ask quantities, oldest first.
    pub closed spec fn ask_hist(&self) -> Seq<i64> {
        self.ask_qty_history@
    }

    /// The approximate order-flow accumulator.
    pub closed spec fn ofi_spec(&self) -> i64 {
        self.ofi_sum
    }

    /// The embedded intensity.
    pub closed spec fn hawkes_spec(&self) -> i64 {
        self.hawkes_intensity
    }

    /// Retained returns, oldest first.
    pub closed spec fn rets(&self) -> Seq<i64> {
        self.returns_history@
    }

    /// Last seen mid price, 0 before the first tick.
    pub closed spec fn last_price_spec(&self) -> i64 {
        self.last_price
    }

    /// The stored component signals (dynamic, interaction).
    pub closed spec fn signals_spec(&self) -> (i64, i64) {
        (self.signal_dynamic, self.signal_interaction)
    }

    /// Short volatility window.
    pub closed spec fn vol_short(&self) -> nat {
        self.vol_short_window as nat
    }

    /// Long volatility window.
    pub closed spec fn vol_long(&self) -> nat {
        self.vol_long_window as nat
    }

    /// Well-formed: the flow state is, windows are sane, the depth
    /// histories are aligned, bounded and no longer than the fast window,
    /// the order-flow accumulator is bounded by its decay fixpoint, the
    /// decay constant is the fixed-point `e^(-beta)`, and the returns are
    /// bounded and no longer than the long window.
    pub closed spec fn wf(&self) -> bool {
        &&& self.flow.wf()
        &&& 1 <= self.vol_short_window <= REG_WINDOW_CAP
        &&& 1 <= self.vol_long_window <= REG_WINDOW_CAP
        &&& self.bid_hist().len() == self.ask_hist().len()
        &&& self.bid_hist().len() <= self.flow.fast()
        &&& forall|i: int| 0 <= i < self.bid_hist().len() ==> 0 <= #[trigger] self.bid_hist()[i]
            <= VAL_CAP
        &&& forall|i: int| 0 <= i < self.ask_hist().len() ==> 0 <= #[trigger] self.ask_hist()[i]
            <= VAL_CAP
        &&& -((self.bid_hist().len() + 20) * (4 * VAL_CAP)) <= self.ofi_sum <= (
        self.bid_hist().len() + 20) * (4 * VAL_CAP)
        &&& self.hawkes_decay == spec_exp_neg(BETA_H as int)
        &&& 0 <= self.hawkes_decay <= SCALE
        &&& self.rets().len() <= self.vol_long_window
        &&& forall|i: int| 0 <= i < self.rets().len() ==> -RET_CAP <= #[trigger] self.rets()[i]
            <= RET_CAP
        &&& 0 <= self.last_price <= VAL_CAP
    }

    pub fn new(
        fast_window: usize,
        slow_window: usize,
        vol_short_window: usize,
        vol_long_window: usize,
    ) -> (r: MetaAlpha)
        requires
            1 <= fast_window <= slow_window <= WINDOW_CAP,
            1 <= vol_short_window <= REG_WINDOW_CAP,
            1 <= vol_long_window <= REG_WINDOW_CAP,
        ensures
            r.wf(),
            r.flow_spec().fast() == fast_window,
            r.flow_spec().slow() == slow_window,
            r.vol_short() == vol_short_window,
            r.vol_long() == vol_long_window,
            r.hawkes_spec() == 0,
            r.ofi_spec() == 0,
            r.rets() == Seq::<i64>::empty(),
            r.signals_spec() == (0i64, 0i64),
    {
        let r = MetaAlpha {
            vol_short_window,
            vol_long_window,
            flow: MatchedFilterTradeFlow::new(fast_window, slow_window),
            bid_qty_history: VecDeque::new(),
            ask_qty_history: VecDeque::new(),
            ofi_sum: 0,
            hawkes_intensity: 0,
            hawkes_decay: exp_neg(BETA_H),
            returns_history: VecDeque::new(),
            last_price: 0,
            signal_dynamic: 0,
            signal_interaction: 0,
        };
        proof {
            assert(r.rets() =~= Seq::<i64>::empty());
            assert(r.bid_hist() =~= Seq::<i64>::empty());
            assert(r.ask_hist() =~= Seq::<i64>::empty());
        }
        r
    }

    /// Component signals (dynamic, interaction) of the last update.
    pub fn get_signals(&self) -> (r: (i64, i64))
        ensures
            r == self.signals_spec(),
    {
        (self.signal_dynamic, self.signal_interaction)
    }

    /// Forget all state; the configured windows stay.
    pub fn reset(&mut self)
        requires
            old(self).wf(),
        ensures
            final(self).wf(),
            final(self).flow_spec().fast() == old(self).flow_spec().fast(),
            final(self).flow_spec().slow() == old(self).flow_spec().slow(),
            final(self).vol_short() == old(self).vol_short(),
            final(self).vol_long() == old(self).vol_long(),
            final(self).flow_spec().vols() == Seq::<i64>::empty(),
            final(self).rets() == Seq::<i64>::empty(),
            final(self).ofi_spec() == 0,
            final(self).hawkes_spec() == 0,
            final(self).last_price_spec() == 0,
            final(self).signals_spec() == (0i64, 0i64),
    {
        proof {
            self.flow.lemma_flow_windows();
        }
        let fast = self.flow.fast_len();
        let slow = self.flow.slow_len();
        self.flow = MatchedFilterTradeFlow::new(fast, slow);
        self.bid_qty_history = VecDeque::new();
        self.ask_qty_history = VecDeque::new();
        self.ofi_sum = 0;
        self.hawkes_intensity = 0;
        self.returns_history = VecDeque::new();
        self.last_price = 0;
        self.signal_dynamic = 0;
        self.signal_interaction = 0;
        proof {
            assert(self.rets() =~= Seq::<i64>::empty());
            assert(self.bid_hist() =~= Seq::<i64>::empty());
            assert(self.ask_hist() =~= Seq::<i64>::empty());
        }
    }

    /// Process one tick and return the combined ensemble signal.
    #[verifier::rlimit(100)]
    pub fn update(
        &mut self,
        trade_vol: i64,
        trade_side: i64,
        bid_qty: i64,
        ask_qty: i64,
        mid_price: i64,
    ) -> (r: i64)
        requires
            old(self).wf(),
            0 <= trade_vol <= VAL_CAP,
            -1 <= trade_side <= 1,
            0 <= bid_qty <= VAL_CAP,
            0 <= ask_qty <= VAL_CAP,
            0 <= mid_price <= VAL_CAP,
        ensures
            final(self).wf(),
            final(self).flow_spec().fast() == old(self).flow_spec().fast(),
            final(self).flow_spec().slow() == old(self).flow_spec().slow(),
            final(self).vol_short() == old(self).vol_short(),
            final(self).vol_long() == old(self).vol_long(),
            // Returns history: one clamped relative move when a previous
            // price exists, trimmed to the long window.
            ({
                let pr = if old(self).last_price_spec() > 0 {
                    old(self).rets().push(
                        spec_ret_of(mid_price as int, old(self).last_price_spec() as int) as i64,
                    )
                } else {
                    old(self).rets()
                };
                final(self).rets() == if pr.len() > old(self).vol_long() {
                    pr.skip(1)
                } else {
                    pr
                }
            }),
            final(self).last_price_spec() == mid_price,
            // Intensity: one decayed step with a jump on any traded volume.
            final(self).hawkes_spec() == spec_meta_hawkes(
                old(self).hawkes_spec() as int,
                spec_exp_neg(BETA_H as int),
                trade_vol > 0,
            ),
            // Trade-flow history: as the matched-filter factor evolves it.
            ({
                let pv = old(self).flow_spec().vols().push(trade_vol);
                let ps = old(self).flow_spec().sides().push(trade_side);
                if pv.len() > old(self).flow_spec().slow() {
                    final(self).flow_spec().vols() == pv.skip(1)
                        && final(self).flow_spec().sides() == ps.skip(1)
                } else {
                    final(self).flow_spec().vols() == pv && final(self).flow_spec().sides() == ps
                }
            }),
            // Order-flow accumulator: one tick of depth-change imbalance,
            // decayed when the window evicts.
            ({
                let pb = if old(self).bid_hist().len() > 0 {
                    old(self).bid_hist().last() as int
                } else {
                    bid_qty as int
                };
                let pa = if old(self).ask_hist().len() > 0 {
                    old(self).ask_hist().last() as int
                } else {
                    ask_qty as int
                };
                let tick = (bid_qty - pb) - (ask_qty - pa);
                let evict = old(self).bid_hist().len() + 1 > old(self).flow_spec().fast();
                final(self).ofi_spec() == spec_ofi_step(old(self).ofi_spec() as int, tick, evict)
            }),
            // The component signals and the combination.
            ({
                let tf = spec_meta_flow(
                    final(self).flow_spec().vols(),
                    final(self).flow_spec().sides(),
                    old(self).flow_spec().fast(),
                    old(self).flow_spec().slow(),
                );
                let ofi_sig = div_tr(
                    final(self).ofi_spec() * SCALE,
                    old(self).flow_spec().fast() as int,
                );
                let h = spec_hawkes_signal(final(self).hawkes_spec() as int);
                let regime = spec_vol_regime(
                    final(self).rets(),
                    old(self).vol_short(),
                    old(self).vol_long(),
                );
                let fw = spec_flow_weight(regime);
                &&& final(self).signals_spec().0 == spec_dynamic(fw, tf, ofi_sig)
                &&& final(self).signals_spec().1 == spec_interaction(h, tf, ofi_sig)
                &&& r == spec_combined(
                    final(self).signals_spec().0,
                    final(self).signals_spec().1,
                )
            }),
    {
        // Returns history.
        if self.last_price > 0 {
            let d: i64 = mid_price - self.last_price;
            proof {
                assert(-(VAL_CAP * SCALE) <= d * SCALE <= VAL_CAP * SCALE) by (nonlinear_arith)
                    requires
                        -VAL_CAP <= d <= VAL_CAP,
                ;
            }
            let rnum: i128 = (d as i128) * (SCALE as i128);
            let rq: i128 = div_i128(rnum, self.last_price as i128);
            proof {
                crate::alpha_transient::lemma_div_tr_abs_le(rnum as int, self.last_price as int);
            }
            let r0: i64 = if rq > RET_CAP as i128 {
                RET_CAP
            } else if rq < -RET_CAP as i128 {
                -RET_CAP
            } else {
                rq as i64
            };
            let ghost pre_rets = self.returns_history@;
            self.returns_history.push_back(r0);
            if self.returns_history.len() > self.vol_long_window {
                let _front = self.returns_history.pop_front();
            }
        }
        self.last_price = mid_price;
        // Intensity step.
        let event: bool = trade_vol > 0;
        let g128: i128 = (self.hawkes_intensity as i128) - (MU_H as i128);
        proof {
            assert(-0x8000_0000_0000_0000_0000_0000i128 <= g128 * (self.hawkes_decay as i128)
                <= 0x8000_0000_0000_0000_0000_0000i128) by (nonlinear_arith)
                requires
                    -0x1_0000_0000_0000_0000i128 <= g128 <= 0x1_0000_0000_0000_0000i128 && 0
                        <= self.hawkes_decay <= SCALE,
            ;
        }
        let dgap: i128 = div_i128(g128 * (self.hawkes_decay as i128), SCALE as i128);
        proof {
            crate::alpha_transient::lemma_div_tr_abs_le(
                (g128 * (self.hawkes_decay as i128)) as int,
                SCALE as int,
            );
        }
        let lam: i128 = (MU_H as i128) + dgap + (if event {
            ALPHA_H as i128
        } else {
            0
        });
        self.hawkes_intensity = clamp_i128_to_i64(lam);
        // Trade flow.
        proof {
            self.flow.lemma_flow_windows();
        }
        let _mf: i64 = self.flow.update(trade_vol, trade_side);
        proof {
            self.flow.lemma_flow_windows();
        }
        let hist_len = self.flow.hist_len();
        let slow = self.flow.slow_len();
        let fast = self.flow.fast_len();
        let thresh: usize = if slow <= 10 {
            slow
        } else {
            10
        };
        let ff: i64 = self.flow.flow_sum();
        let tf: i64 = if hist_len < thresh {
            proof {
                assert(-(WINDOW_CAP * VAL_CAP) * SCALE <= ff * SCALE <= (WINDOW_CAP * VAL_CAP)
                    * SCALE) by (nonlinear_arith)
                    requires
                        -(WINDOW_CAP * VAL_CAP) <= ff <= WINDOW_CAP * VAL_CAP,
                ;
            }
            clamp_i128_to_i64((ff as i128) * (SCALE as i128))
        } else {
            let sv: i64 = self.flow.vol_sum();
            if sv <= 0 {
                0
            } else {
                proof {
                    let ghost hl = hist_len as int;
                    assert(-(WINDOW_CAP * VAL_CAP) * WINDOW_CAP <= ff * hl <= (WINDOW_CAP
                        * VAL_CAP) * WINDOW_CAP) by (nonlinear_arith)
                        requires
                            -(WINDOW_CAP * VAL_CAP) <= ff <= WINDOW_CAP * VAL_CAP && 0 <= hl
                                <= WINDOW_CAP,
                    ;
                    assert(-(WINDOW_CAP * VAL_CAP) * WINDOW_CAP * SCALE <= ff * hl * SCALE <= (
                    WINDOW_CAP * VAL_CAP) * WINDOW_CAP * SCALE) by (nonlinear_arith)
                        requires
                            -(WINDOW_CAP * VAL_CAP) * WINDOW_CAP <= ff * hl <= (WINDOW_CAP
                                * VAL_CAP) * WINDOW_CAP,
                    ;
                }
                let num: i128 = (ff as i128) * (hist_len as i128) * (SCALE as i128);
                clamp_i128_to_i64(div_i128(num, sv as i128))
            }
        };
        // Order-flow accumulator.
        let blen = self.bid_qty_history.len();
        let prev_b: i64 = if blen > 0 {
            self.bid_qty_history[blen - 1]
        } else {
            bid_qty
        };
        let prev_a: i64 = if blen > 0 {
            self.ask_qty_history[blen - 1]
        } else {
            ask_qty
        };
        let tick: i64 = (bid_qty - prev_b) - (ask_qty - prev_a);
        let ghost pre_bid = self.bid_qty_history@;
        let ghost pre_ask = self.ask_qty_history@;
        self.bid_qty_history.push_back(bid_qty);
        self.ask_qty_history.push_back(ask_qty);
        proof {
            let ghost bl = blen as int;
            assert(-2 * VAL_CAP <= tick <= 2 * VAL_CAP);
            assert((bl + 20) * (4 * VAL_CAP) + 2 * VAL_CAP <= (bl + 21) * (4
                * VAL_CAP)) by (nonlinear_arith)
                requires
                    bl >= 0,
            ;
            assert((bl + 21) * (4 * VAL_CAP) <= (WINDOW_CAP + 21) * (4
                * VAL_CAP)) by (nonlinear_arith)
                requires
                    0 <= bl <= WINDOW_CAP,
            ;
        }
        if self.bid_qty_history.len() > fast {
            let _b = self.bid_qty_history.pop_front();
            let _a = self.ask_qty_history.pop_front();
            let t: i64 = self.ofi_sum + tick;
            proof {
                let ghost bl = blen as int;
                assert(-((bl + 21) * (4 * VAL_CAP)) * 95 <= t * 95 <= ((bl + 21) * (4 * VAL_CAP))
                    * 95) by (nonlinear_arith)
                    requires
                        -((bl + 21) * (4 * VAL_CAP)) <= t <= (bl + 21) * (4 * VAL_CAP),
                ;
                assert(((bl + 21) * (4 * VAL_CAP)) * 95 <= 100 * ((bl + 20) * (4
                    * VAL_CAP))) by (nonlinear_arith)
                    requires
                        bl >= 0,
                ;
                crate::signal_math::lemma_div_tr_bound(
                    t * 95,
                    100,
                    (bl + 20) * (4 * VAL_CAP),
                );
            }
            let q: i128 = div_i128((t as i128) * 95, 100);
            self.ofi_sum = q as i64;
        } else {
            self.ofi_sum = self.ofi_sum + tick;
        }
        proof {
            let pushed_b = pre_bid.push(bid_qty);
            let pushed_a = pre_ask.push(ask_qty);
            assert forall|i: int| 0 <= i < self.bid_hist().len() implies 0
                <= #[trigger] self.bid_hist()[i] <= VAL_CAP by {
                if self.bid_hist().len() == pre_bid.len() {
                    assert(self.bid_hist() =~= pushed_b.skip(1));
                    assert(self.bid_hist()[i] == pushed_b[i + 1]);
                } else {
                    assert(self.bid_hist()[i] == pushed_b[i]);
                }
            }
            assert forall|i: int| 0 <= i < self.ask_hist().len() implies 0
                <= #[trigger] self.ask_hist()[i] <= VAL_CAP by {
                if self.ask_hist().len() == pre_ask.len() {
                    assert(self.ask_hist() =~= pushed_a.skip(1));
                    assert(self.ask_hist()[i] == pushed_a[i + 1]);
                } else {
                    assert(self.ask_hist()[i] == pushed_a[i]);
                }
            }
        }
        let ghost of_bound: int = (self.bid_hist().len() + 20) * (4 * VAL_CAP);
        proof {
            assert(of_bound <= (WINDOW_CAP + 20) * (4 * VAL_CAP)) by (nonlinear_arith)
                requires
                    self.bid_hist().len() <= WINDOW_CAP && of_bound == (self.bid_hist().len() + 20)
                        * (4 * VAL_CAP),
            ;
            assert(-((WINDOW_CAP + 20) * (4 * VAL_CAP)) * SCALE <= self.ofi_sum * SCALE <= ((
            WINDOW_CAP + 20) * (4 * VAL_CAP)) * SCALE) by (nonlinear_arith)
                requires
                    -((WINDOW_CAP + 20) * (4 * VAL_CAP)) <= self.ofi_sum <= (WINDOW_CAP + 20) * (4
                        * VAL_CAP),
            ;
        }
        let ofi_sig: i128 = div_i128((self.ofi_sum as i128) * (SCALE as i128), fast as i128);
        proof {
            crate::alpha_transient::lemma_div_tr_abs_le(
                ((self.ofi_sum as i128) * (SCALE as i128)) as int,
                fast as int,
            );
        }
        // Regime and weights.
        let regime: i64 = compute_vol_regime(
            &self.returns_history,
            self.vol_short_window,
            self.vol_long_window,
        );
        let fw: i64 = if regime > 0 {
            600_000
        } else if regime < 0 {
            400_000
        } else {
            500_000
        };
        proof {
            let ghost oc: int = ((WINDOW_CAP + 20) * (4 * VAL_CAP)) * SCALE;
            assert(-(SCALE * oc) <= (fw as int) * (tf as int) + ((SCALE - fw) as int) * (
            ofi_sig as int) <= SCALE * oc) by (nonlinear_arith)
                requires
                    0 <= fw <= SCALE && -0x8000_0000_0000_0000i128 <= tf
                        <= 0x8000_0000_0000_0000i128 && -oc <= ofi_sig <= oc && oc
                        >= 0x8000_0000_0000_0000i128,
            ;
        }
        let dnum: i128 = (fw as i128) * (tf as i128) + ((SCALE - fw) as i128) * ofi_sig;
        self.signal_dynamic = clamp_i128_to_i64(div_i128(dnum, SCALE as i128));
        // Interaction.
        let lam2: i64 = self.hawkes_intensity;
        let hc: i64 = if lam2 < 0 {
            0
        } else if lam2 > 2 * SCALE {
            2 * SCALE
        } else {
            lam2
        };
        let h: i64 = crate::fixed::div_i64(hc, 2);
        proof {
            let ghost oc: int = ((WINDOW_CAP + 20) * (4 * VAL_CAP)) * SCALE;
            assert(-(SCALE * oc) <= -((h as int) * (ofi_sig as int)) <= SCALE * oc) by (
            nonlinear_arith)
                requires
                    0 <= h <= SCALE && -oc <= ofi_sig <= oc && oc >= 0,
            ;
            assert(-(SCALE * 0x8000_0000_0000_0000i128) <= (tf as int) * ((SCALE - h) as int)
                <= SCALE * 0x8000_0000_0000_0000i128) by (nonlinear_arith)
                requires
                    0 <= h <= SCALE && -0x8000_0000_0000_0000i128 <= tf
                        <= 0x8000_0000_0000_0000i128,
            ;
        }
        let ha: i128 = div_i128(-((h as i128) * ofi_sig), SCALE as i128);
        let damp: i128 = div_i128((tf as i128) * ((SCALE - h) as i128), SCALE as i128);
        proof {
            let ghost oc: int = ((WINDOW_CAP + 20) * (4 * VAL_CAP)) * SCALE;
            crate::alpha_transient::lemma_div_tr_abs_le(
                (-((h as i128) * ofi_sig)) as int,
                SCALE as int,
            );
            crate::alpha_transient::lemma_div_tr_abs_le(
                ((tf as i128) * ((SCALE - h) as i128)) as int,
                SCALE as int,
            );
        }
        let si: i128 = div_i128(ha + damp, 2);
        self.signal_interaction = clamp_i128_to_i64(si);
        // Combination.
        let sd2: i64 = self.signal_dynamic;
        let si2: i64 = self.signal_interaction;
        proof {
            assert(-(SCALE * 0x8000_0000_0000_0000i128) <= (DYN_WEIGHT as int) * (sd2 as int)
                <= SCALE * 0x8000_0000_0000_0000i128) by (nonlinear_arith)
                requires
                    -0x8000_0000_0000_0000i128 <= sd2 <= 0x8000_0000_0000_0000i128 && 0
                        <= DYN_WEIGHT <= SCALE,
            ;
            assert(-(SCALE * 0x8000_0000_0000_0000i128) <= (INT_WEIGHT as int) * (si2 as int)
                <= SCALE * 0x8000_0000_0000_0000i128) by (nonlinear_arith)
                requires
                    -0x8000_0000_0000_0000i128 <= si2 <= 0x8000_0000_0000_0000i128 && 0
                        <= INT_WEIGHT <= SCALE,
            ;
        }
        let cnum: i128 = (DYN_WEIGHT as i128) * (sd2 as i128) + (INT_WEIGHT as i128) * (
        si2 as i128);
        let c: i128 = div_i128(cnum, SCALE as i128);
        proof {
            crate::alpha_transient::lemma_div_tr_abs_le(cnum as int, SCALE as int);
        }
        let same: bool = (sd2 > 0 && si2 > 0) || (sd2 < 0 && si2 < 0);
        if same && (sd2 > 500_000 || sd2 < -500_000) && (si2 > 500_000 || si2 < -500_000) {
            proof {
                let ghost cb: int = 2 * SCALE * 0x8000_0000_0000_0000i128;
                assert(-(cb * BOOST) <= (c as int) * (BOOST as int) <= cb * BOOST) by (
                nonlinear_arith)
                    requires
                        -cb <= c <= cb && 0 <= BOOST && cb >= 0,
                ;
            }
            clamp_i128_to_i64(div_i128(c * (BOOST as i128), SCALE as i128))
        } else {
            clamp_i128_to_i64(c)
        }
    }
}

} // verus!
