use std::collections::VecDeque;

use hft_core::alpha_flow::MatchedFilterTradeFlow;
use hft_core::alpha_markov::AlphaMarkovTransition;
use hft_core::alpha_meta::{compute_vol_regime, MetaAlpha};
use hft_core::alpha_ofi::AlphaOFI;
use hft_core::alpha_transient::AlphaTransientReprice;
use hft_core::expneg::exp_neg;
use hft_core::strategy::HawkesTracker;

#[test]
fn test_exp_neg_values() {
    assert_eq!(exp_neg(0), 1_000_000);
    assert_eq!(exp_neg(1_000_000), 367_879);
    assert_eq!(exp_neg(500_000), 606_531);
    assert_eq!(exp_neg(14_000_000), 0);
    assert_eq!(exp_neg(1_000_000_000), 0);
}

#[test]
fn test_hawkes_jump_and_convergence() {
    // mu 0.02, alpha 0.2, beta 0.1 (all micro-units).
    let mut h = HawkesTracker::new(20_000, 200_000, 100_000);
    // First event: intensity starts at mu, the jump adds exactly alpha.
    let v = h.update(1_000_000_000, true);
    assert_eq!(v, 220_000);
    // A very long quiet gap decays all the way back to mu.
    let v = h.update(1_000_000_000 + 200_000_000_000, false);
    assert_eq!(v, 20_000);
    // Non-monotonic time skips the decay but still applies the jump.
    let v = h.update(1_000_000_000, true);
    assert_eq!(v, 220_000);
}

#[test]
fn test_vol_regime_thresholds() {
    // Short std twice the long std: high volatility.
    let mut high: VecDeque<i64> = VecDeque::new();
    for _ in 0..6 {
        high.push_back(0);
    }
    high.push_back(1000);
    high.push_back(-1000);
    assert_eq!(compute_vol_regime(&high, 2, 8), 1);

    // Short std well below the long std: low volatility.
    let mut low: VecDeque<i64> = VecDeque::new();
    low.push_back(1000);
    low.push_back(-1000);
    for _ in 0..4 {
        low.push_back(0);
    }
    low.push_back(100);
    low.push_back(-100);
    assert_eq!(compute_vol_regime(&low, 2, 8), -1);

    // Too little history: normal.
    let short: VecDeque<i64> = VecDeque::from(vec![1, 2, 3]);
    assert_eq!(compute_vol_regime(&short, 2, 8), 0);

    // No long-window variance at all: normal.
    let flat: VecDeque<i64> = VecDeque::from(vec![5; 8]);
    assert_eq!(compute_vol_regime(&flat, 2, 8), 0);
}

#[test]
fn test_matched_filter_flow() {
    let mut f = MatchedFilterTradeFlow::new(2, 3);
    assert_eq!(f.update(4, 1), 0); // warming up
    assert_eq!(f.update(6, 1), 0); // warming up
    // Fast sum over last 2 = 16, capacity = 20 / 3 -> 16 * 3 / 20 = 2.4
    assert_eq!(f.update(10, 1), 2_400_000);
    // Zero-volume stream yields 0 once the window holds only zeros.
    let mut z = MatchedFilterTradeFlow::new(1, 2);
    z.update(0, 1);
    assert_eq!(z.update(0, 1), 0);
}

#[test]
fn test_ofi_batch() {
    let ofi = AlphaOFI::new();
    let out = ofi
        .compute(&vec![100, 101], &vec![102, 102], &vec![5, 7], &vec![4, 6])
        .unwrap();
    // Index 0 always 0; bid price improved (+7), ask unchanged (+2).
    assert_eq!(out, vec![0, 5]);
    // Mismatched lengths are refused.
    assert!(ofi.compute(&vec![1], &vec![1, 2], &vec![1], &vec![1]).is_none());
}

#[test]
fn test_transient_reprice() {
    let f = AlphaTransientReprice::new(1);
    let out = f.compute(&vec![100, 100, 102], &vec![102, 102, 104]).unwrap();
    // Mid sums: 202, 202, 206; the lag-1 returns are 0 and 4/202.
    assert_eq!(out, vec![0, 0, -19801]);
    assert!(f.compute(&vec![1], &vec![1, 2]).is_none());
}

#[test]
fn test_markov_transition() {
    let mut m = AlphaMarkovTransition::new(500_000);
    let out = m.compute(&vec![1000, 2000, -500]);
    // First prediction from a fresh up-bucket is 0; the bucket then holds
    // 1000 (half of 2000), which is the second prediction; last slot 0.
    assert_eq!(out, vec![0, 1000, 0]);
}

#[test]
fn test_meta_alpha_runs() {
    let mut meta = MetaAlpha::new(2, 3, 2, 4);
    let mut last: i64 = 0;
    for i in 0..10 {
        last = meta.update(10, if i % 2 == 0 { 1 } else { -1 }, 50, 40, 1000 + i);
    }
    // The ensemble produces a bounded, reproducible signal.
    let (sd, si) = meta.get_signals();
    let again = meta.update(10, 1, 50, 40, 1010);
    assert!(sd.abs() <= i64::MAX && si.abs() <= i64::MAX);
    let _ = (last, again);
    meta.reset();
    assert_eq!(meta.get_signals(), (0, 0));
}
