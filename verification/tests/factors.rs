use hft_core::alpha::AlphaDepthSlope;
use hft_core::alpha_pressure::AlphaRegimePressure;
use hft_core::alpha_reversal::AlphaRegimeReversal;
use hft_core::feature::LobFeatureKernelV1;
use hft_core::lob::LimitOrderBook;
use hft_core::rl::{RLParams, RLStrategy};
use hft_core::strategy::AlphaStrategy;

fn sample_book() -> LimitOrderBook {
    let mut book = LimitOrderBook::new("SYM".to_string());
    book.update(true, 1000, 5);
    book.update(true, 999, 5);
    book.update(true, 998, 5);
    book.update(false, 1002, 5);
    book.update(false, 1003, 5);
    book.update(false, 1004, 5);
    book
}

#[test]
fn test_depth_slope_uniform_book_is_flat() {
    // Equal quantities on every level: both regressions are flat, and the
    // smoothed signal stays at zero.
    let mut f = AlphaDepthSlope::new(10);
    let book = sample_book();
    assert_eq!(f.calculate(&book), 0);
    assert_eq!(f.calculate(&book), 0);

    // A single level per side cannot give a slope either.
    let mut thin = LimitOrderBook::new("SYM".to_string());
    thin.update(true, 1000, 9);
    thin.update(false, 1002, 1);
    let mut g = AlphaDepthSlope::new(10);
    assert_eq!(g.calculate(&thin), 0);
}

#[test]
fn test_depth_slope_decaying_bids() {
    // Bid depth thins out with distance from the top while asks stay
    // uniform: the bid slope is negative, so the signal is too.
    let mut book = LimitOrderBook::new("SYM".to_string());
    book.update(true, 1000, 1000000);
    book.update(true, 999, 100000);
    book.update(true, 998, 10000);
    book.update(false, 1002, 5000);
    book.update(false, 1003, 5000);
    book.update(false, 1004, 5000);
    let mut f = AlphaDepthSlope::new(10);
    let s = f.calculate(&book);
    assert!(s < 0);
}

#[test]
fn test_pressure_threshold_and_signal() {
    // Threshold 0: the volatility filter never blocks, so the factor
    // reports the raw best-level quantity difference at once.
    let mut open_gate = AlphaRegimePressure::new(10, 0);
    let mut book = sample_book();
    book.update(true, 1000, 9);
    assert_eq!(open_gate.calculate(&book), 9 - 5);

    // A huge threshold suppresses the factor entirely.
    let mut closed_gate = AlphaRegimePressure::new(10, i64::MAX);
    assert_eq!(closed_gate.calculate(&book), 0);

    // An empty side yields 0.
    let empty = LimitOrderBook::new("SYM".to_string());
    assert_eq!(open_gate.calculate(&empty), 0);
    assert_eq!(open_gate.get_current_vol(), 0);
}

#[test]
fn test_reversal_deviation() {
    // Threshold 0 never suppresses; a constant mid gives zero deviation.
    let mut f = AlphaRegimeReversal::new(10, 0, 4);
    let book = sample_book();
    assert_eq!(f.calculate(&book), 0);
    assert_eq!(f.get_current_ma(), 2002);
    // A higher mid sits above the rolling average: reversal is negative.
    let mut book2 = LimitOrderBook::new("SYM".to_string());
    book2.update(true, 1200, 5);
    book2.update(false, 1202, 5);
    let s = f.calculate(&book2);
    assert!(s < 0);
}

#[test]
fn test_feature_kernel_vector() {
    let mut k = LobFeatureKernelV1::new();
    let v = k.update(100, 102, 202, 2, 50, 30, 5, 3);
    assert_eq!(
        v,
        vec![100, 102, 202, 2, 50, 30, 250000, 202, 5, 3, 250000, 0, 0, 0, 2, 250000]
    );
    // Second snapshot: bid improved to 101 carrying 4, ask quantity 3 -> 2.
    let v = k.update(101, 102, 203, 1, 50, 30, 4, 2);
    // Bid flow 4 (price up), ask flow -1 (2 - 3): raw = 5, cumulative 5.
    assert_eq!(v[11], 5);
    assert_eq!(v[12], 5);
    // Spread average moved from 2 toward 1 and rounds back to 2.
    assert_eq!(v[14], 2);
    k.reset();
    let v = k.update(100, 102, 202, 2, 50, 30, 5, 3);
    assert_eq!(v[11], 0);
}

#[test]
fn test_feature_kernel_ties_even() {
    // Microprice 2*(102*5 + 100*3)/8 = 202.5 rounds to the even 202.
    let mut k = LobFeatureKernelV1::new();
    let v = k.update(100, 102, 202, 2, 0, 0, 5, 3);
    assert_eq!(v[7], 202);
    // 2*(103*5 + 101*3)/8 = 204.5 rounds to the even 204.
    let mut k2 = LobFeatureKernelV1::new();
    let v2 = k2.update(101, 103, 204, 2, 0, 0, 5, 3);
    assert_eq!(v2[7], 204);
}

#[test]
fn test_strategy_signal() {
    let mut s = AlphaStrategy::new(1, 20_000, 200_000, 100_000);
    let bids = vec![(100i64, 10i64)];
    let asks = vec![(102i64, 6i64)];
    // No trade yet: the signal is the level-one imbalance alone.
    assert_eq!(s.on_depth(&bids, &asks), 250_000);
    // A trade at the mid keeps the momentum at zero and bumps intensity.
    let intensity = s.on_trade(1_000_000_000, 101, 1, false);
    assert_eq!(intensity, 220_000);
    let (lam, mom_x2) = s.get_signal();
    assert_eq!(lam, 220_000);
    assert_eq!(mom_x2, 0);
    // Empty sides yield zero and change nothing.
    assert_eq!(s.on_depth(&vec![], &asks), 0);
}

#[test]
fn test_rl_feature_vector() {
    let params = RLParams::new(5, 1);
    let mut s = RLStrategy::new(params);
    let bids = vec![(100i64, 10i64)];
    let asks = vec![(102i64, 6i64)];
    let f = s.on_depth(&bids, &asks);
    // Level-one imbalance 0.25; the cubed microprice term truncates to 0;
    // the first order-flow tick charges the full bid quantity.
    assert_eq!(f, vec![0, 0, 0, 0, 250_000, 0, 0, 0, 0, 10, 0]);
    s.update_position(3);
    let f = s.on_depth(&bids, &asks);
    // Unchanged book: flows cancel, the accumulator decays to 9.
    assert_eq!(f[9], 9);
    assert_eq!(f[10], 3);
}
