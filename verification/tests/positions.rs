use hft_core::positions::RustPositionTracker;

const BUY: i64 = 0;
const SELL: i64 = 1;

#[test]
fn test_open_long_then_close() {
    let mut tracker = RustPositionTracker::new();
    let key = "acc:strat:SYM".to_string();

    // Buy 10 @ 1000 (scaled)
    let (net, avg, pnl, fees) = tracker.update(key.clone(), BUY, 10, 1000, 5, 0, 100);
    assert_eq!(net, 10);
    assert_eq!(avg, 1000);
    assert_eq!(pnl, 0);
    assert_eq!(fees, 5);

    // Sell 10 @ 1050 -> PnL = (1050-1000)*10 = 500
    let (net, _avg, pnl, fees) = tracker.update(key.clone(), SELL, 10, 1050, 5, 0, 200);
    assert_eq!(net, 0);
    assert_eq!(pnl, 500);
    assert_eq!(fees, 10);
}

#[test]
fn test_open_short_then_close() {
    let mut tracker = RustPositionTracker::new();
    let key = "acc:strat:SYM".to_string();

    // Sell 5 @ 2000 (open short)
    let (net, avg, pnl, _) = tracker.update(key.clone(), SELL, 5, 2000, 0, 0, 100);
    assert_eq!(net, -5);
    assert_eq!(avg, 2000);
    assert_eq!(pnl, 0);

    // Buy 5 @ 1900 (cover) -> PnL = (2000-1900)*5 = 500
    let (net, _avg, pnl, _) = tracker.update(key.clone(), BUY, 5, 1900, 0, 0, 200);
    assert_eq!(net, 0);
    assert_eq!(pnl, 500);
}

#[test]
fn test_increase_long_weighted_avg() {
    let mut tracker = RustPositionTracker::new();
    let key = "acc:strat:SYM".to_string();

    // Buy 10 @ 1000
    tracker.update(key.clone(), BUY, 10, 1000, 0, 0, 100);
    // Buy 10 @ 1200 -> avg = (10*1000 + 10*1200) / 20 = 1100
    let (net, avg, pnl, _) = tracker.update(key.clone(), BUY, 10, 1200, 0, 0, 200);
    assert_eq!(net, 20);
    assert_eq!(avg, 1100);
    assert_eq!(pnl, 0);
}

#[test]
fn test_flip_position() {
    let mut tracker = RustPositionTracker::new();
    let key = "acc:strat:SYM".to_string();

    // Buy 10 @ 1000
    tracker.update(key.clone(), BUY, 10, 1000, 0, 0, 100);
    // Sell 15 @ 1100 -> close 10 (pnl=1000), open short 5 @ 1100
    let (net, avg, pnl, _) = tracker.update(key.clone(), SELL, 15, 1100, 0, 0, 200);
    assert_eq!(net, -5);
    assert_eq!(avg, 1100);
    assert_eq!(pnl, 1000); // (1100-1000)*10
}

#[test]
fn test_get_reset_and_len() {
    let mut tracker = RustPositionTracker::new();
    let key_a = "acc:strat:AAA".to_string();
    let key_b = "acc:strat:BBB".to_string();
    assert_eq!(tracker.get(&key_a), (0, 0, 0, 0));
    assert_eq!(tracker.len(), 0);

    tracker.update(key_a.clone(), BUY, 3, 500, 1, 2, 10);
    tracker.update(key_b.clone(), SELL, 2, 700, 0, 0, 11);
    assert_eq!(tracker.len(), 2);
    assert_eq!(tracker.get(&key_a), (3, 500, 0, 3));
    assert_eq!(tracker.get(&key_b), (-2, 700, 0, 0));

    tracker.reset(&key_a);
    assert_eq!(tracker.len(), 1);
    assert_eq!(tracker.get(&key_a), (0, 0, 0, 0));
    assert_eq!(tracker.get(&key_b), (-2, 700, 0, 0));
}

#[test]
fn test_partial_close_keeps_avg() {
    let mut tracker = RustPositionTracker::new();
    let key = "acc:strat:SYM".to_string();
    tracker.update(key.clone(), BUY, 10, 1000, 0, 0, 1);
    // Sell 4 @ 1100: closes 4 at +100 each, avg unchanged.
    let (net, avg, pnl, _) = tracker.update(key.clone(), SELL, 4, 1100, 0, 0, 2);
    assert_eq!(net, 6);
    assert_eq!(avg, 1000);
    assert_eq!(pnl, 400);
}
