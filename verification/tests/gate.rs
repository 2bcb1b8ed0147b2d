use hft_core::risk::{decide, FastGate};

#[test]
fn test_gate_codes_pure() {
    // Reason codes in their strict order of evaluation.
    assert_eq!(decide(1, 100, 10, 1000, 50), (false, 1));
    assert_eq!(decide(0, 0, 10, 1000, 50), (false, 2));
    assert_eq!(decide(0, 2000, 10, 1000, 50), (false, 3));
    assert_eq!(decide(0, 100, 0, 1000, 50), (false, 5));
    assert_eq!(decide(0, 100, 60, 1000, 50), (false, 4));
    assert_eq!(decide(0, 100, 10, 1000, 50), (true, 0));
}

#[test]
fn test_gate_precedence() {
    // Kill switch first, regardless of price and quantity validity; with
    // the switch off, a non-positive price wins even when the quantity is
    // also invalid.
    assert_eq!(decide(7, -5, -5, 1000, 50), (false, 1));
    assert_eq!(decide(7, 100, 10, 1000, 50), (false, 1));
    assert_eq!(decide(0, -5, -5, 1000, 50), (false, 2));
    assert_eq!(decide(0, 0, 60, 1000, 50), (false, 2));
}

#[test]
fn test_gate_shared_kill_switch() {
    let mmap = memmap2::MmapMut::map_anon(1).unwrap();
    let mut gate = FastGate::new(mmap, 1000, 50).unwrap();

    assert_eq!(gate.check(100, 10), (true, 0));
    gate.set_kill_switch(true);
    assert_eq!(gate.check(100, 10), (false, 1));
    assert_eq!(gate.check(-1, -1), (false, 1));
    gate.set_kill_switch(false);
    assert_eq!(gate.check(100, 10), (true, 0));
    assert_eq!(gate.check(100, 60), (false, 4));

    // An empty mapping cannot carry the kill switch.
    let empty = memmap2::MmapMut::map_anon(0);
    if let Ok(m) = empty {
        assert!(FastGate::new(m, 1000, 50).is_none());
    }
}
