use hft_core::bus::EventBus;
use hft_core::ipc::{RingBuffer, ShmRingBuffer, HEADER_SIZE, SLOT_SIZE};
use hft_core::lob::LimitOrderBook;

#[test]
fn test_book_upsert_remove_and_top() {
    let mut book = LimitOrderBook::new("SYM".to_string());
    book.update(true, 1000, 5);
    book.update(true, 1002, 7);
    book.update(true, 998, 3);
    book.update(false, 1005, 4);
    book.update(false, 1003, 6);

    // Best bid is the maximum stored bid price.
    let bids = book.top_bids(2);
    assert_eq!(bids.len(), 2);
    assert_eq!((bids[0].price, bids[0].quantity), (1002, 7));
    assert_eq!((bids[1].price, bids[1].quantity), (1000, 5));

    // Best ask is the minimum stored ask price.
    let asks = book.top_asks(10);
    assert_eq!(asks.len(), 2);
    assert_eq!((asks[0].price, asks[0].quantity), (1003, 6));
    assert_eq!((asks[1].price, asks[1].quantity), (1005, 4));

    // The most recent update for a price decides presence and value.
    book.update(true, 1002, 9);
    let bids = book.top_bids(1);
    assert_eq!((bids[0].price, bids[0].quantity), (1002, 9));
    book.update(true, 1002, 0);
    let bids = book.top_bids(1);
    assert_eq!((bids[0].price, bids[0].quantity), (1000, 5));

    // Depth zero returns nothing.
    assert_eq!(book.top_bids(0).len(), 0);
}

#[test]
fn test_ring_backpressure_and_fifo() {
    // Capacity 3: three writes succeed, the fourth is refused until a read
    // frees a slot; reads return data in write order.
    let mut rb = RingBuffer::new(3, 4).unwrap();
    assert!(rb.write(&vec![1u8, 1]));
    assert!(rb.write(&vec![2u8]));
    assert!(rb.write(&vec![3u8, 3, 3, 3]));
    assert!(!rb.write(&vec![4u8]));
    assert_eq!(rb.len(), 3);

    let first = rb.read().unwrap();
    assert_eq!(first, vec![1u8, 1, 0, 0]);
    assert!(rb.write(&vec![4u8]));
    assert_eq!(rb.read().unwrap(), vec![2u8, 0, 0, 0]);
    assert_eq!(rb.read().unwrap(), vec![3u8, 3, 3, 3]);
    assert_eq!(rb.read().unwrap(), vec![4u8, 0, 0, 0]);

    // An empty buffer's read reports no data and changes nothing.
    assert!(rb.read().is_none());
    assert!(rb.read().is_none());
    assert_eq!(rb.len(), 0);

    // Degenerate configurations are refused.
    assert!(RingBuffer::new(0, 4).is_none());
    assert!(RingBuffer::new(4, 0).is_none());
}

#[test]
fn test_shm_ring_roundtrip() {
    let mmap = memmap2::MmapMut::map_anon(HEADER_SIZE + 2 * SLOT_SIZE).unwrap();
    let mut ring = ShmRingBuffer::new(mmap, 2).unwrap();
    ring.zero_header();

    assert!(ring.write(&vec![7u8, 8, 9]));
    assert!(ring.write(&vec![1u8; 100]));
    // Two slots filled: the third write is refused.
    assert!(!ring.write(&vec![2u8]));

    let a = ring.read().unwrap();
    assert_eq!(a.len(), SLOT_SIZE);
    assert_eq!(&a[0..3], &[7u8, 8, 9]);
    let b = ring.read().unwrap();
    assert_eq!(b, vec![1u8; SLOT_SIZE]);
    assert!(ring.read().is_none());

    // A mapping too small for the requested capacity is refused.
    let tiny = memmap2::MmapMut::map_anon(HEADER_SIZE).unwrap();
    assert!(ShmRingBuffer::new(tiny, 1).is_none());
}

#[test]
fn test_event_bus_order() {
    let mut bus = EventBus::new();
    assert!(bus.pop().is_none());
    bus.push("a".to_string());
    bus.push("b".to_string());
    assert_eq!(bus.len(), 2);
    assert_eq!(bus.pop().unwrap(), "a");
    assert_eq!(bus.pop().unwrap(), "b");
    assert!(bus.pop().is_none());
}
