use cadence::spsc::{
    consumer_slot, producer_slot, spsc, RecvStep, SendStep, WaitStrategy,
};

#[test]
fn basic_send_recv() {
    let (mut tx, mut rx, mut ring) = spsc::<u64>(4);
    assert_eq!(tx.try_send(&mut ring, 42), Ok(()));
    assert_eq!(rx.try_recv(&mut ring), Some(42));
    assert_eq!(rx.try_recv(&mut ring), None);
}

#[test]
fn full_returns_err() {
    let (mut tx, mut rx, mut ring) = spsc::<u32>(4);
    for i in 0..4 {
        tx.try_send(&mut ring, i).unwrap();
    }
    assert!(tx.try_send(&mut ring, 99).is_err());
    // drain one, then it should accept again
    let _ = rx.try_recv(&mut ring);
    assert!(tx.try_send(&mut ring, 99).is_ok());
}

#[test]
fn wrap_around() {
    let (mut tx, mut rx, mut ring) = spsc::<u64>(4);
    // Fill, drain, fill again — exercises the bitmask wrap
    for round in 0..4u64 {
        for i in 0..4 {
            tx.try_send(&mut ring, round * 4 + i).unwrap();
        }
        for i in 0..4 {
            assert_eq!(rx.try_recv(&mut ring), Some(round * 4 + i));
        }
    }
    assert_eq!(rx.try_recv(&mut ring), None);
}

#[derive(Debug)]
struct Counted(std::sync::Arc<std::sync::atomic::AtomicUsize>);

impl Drop for Counted {
    fn drop(&mut self) {
        self.0.fetch_add(1, std::sync::atomic::Ordering::Relaxed);
    }
}

#[test]
fn drop_drains_unread_elements() {
    let counter = std::sync::Arc::new(std::sync::atomic::AtomicUsize::new(0));
    let c = counter.clone();
    let (mut tx, rx, mut ring) = spsc::<Counted>(4);
    tx.try_send(&mut ring, Counted(c.clone())).unwrap();
    tx.try_send(&mut ring, Counted(c.clone())).unwrap();
    drop(tx);
    drop(rx);
    drop(ring); // the storage owns the 2 unread items
    assert_eq!(counter.load(std::sync::atomic::Ordering::Relaxed), 2);
}

#[test]
fn sum_over_a_small_ring() {
    let (mut tx, mut rx, mut ring) = spsc::<u64>(1024);
    let mut next = 0u64;
    let mut received = 0u64;
    let mut sum = 0u64;
    while received < 100_000 {
        while next < 100_000 {
            match tx.send(&mut ring, next, WaitStrategy::Yield) {
                SendStep::Sent => next += 1,
                SendStep::Wait { value, strategy } => {
                    assert_eq!((value, strategy), (next, WaitStrategy::Yield));
                    break;
                }
            }
        }
        while let RecvStep::Received { value } = rx.recv(&mut ring, WaitStrategy::BusySpin) {
            assert_eq!(value, received);
            received += 1;
            sum += value;
        }
    }
    assert_eq!(sum, (0..100_000u64).sum::<u64>());
    assert!(matches!(
        rx.recv(&mut ring, WaitStrategy::BusySpin),
        RecvStep::Wait { strategy: WaitStrategy::BusySpin }
    ));
}

#[test]
fn refused_value_comes_back() {
    let (mut tx, _rx, mut ring) = spsc::<String>(1);
    assert_eq!(tx.try_send(&mut ring, "a".to_string()), Ok(()));
    assert_eq!(tx.try_send(&mut ring, "b".to_string()), Err("b".to_string()));
}

#[test]
fn both_halves_know_the_capacity() {
    let (tx, rx, _ring) = spsc::<u8>(16);
    assert_eq!((tx.capacity(), rx.capacity()), (16, 16));
}

#[test]
fn slot_decisions_at_the_end_of_the_cursors() {
    // Cursors wrap around: head is past the end, tail is not yet.
    assert_eq!(producer_slot(1, usize::MAX - 1, 3), Some(1));
    assert_eq!(producer_slot(2, usize::MAX - 1, 3), None);
    assert_eq!(consumer_slot(usize::MAX, 1, 3), Some(3));
    assert_eq!(consumer_slot(5, 5, 3), None);
    assert_eq!(consumer_slot(6, 7, 3), Some(2));
}
