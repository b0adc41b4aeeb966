use cadence::bus::{timestamp_of, Bus, Filter, OfferResult};
use cadence::channel::SendOutcome;
use cadence::message::Message;

fn bus() -> Bus {
    Bus::new(4)
}

#[test]
fn single_subscriber_receives() {
    let mut b = bus();
    let (_id, rx) = b.subscribe("prices");
    let r = b.offer(Message::new("prices", b"42"));
    assert_eq!(r.sent, 1);
    assert_eq!(r.dropped, 0);
    let m = rx.try_recv().unwrap();
    assert_eq!(m.topic_str(), "prices");
    assert_eq!(m.payload_bytes(), b"42");
}

#[test]
fn topic_isolation_exact() {
    let mut b = bus();
    let (_id, rx_a) = b.subscribe("a");
    let (_id, rx_b) = b.subscribe("b");
    b.publish(Message::new("a", b"for-a"));
    assert!(rx_a.try_recv().is_ok());
    assert!(rx_b.try_recv().is_err());
}

#[test]
fn multi_subscriber_same_topic() {
    let mut b = bus();
    let (_id, rx1) = b.subscribe("x");
    let (_id, rx2) = b.subscribe("x");
    let r = b.offer(Message::new("x", b"hi"));
    assert_eq!(r.sent, 2);
    assert!(rx1.try_recv().is_ok());
    assert!(rx2.try_recv().is_ok());
}

#[test]
fn unsubscribe_stops_delivery() {
    let mut b = bus();
    let (id, rx) = b.subscribe("z");
    b.unsubscribe(id);
    b.publish(Message::new("z", b"gone"));
    assert!(rx.try_recv().is_err());
}

#[test]
fn timestamp_is_set() {
    let mut b = bus();
    let (_id, rx) = b.subscribe("ts");
    b.publish(Message::new("ts", b""));
    let m = rx.try_recv().unwrap();
    assert!(m.timestamp_ns > 0);
}

#[test]
fn wildcard_prefix_matches() {
    let mut b = bus();
    let (_id, rx) = b.subscribe("prices.*");
    b.publish(Message::new("prices.USD", b"1"));
    b.publish(Message::new("prices.EUR", b"2"));
    assert!(rx.try_recv().is_ok());
    assert!(rx.try_recv().is_ok());
}

#[test]
fn wildcard_does_not_match_unrelated() {
    let mut b = bus();
    let (_id, rx) = b.subscribe("prices.*");
    b.publish(Message::new("orders.new", b"x"));
    assert!(rx.try_recv().is_err());
}

#[test]
fn exact_and_wildcard_coexist() {
    let mut b = bus();
    let (_id, rx_exact) = b.subscribe("prices.USD");
    let (_id, rx_wild) = b.subscribe("prices.*");
    b.publish(Message::new("prices.USD", b"99"));
    assert!(rx_exact.try_recv().is_ok());
    assert!(rx_wild.try_recv().is_ok());
}

#[test]
fn backpressure_drops_when_full() {
    // capacity = 4; publish 8 msgs without draining
    let mut b = Bus::new(4);
    let (_id, _rx) = b.subscribe("flood");
    let mut total_dropped = 0usize;
    for _ in 0..8 {
        total_dropped += b.offer(Message::new("flood", b"x")).dropped;
    }
    assert!(total_dropped >= 4, "expected at least 4 drops, got {total_dropped}");
    assert!(b.drop_count() >= 4);
}

#[test]
fn slow_subscriber_does_not_block_fast_subscriber() {
    // Two subscribers: one drains, one doesn't.
    let mut b = Bus::new(4);
    let (_id, rx_fast) = b.subscribe("t");
    let (_id, _rx_slow) = b.subscribe("t"); // intentionally not drained

    for _ in 0..8 {
        b.offer(Message::new("t", b"x"));
        let _ = rx_fast.try_recv(); // keep fast subscriber drained
    }
    // fast subscriber should have received all 8
    // (the slow one will have dropped >= 4, but fast one never blocked)
    assert_eq!(rx_fast.try_recv().is_err(), true); // drained
}

#[test]
fn filters_tell_wildcards_from_exact_topics() {
    assert!(matches!(Filter::parse("prices"), Filter::Exact(t) if t == "prices"));
    assert!(matches!(Filter::parse("prices.*"), Filter::Prefix(t) if t == "prices."));
    assert!(matches!(Filter::parse("*"), Filter::Prefix(t) if t.is_empty()));
    assert!(matches!(Filter::parse(""), Filter::Exact(t) if t.is_empty()));
    assert!(matches!(Filter::parse("a*b"), Filter::Exact(t) if t == "a*b"));
    assert!(matches!(Filter::parse("a**"), Filter::Prefix(t) if t == "a*"));
}

#[test]
fn filters_match_whole_topics_or_prefixes() {
    let exact = Filter::parse("prices");
    assert!(exact.matches("prices"));
    assert!(!exact.matches("prices.USD"));
    assert!(!exact.matches("price"));
    let prefix = Filter::parse("prices.*");
    assert!(prefix.matches("prices."));
    assert!(prefix.matches("prices.USD"));
    assert!(!prefix.matches("prices"));
    assert!(Filter::parse("*").matches(""));
    assert!(!Filter::parse("é*").matches("etat"));
    assert!(Filter::parse("é*").matches("été"));
}

#[test]
fn every_attempt_is_sent_dropped_or_gone() {
    let mut b = Bus::new(1);
    let (_a, rx_a) = b.subscribe("t");
    let (_b, _rx_b) = b.subscribe("t");
    let (_c, rx_c) = b.subscribe("t");
    drop(rx_c);
    assert_eq!(b.offer(Message::new("t", b"1")), OfferResult { sent: 2, dropped: 0 });
    assert!(rx_a.try_recv().is_ok());
    assert_eq!(b.offer(Message::new("t", b"2")), OfferResult { sent: 1, dropped: 1 });
    assert_eq!(b.drop_count(), 1);
    assert_eq!(b.offer(Message::new("t", b"3")), OfferResult { sent: 0, dropped: 2 });
    assert_eq!(b.drop_count(), 3);
    assert_eq!(b.publish(Message::new("other", b"")), 0);
    assert_eq!(b.drop_count(), 3);
}

#[test]
fn ids_are_never_used_twice() {
    let mut b = bus();
    let (first, _rx1) = b.subscribe("a");
    b.unsubscribe(first);
    let (second, _rx2) = b.subscribe("a");
    assert_eq!((first, second), (0, 1));
    b.unsubscribe(99);
    assert_eq!(b.publish(Message::new("a", b"")), 1);
}

#[test]
fn messages_arrive_in_order_with_their_timestamp() {
    let mut b = bus();
    let (_id, rx) = b.subscribe("o");
    b.offer_at(Message::new("o", b"1"), 10);
    b.offer_at(Message::new("o", b"2"), 20);
    let first = rx.try_recv().unwrap();
    let second = rx.try_recv().unwrap();
    assert_eq!((first.timestamp_ns, first.payload_bytes()), (10, &b"1"[..]));
    assert_eq!((second.timestamp_ns, second.payload_bytes()), (20, &b"2"[..]));
}

#[test]
fn queue_of_capacity_zero_refuses_without_a_waiting_receiver() {
    let mut b = Bus::new(0);
    let (_id, _rx) = b.subscribe("t");
    assert_eq!(b.offer(Message::new("t", b"")), OfferResult { sent: 0, dropped: 1 });
}

#[test]
fn outcomes_are_counted() {
    let mut r = OfferResult { sent: 0, dropped: 0 };
    r.count(&SendOutcome::Sent);
    assert_eq!(r, OfferResult { sent: 1, dropped: 0 });
    r.count(&SendOutcome::Full(Message::new("t", b"x")));
    assert_eq!(r, OfferResult { sent: 1, dropped: 1 });
    r.count(&SendOutcome::Disconnected(Message::new("t", b"x")));
    assert_eq!(r, OfferResult { sent: 1, dropped: 1 });
}

#[test]
fn matching_queues_get_the_message_once_and_others_nothing() {
    let mut b = bus();
    let (_a, rx_a) = b.subscribe("t");
    let (_b, rx_b) = b.subscribe("t*");
    let (_c, rx_c) = b.subscribe("u");
    let mut m = Message::new("t", b"x");
    m.timestamp_ns = 5;
    assert_eq!(b.deliver(&m), OfferResult { sent: 2, dropped: 0 });
    assert_eq!(rx_a.try_iter().collect::<Vec<_>>(), vec![m.clone()]);
    assert_eq!(rx_b.try_iter().collect::<Vec<_>>(), vec![m]);
    assert_eq!(rx_c.try_iter().count(), 0);
    assert_eq!(b.drop_count(), 0);
}

#[test]
fn wildcard_queue_in_offer_order() {
    let mut b = bus();
    let (_id, rx) = b.subscribe("prices.*");
    assert_eq!(b.publish(Message::new("prices.USD", b"1")), 1);
    assert_eq!(b.publish(Message::new("prices.EUR", b"2")), 1);
    assert_eq!(b.publish(Message::new("orders.new", b"x")), 0);
    assert_eq!(rx.try_recv().unwrap().payload_bytes(), b"1");
    assert_eq!(rx.try_recv().unwrap().payload_bytes(), b"2");
    assert!(rx.try_recv().is_err());
}

#[test]
fn full_queue_keeps_what_it_has() {
    let mut b = Bus::new(2);
    let (_id, rx) = b.subscribe("t");
    for payload in [b"1", b"2", b"3"] {
        b.publish(Message::new("t", payload));
    }
    assert_eq!(b.drop_count(), 1);
    assert_eq!(rx.try_recv().unwrap().payload_bytes(), b"1");
    assert_eq!(rx.try_recv().unwrap().payload_bytes(), b"2");
    assert!(rx.try_recv().is_err());
}

#[test]
fn ended_subscription_keeps_its_queue_and_gets_no_more() {
    let mut b = bus();
    let (id, rx) = b.subscribe("t");
    let (_other, rx_other) = b.subscribe("t");
    b.publish(Message::new("t", b"1"));
    b.unsubscribe(id);
    b.unsubscribe(id);
    let (_late, rx_late) = b.subscribe("t");
    assert_eq!(b.publish(Message::new("t", b"2")), 2);
    assert_eq!(rx.try_recv().unwrap().payload_bytes(), b"1");
    assert!(rx.try_recv().is_err());
    assert_eq!(rx_other.try_iter().count(), 2);
    // Earlier messages are not replayed.
    assert_eq!(rx_late.try_iter().count(), 1);
}

#[test]
fn timestamps_are_nanoseconds_since_the_epoch() {
    assert_eq!(timestamp_of(Some((1, 5))), 1_000_000_005);
    assert_eq!(timestamp_of(None), 0);
    // 2^64 nanoseconds are 18446744073.709551616 seconds.
    assert_eq!(timestamp_of(Some((18_446_744_073, 709_551_616))), 0);
}
