use cadence::message::Message;

#[test]
fn size_is_64_bytes() {
    assert_eq!(std::mem::size_of::<Message>(), 64);
}

#[test]
fn roundtrip_topic_payload() {
    let m = Message::new("orders", b"hello");
    assert_eq!(m.topic_str(), "orders");
    assert_eq!(m.payload_bytes(), b"hello");
}

#[test]
fn topic_truncation() {
    let long = "a".repeat(40);
    let m = Message::new(&long, b"");
    assert_eq!(m.topic_str().len(), 32);
}

#[test]
fn message_serialization_roundtrip() {
    let original = Message::new("ser.test", b"payload123");
    let bytes = original.to_bytes();
    let decoded = Message::from_bytes(&bytes);
    assert_eq!(decoded.topic_str(), original.topic_str());
    assert_eq!(decoded.payload_bytes(), original.payload_bytes());
    // timestamp preserved
    assert_eq!(decoded.timestamp_ns, original.timestamp_ns);
}

#[test]
fn record_layout_is_timestamp_topic_payload() {
    let mut m = Message::new("t", b"pq");
    m.timestamp_ns = 0x0102_0304_0506_0708;
    let bytes = m.to_bytes();
    assert_eq!(bytes[..8], 0x0102_0304_0506_0708u64.to_ne_bytes());
    assert_eq!(bytes[8], b't');
    assert_eq!(bytes[9], 0);
    assert_eq!(&bytes[40..43], b"pq\0");
    assert_eq!(Message::from_bytes(&bytes), m);
    assert_eq!(Message::from_bytes(&bytes).timestamp_ns, 0x0102_0304_0506_0708);
}

#[test]
fn new_message_has_no_timestamp() {
    assert_eq!(Message::new("a", b"b").timestamp_ns, 0);
}

#[test]
fn payload_is_cut_to_its_field() {
    let m = Message::new("p", &[7u8; 40]);
    assert_eq!(m.payload_bytes(), &[7u8; 24]);
}

#[test]
fn trailing_zeros_of_a_payload_are_not_read_back() {
    let m = Message::new("p", &[1, 0, 2, 0, 0]);
    assert_eq!(m.payload_bytes(), &[1, 0, 2]);
    assert_eq!(Message::new("p", &[0, 0]).payload_bytes().len(), 0);
}

#[test]
fn topic_ends_at_the_first_zero() {
    let m = Message::new("ab\0cd", b"");
    assert_eq!(m.topic_str(), "ab");
}

#[test]
fn topic_cut_inside_a_character_reads_as_empty() {
    // 31 ASCII bytes and a two-byte character that the field splits.
    let topic = format!("{}é", "a".repeat(31));
    let m = Message::new(&topic, b"");
    assert_eq!(m.topic_str(), "");
}

#[test]
fn topic_of_multi_byte_characters_is_kept() {
    let m = Message::new("prix.é.中", b"");
    assert_eq!(m.topic_str(), "prix.é.中");
}

#[test]
fn clone_is_equal() {
    let m = Message::new("a", b"b");
    assert_eq!(m.clone(), m);
    assert_ne!(m, Message::new("a", b"c"));
}
