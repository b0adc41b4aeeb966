//! Laws of the message record.

use crate::message::{
    lemma_until_zero_at, lemma_without_trailing_zeros_at, Message, PAYLOAD_BYTES, RECORD_BYTES,
    TOPIC_BYTES,
};
use vstd::bytes::{lemma_auto_spec_u64_to_from_le_bytes, spec_u64_to_le_bytes};
use vstd::endian::{endianness, Endian};
use vstd::prelude::*;
use vstd::utf8::{decode_utf8, encode_utf8, valid_utf8};

verus! {

/// The widths of the fields; with the timestamp they make one cache line.
pub proof fn law_widths(m: Message)
    ensures
        m.topic@.len() == TOPIC_BYTES == 32,
        m.payload@.len() == PAYLOAD_BYTES == 24,
        RECORD_BYTES == 8 + 32 + 24,
{
}

/// A new message has the bytes of its topic and of its payload, each up to the
/// width of its field and then zeros, and no timestamp.
pub proof fn law_new(topic: &str, payload: &[u8], m: Message, k: int)
    requires
        call_ensures(Message::new, (topic, payload), m),
    ensures
        m.timestamp_ns == 0,
        0 <= k < 32 && k < encode_utf8(topic@).len() ==> m.topic@[k] == encode_utf8(topic@)[k],
        encode_utf8(topic@).len() <= k < 32 ==> m.topic@[k] == 0,
        0 <= k < 24 && k < payload@.len() ==> m.payload@[k] == payload@[k],
        payload@.len() <= k < 24 ==> m.payload@[k] == 0,
{
}

/// The topic is the text of the bytes before the first zero, or of all of them
/// where there is none; where these are no text, it is empty.
pub proof fn law_topic_str(m: &Message, s: &str, n: int)
    requires
        call_ensures(Message::topic_str, (m,), s),
        0 <= n <= 32,
        forall|i: int| 0 <= i < n ==> #[trigger] m.topic@[i] != 0,
        n < 32 ==> m.topic@[n] == 0,
    ensures
        valid_utf8(m.topic@.take(n)) ==> s@ == decode_utf8(m.topic@.take(n)),
        !valid_utf8(m.topic@.take(n)) ==> s@.len() == 0,
{
    lemma_until_zero_at(m.topic@, n);
    assert(m.topic@.take(n) =~= m.topic@.subrange(0, n));
}

/// The payload ends with the last byte that is not zero.
pub proof fn law_payload_bytes(m: &Message, b: &[u8], n: int)
    requires
        call_ensures(Message::payload_bytes, (m,), b),
        0 <= n <= 24,
        forall|i: int| n <= i < 24 ==> #[trigger] m.payload@[i] == 0,
        n > 0 ==> m.payload@[n - 1] != 0,
    ensures
        b@ == m.payload@.take(n),
{
    lemma_without_trailing_zeros_at(m.payload@, n);
    assert(m.payload@.take(n) =~= m.payload@.subrange(0, n));
}

/// A record is the timestamp in the machine's byte order, the topic field and the
/// payload field.
pub proof fn law_to_bytes(m: &Message, bytes: [u8; 64], k: int)
    requires
        call_ensures(Message::to_bytes, (m,), bytes),
    ensures
        endianness() == Endian::Little ==> bytes@.take(8) == spec_u64_to_le_bytes(m.timestamp_ns),
        endianness() == Endian::Big ==> bytes@.take(8).reverse() == spec_u64_to_le_bytes(
            m.timestamp_ns,
        ),
        0 <= k < 32 ==> bytes@[8 + k] == m.topic@[k],
        0 <= k < 24 ==> bytes@[40 + k] == m.payload@[k],
{
    lemma_auto_spec_u64_to_from_le_bytes();
    let stamp = spec_u64_to_le_bytes(m.timestamp_ns);
    assert(stamp.reverse().reverse() =~= stamp);
    match endianness() {
        Endian::Little => {
            assert(bytes@.take(8) =~= stamp);
        },
        Endian::Big => {
            assert(bytes@.take(8) =~= stamp.reverse());
        },
    }
}

/// A message is read from the places where a record has its fields.
pub proof fn law_from_bytes(bytes: &[u8; 64], m: Message, k: int)
    requires
        call_ensures(Message::from_bytes, (bytes,), m),
    ensures
        endianness() == Endian::Little ==> bytes@.take(8) == spec_u64_to_le_bytes(m.timestamp_ns),
        endianness() == Endian::Big ==> bytes@.take(8).reverse() == spec_u64_to_le_bytes(
            m.timestamp_ns,
        ),
        0 <= k < 32 ==> m.topic@[k] == bytes@[8 + k],
        0 <= k < 24 ==> m.payload@[k] == bytes@[40 + k],
{
    lemma_auto_spec_u64_to_from_le_bytes();
    let stamp = spec_u64_to_le_bytes(m.timestamp_ns);
    assert(stamp.reverse().reverse() =~= stamp);
    assert(m.record() == bytes@);
    assert(0 <= k < 32 ==> m.record()[8 + k] == m.topic@[k]);
    assert(0 <= k < 24 ==> m.record()[40 + k] == m.payload@[k]);
    match endianness() {
        Endian::Little => {
            assert(bytes@.take(8) =~= stamp);
        },
        Endian::Big => {
            assert(bytes@.take(8) =~= stamp.reverse());
        },
    }
}

/// Reading the record of a message gives the message.
pub proof fn law_round_trip(m: &Message, bytes: &[u8; 64], back: Message)
    requires
        call_ensures(Message::to_bytes, (m,), *bytes),
        call_ensures(Message::from_bytes, (bytes,), back),
    ensures
        back.timestamp_ns == m.timestamp_ns,
        back.topic@ == m.topic@,
        back.payload@ == m.payload@,
{
    crate::message::law_record_round_trip(*m, back);
}

/// A clone has the same fields.
pub proof fn law_clone(m: &Message, c: Message)
    requires
        call_ensures(Message::clone, (m,), c),
    ensures
        c.timestamp_ns == m.timestamp_ns,
        c.topic@ == m.topic@,
        c.payload@ == m.payload@,
{
}

} // verus!
