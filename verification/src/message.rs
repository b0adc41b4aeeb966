//! The message record: one cache line of timestamp, topic and payload.

use vstd::bytes::{lemma_auto_spec_u64_to_from_le_bytes, spec_u64_to_le_bytes};
use vstd::endian::{endianness, Endian};
use vstd::prelude::*;
use vstd::slice::slice_subrange;
use vstd::utf8::{
    char_is_scalar, char_u32_cast, decode_utf8, decode_utf8_encode_utf8, decode_utf8_split, encode_scalar,
    encode_utf8, encode_utf8_decode_utf8, encode_utf8_valid_utf8, has_width_1_encoding,
    is_char_boundary, is_char_boundary_iff_not_is_continuation_byte,
    is_char_boundary_start_end_of_seq, is_scalar, last_continuation_byte, leading_byte_width_1,
    leading_byte_width_2, leading_byte_width_3, leading_byte_width_4,
    partial_valid_partial_invalid_utf8, second_last_continuation_byte,
    third_last_continuation_byte, valid_utf8, valid_utf8_split,
};

verus! {

/// Bytes of the topic field.
pub const TOPIC_BYTES: usize = 32;

/// Bytes of the payload field.
pub const PAYLOAD_BYTES: usize = 24;

/// Bytes of a whole record: timestamp, topic and payload, with no padding.
pub const RECORD_BYTES: usize = 64;

/// A single pub/sub message, sized to one 64-byte cache line.
#[derive(Debug, PartialEq, Eq)]
pub struct Message {
    /// Unix nanoseconds at publish time (set by the bus, not the caller).
    pub timestamp_ns: u64,
    /// Topic text, padded with zero bytes.
    pub topic: [u8; 32],
    /// Payload, padded with zero bytes.
    pub payload: [u8; 24],
}

/// `data` cut to `width` bytes, or filled up to `width` with zero bytes.
pub open spec fn fixed_field(data: Seq<u8>, width: nat) -> Seq<u8> {
    Seq::new(width, |i: int| if i < data.len() { data[i] } else { 0u8 })
}

/// The bytes of `field` before its first zero byte.
pub open spec fn until_zero(field: Seq<u8>) -> Seq<u8>
    decreases field.len(),
{
    if field.len() == 0 || field[0] == 0 {
        Seq::empty()
    } else {
        seq![field[0]] + until_zero(field.drop_first())
    }
}

/// `field` without its trailing zero bytes.
pub open spec fn without_trailing_zeros(field: Seq<u8>) -> Seq<u8>
    decreases field.len(),
{
    if field.len() > 0 && field.last() == 0 {
        without_trailing_zeros(field.drop_last())
    } else {
        field
    }
}

/// The text that a topic field holds: its bytes before the first zero byte, or
/// the empty text where those are no UTF-8 (a topic cut in the middle of a
/// character).
pub open spec fn topic_text(field: Seq<u8>) -> Seq<char> {
    if valid_utf8(until_zero(field)) {
        decode_utf8(until_zero(field))
    } else {
        Seq::empty()
    }
}

/// The eight bytes of `x` in the byte order of the machine.
pub open spec fn native_bytes(x: u64) -> Seq<u8> {
    match endianness() {
        Endian::Little => spec_u64_to_le_bytes(x),
        Endian::Big => spec_u64_to_le_bytes(x).reverse(),
    }
}

#[verifier::external_type_specification]
#[verifier::external_body]
pub struct ExUtf8Error(core::str::Utf8Error);

/// `core::str::from_utf8`: gives the text that `v` encodes when `v` is valid
/// UTF-8, and an error when it is not.
pub assume_specification<'a>[ core::str::from_utf8 ](v: &'a [u8]) -> (r: Result<
    &'a str,
    core::str::Utf8Error,
>)
    ensures
        r is Ok <==> valid_utf8(v@),
        r matches Ok(s) ==> s@ == decode_utf8(v@),
;

/// `u64::to_ne_bytes`: the bytes of `x` in the machine's own order.
#[verifier::external_body]
fn u64_to_ne_bytes(x: u64) -> (r: [u8; 8])
    ensures
        r@ == native_bytes(x),
{
    x.to_ne_bytes()
}

/// `u64::from_ne_bytes`: the integer whose bytes, in the machine's own order,
/// are `bytes`.
#[verifier::external_body]
fn u64_from_ne_bytes(bytes: [u8; 8]) -> (r: u64)
    ensures
        native_bytes(r) == bytes@,
{
    u64::from_ne_bytes(bytes)
}

pub proof fn lemma_until_zero_at(field: Seq<u8>, end: int)
    requires
        0 <= end <= field.len(),
        forall|i: int| 0 <= i < end ==> field[i] != 0,
        end < field.len() ==> field[end] == 0,
    ensures
        until_zero(field) == field.subrange(0, end),
    decreases end,
{
    if end == 0 {
        assert(field.subrange(0, end) =~= Seq::empty());
    } else {
        let rest = field.drop_first();
        assert forall|i: int| 0 <= i < end - 1 implies rest[i] != 0 by {
            assert(rest[i] == field[i + 1]);
        }
        if end < field.len() {
            assert(rest[end - 1] == field[end]);
        }
        lemma_until_zero_at(rest, end - 1);
        assert(field.subrange(0, end) =~= seq![field[0]] + rest.subrange(0, end - 1));
    }
}

pub proof fn lemma_without_trailing_zeros_at(field: Seq<u8>, end: int)
    requires
        0 <= end <= field.len(),
        forall|i: int| end <= i < field.len() ==> field[i] == 0,
        end > 0 ==> field[end - 1] != 0,
    ensures
        without_trailing_zeros(field) == field.subrange(0, end),
    decreases field.len() - end,
{
    if end == field.len() {
        assert(field.subrange(0, end) =~= field);
    } else {
        lemma_without_trailing_zeros_at(field.drop_last(), end);
        assert(field.drop_last().subrange(0, end) =~= field.subrange(0, end));
    }
}

impl Message {
    /// The 64 bytes of a record: timestamp, topic, payload.
    pub open spec fn record(self) -> Seq<u8> {
        native_bytes(self.timestamp_ns) + self.topic@ + self.payload@
    }

    /// A message on `topic` with `payload` and a zero timestamp. Topic and
    /// payload are cut to the width of their fields.
    pub fn new(topic: &str, payload: &[u8]) -> (m: Self)
        ensures
            m.timestamp_ns == 0,
            m.topic@ == fixed_field(encode_utf8(topic@), TOPIC_BYTES as nat),
            m.payload@ == fixed_field(payload@, PAYLOAD_BYTES as nat),
    {
        let text = topic.as_bytes();
        let mut t: [u8; 32] = [0u8; 32];
        let mut i: usize = 0;
        while i < TOPIC_BYTES && i < text.len()
            invariant
                i <= TOPIC_BYTES,
                i <= text@.len(),
                forall|j: int| 0 <= j < i ==> t@[j] == text@[j],
                forall|j: int| i <= j < TOPIC_BYTES ==> t@[j] == 0,
            decreases TOPIC_BYTES - i,
        {
            t[i] = text[i];
            i += 1;
        }
        let mut p: [u8; 24] = [0u8; 24];
        let mut k: usize = 0;
        while k < PAYLOAD_BYTES && k < payload.len()
            invariant
                k <= PAYLOAD_BYTES,
                k <= payload@.len(),
                forall|j: int| 0 <= j < k ==> p@[j] == payload@[j],
                forall|j: int| k <= j < PAYLOAD_BYTES ==> p@[j] == 0,
            decreases PAYLOAD_BYTES - k,
        {
            p[k] = payload[k];
            k += 1;
        }
        let m = Message { timestamp_ns: 0, topic: t, payload: p };
        assert(m.topic@ =~= fixed_field(encode_utf8(topic@), TOPIC_BYTES as nat));
        assert(m.payload@ =~= fixed_field(payload@, PAYLOAD_BYTES as nat));
        m
    }

    /// The topic, up to the first zero byte; empty where the field holds no
    /// UTF-8 text.
    pub fn topic_str(&self) -> (s: &str)
        ensures
            s@ == topic_text(self.topic@),
    {
        let field: &[u8] = self.topic.as_slice();
        let mut end: usize = 0;
        while end < TOPIC_BYTES && field[end] != 0
            invariant
                end <= TOPIC_BYTES,
                field@ == self.topic@,
                forall|j: int| 0 <= j < end ==> field@[j] != 0,
            ensures
                end <= TOPIC_BYTES,
                forall|j: int| 0 <= j < end ==> field@[j] != 0,
                end < TOPIC_BYTES ==> field@[end as int] == 0,
            decreases TOPIC_BYTES - end,
        {
            end += 1;
        }
        proof {
            lemma_until_zero_at(field@, end as int);
        }
        match core::str::from_utf8(slice_subrange(field, 0, end)) {
            Ok(s) => s,
            Err(_) => {
                proof {
                    reveal_strlit("");
                }
                assert(""@ =~= Seq::<char>::empty());
                ""
            },
        }
    }

    /// The payload without its trailing zero bytes.
    pub fn payload_bytes(&self) -> (b: &[u8])
        ensures
            b@ == without_trailing_zeros(self.payload@),
    {
        let field: &[u8] = self.payload.as_slice();
        let mut end: usize = PAYLOAD_BYTES;
        while end > 0 && field[end - 1] == 0
            invariant
                end <= PAYLOAD_BYTES,
                field@ == self.payload@,
                forall|j: int| end <= j < PAYLOAD_BYTES ==> field@[j] == 0,
            ensures
                end <= PAYLOAD_BYTES,
                forall|j: int| end <= j < PAYLOAD_BYTES ==> field@[j] == 0,
                end > 0 ==> field@[end - 1] != 0,
            decreases end,
        {
            end -= 1;
        }
        proof {
            lemma_without_trailing_zeros_at(field@, end as int);
        }
        slice_subrange(field, 0, end)
    }

    /// Serializes to the 64 bytes of the record.
    pub fn to_bytes(&self) -> (r: [u8; 64])
        ensures
            r@ == self.record(),
    {
        let stamp = u64_to_ne_bytes(self.timestamp_ns);
        let mut out: [u8; 64] = [0u8; 64];
        proof {
            lemma_auto_spec_u64_to_from_le_bytes();
        }
        let ghost rec = self.record();
        let mut i: usize = 0;
        while i < RECORD_BYTES
            invariant
                i <= RECORD_BYTES,
                rec == stamp@ + self.topic@ + self.payload@,
                forall|j: int| 0 <= j < i ==> out@[j] == rec[j],
            decreases RECORD_BYTES - i,
        {
            if i < 8 {
                out[i] = stamp[i];
            } else if i < 40 {
                out[i] = self.topic[i - 8];
            } else {
                out[i] = self.payload[i - 40];
            }
            i += 1;
        }
        assert(out@ =~= rec);
        out
    }

    /// Deserializes 64 bytes produced by [`Message::to_bytes`].
    pub fn from_bytes(bytes: &[u8; 64]) -> (m: Self)
        ensures
            m.record() == bytes@,
    {
        let mut stamp: [u8; 8] = [0u8; 8];
        let mut topic: [u8; 32] = [0u8; 32];
        let mut payload: [u8; 24] = [0u8; 24];
        let mut i: usize = 0;
        while i < RECORD_BYTES
            invariant
                i <= RECORD_BYTES,
                forall|j: int| 0 <= j < 8 && j < i ==> stamp@[j] == bytes@[j],
                forall|j: int| 0 <= j < 32 && j + 8 < i ==> topic@[j] == bytes@[j + 8],
                forall|j: int| 0 <= j < 24 && j + 40 < i ==> payload@[j] == bytes@[j + 40],
            decreases RECORD_BYTES - i,
        {
            if i < 8 {
                stamp[i] = bytes[i];
            } else if i < 40 {
                topic[i - 8] = bytes[i];
            } else {
                payload[i - 40] = bytes[i];
            }
            i += 1;
        }
        let m = Message { timestamp_ns: u64_from_ne_bytes(stamp), topic, payload };
        assert(m.record() =~= bytes@);
        m
    }
}

impl Clone for Message {
    fn clone(&self) -> (r: Self)
        ensures
            r == *self,
    {
        Message { timestamp_ns: self.timestamp_ns, topic: self.topic, payload: self.payload }
    }
}

/// No byte of the encoding of a character other than NUL is zero.
proof fn lemma_encode_scalar_nonzero(scalar: u32)
    requires
        is_scalar(scalar),
        scalar != 0,
    ensures
        forall|i: int|
            0 <= i < encode_scalar(scalar).len() ==> #[trigger] encode_scalar(scalar)[i] != 0,
{
    assert(scalar != 0 && has_width_1_encoding(scalar) ==> leading_byte_width_1(scalar) != 0)
        by (bit_vector);
    assert(leading_byte_width_2(scalar) != 0 && leading_byte_width_3(scalar) != 0
        && leading_byte_width_4(scalar) != 0 && last_continuation_byte(scalar) != 0
        && second_last_continuation_byte(scalar) != 0 && third_last_continuation_byte(scalar) != 0)
        by (bit_vector);
}

/// The encoding of text without NUL characters holds no zero byte.
proof fn lemma_encode_utf8_nonzero(text: Seq<char>)
    requires
        !text.contains('\0'),
    ensures
        forall|i: int| 0 <= i < encode_utf8(text).len() ==> #[trigger] encode_utf8(text)[i] != 0,
    decreases text.len(),
{
    if text.len() > 0 {
        let rest = text.drop_first();
        assert(text.contains(text[0]));
        assert(!rest.contains('\0')) by {
            if rest.contains('\0') {
                let k = choose|k: int| 0 <= k < rest.len() && rest[k] == '\0';
                assert(text[k + 1] == '\0');
            }
        }
        lemma_encode_utf8_nonzero(rest);
        let first: char = text[0];
        assert(first != '\0');
        char_is_scalar(first);
        char_u32_cast(first, first as u32);
        lemma_encode_scalar_nonzero(first as u32);
        let head = encode_scalar(first as u32);
        assert forall|i: int| 0 <= i < encode_utf8(text).len() implies #[trigger] encode_utf8(
            text,
        )[i] != 0 by {
            if i < head.len() {
                assert(encode_utf8(text)[i] == head[i]);
            } else {
                assert(encode_utf8(text)[i] == encode_utf8(rest)[i - head.len()]);
            }
        }
    }
}

/// A record is 64 bytes long, and the bytes determine the message: reading back
/// the bytes that `m` was written as gives `m`.
pub proof fn law_record_round_trip(m: Message, back: Message)
    requires
        back.record() == m.record(),
    ensures
        m.record().len() == RECORD_BYTES,
        back == m,
{
    lemma_auto_spec_u64_to_from_le_bytes();
    let a = native_bytes(m.timestamp_ns);
    let b = native_bytes(back.timestamp_ns);
    assert(a.len() == 8 && b.len() == 8);
    assert(a =~= m.record().subrange(0, 8));
    assert(b =~= back.record().subrange(0, 8));
    assert(spec_u64_to_le_bytes(m.timestamp_ns) =~= spec_u64_to_le_bytes(back.timestamp_ns)) by {
        match endianness() {
            Endian::Little => {},
            Endian::Big => {
                assert(a.reverse() =~= spec_u64_to_le_bytes(m.timestamp_ns));
                assert(b.reverse() =~= spec_u64_to_le_bytes(back.timestamp_ns));
            },
        }
    }
    assert forall|i: int| 0 <= i < 32 implies back.topic@[i] == m.topic@[i] by {
        assert(m.record()[i + 8] == m.topic@[i]);
        assert(back.record()[i + 8] == back.topic@[i]);
    }
    assert forall|i: int| 0 <= i < 24 implies back.payload@[i] == m.payload@[i] by {
        assert(m.record()[i + 40] == m.payload@[i]);
        assert(back.record()[i + 40] == back.payload@[i]);
    }
    assert(back.topic =~= m.topic);
    assert(back.payload =~= m.payload);
}

/// A topic without NUL characters that fits its field is read back unchanged.
pub proof fn law_topic_round_trip(topic: Seq<char>)
    requires
        encode_utf8(topic).len() <= TOPIC_BYTES,
        !topic.contains('\0'),
    ensures
        topic_text(fixed_field(encode_utf8(topic), TOPIC_BYTES as nat)) == topic,
{
    let enc = encode_utf8(topic);
    let field = fixed_field(enc, TOPIC_BYTES as nat);
    lemma_encode_utf8_nonzero(topic);
    lemma_until_zero_at(field, enc.len() as int);
    assert(field.subrange(0, enc.len() as int) =~= enc);
    encode_utf8_valid_utf8(topic);
    encode_utf8_decode_utf8(topic);
}

/// A longer topic without NUL characters is cut to the first 32 bytes of its
/// encoding: what is read back is the text of those bytes, a prefix of the
/// topic, where the cut falls between two characters, and the empty text where
/// it falls inside one.
pub proof fn law_topic_truncated(topic: Seq<char>)
    requires
        encode_utf8(topic).len() > TOPIC_BYTES,
        !topic.contains('\0'),
    ensures
        ({
            let enc = encode_utf8(topic);
            let text = topic_text(fixed_field(enc, TOPIC_BYTES as nat));
            if is_char_boundary(enc, TOPIC_BYTES as int) {
                &&& encode_utf8(text) == enc.subrange(0, TOPIC_BYTES as int)
                &&& text.is_prefix_of(topic)
            } else {
                text.len() == 0
            }
        }),
{
    let enc = encode_utf8(topic);
    let field = fixed_field(enc, TOPIC_BYTES as nat);
    let head = enc.subrange(0, TOPIC_BYTES as int);
    let tail = enc.subrange(TOPIC_BYTES as int, enc.len() as int);
    lemma_encode_utf8_nonzero(topic);
    lemma_until_zero_at(field, TOPIC_BYTES as int);
    assert(field.subrange(0, TOPIC_BYTES as int) =~= head);
    encode_utf8_valid_utf8(topic);
    if is_char_boundary(enc, TOPIC_BYTES as int) {
        valid_utf8_split(enc, TOPIC_BYTES as int);
        decode_utf8_split(enc, TOPIC_BYTES as int);
        decode_utf8_encode_utf8(head);
        encode_utf8_decode_utf8(topic);
        assert(decode_utf8(head) =~= topic.subrange(0, decode_utf8(head).len() as int));
    } else if valid_utf8(head) {
        if !valid_utf8(tail) {
            partial_valid_partial_invalid_utf8(enc, TOPIC_BYTES as int);
        }
        is_char_boundary_start_end_of_seq(tail);
        is_char_boundary_iff_not_is_continuation_byte(tail, 0);
        assert(tail[0] == enc[TOPIC_BYTES as int]);
        is_char_boundary_iff_not_is_continuation_byte(enc, TOPIC_BYTES as int);
        assert(false);
    }
}

/// What is read back of a payload is its first 24 bytes without the zero bytes
/// at their end; so a payload that fits and does not end in zero is read back
/// unchanged.
pub proof fn law_payload_round_trip(payload: Seq<u8>)
    ensures
        ({
            let read = without_trailing_zeros(fixed_field(payload, PAYLOAD_BYTES as nat));
            let kept = if payload.len() <= PAYLOAD_BYTES {
                payload
            } else {
                payload.subrange(0, PAYLOAD_BYTES as int)
            };
            &&& read == without_trailing_zeros(kept)
            &&& (kept.len() == 0 || kept.last() != 0) ==> read == kept
        }),
{
    let field = fixed_field(payload, PAYLOAD_BYTES as nat);
    if payload.len() <= PAYLOAD_BYTES {
        lemma_zero_fill(payload, PAYLOAD_BYTES as nat);
    } else {
        assert(field =~= payload.subrange(0, PAYLOAD_BYTES as int));
    }
}

proof fn lemma_zero_fill(data: Seq<u8>, width: nat)
    requires
        data.len() <= width,
    ensures
        without_trailing_zeros(fixed_field(data, width)) == without_trailing_zeros(data),
    decreases width,
{
    let field = fixed_field(data, width);
    if width == data.len() {
        assert(field =~= data);
    } else {
        assert(field.drop_last() =~= fixed_field(data, (width - 1) as nat));
        lemma_zero_fill(data, (width - 1) as nat);
    }
}

} // verus!
