//! A single-producer, single-consumer ring buffer.
//!
//! The capacity is a power of two, so a cursor is turned into a slot index with
//! a bit mask. The cursors themselves run freely and wrap around at the end of
//! `usize`; the number of queued items is their wrapping difference.
//!
//! The producer owns the head cursor and the consumer the tail cursor. What
//! each half decides, given the last value that it has seen of the other half's
//! cursor, is [`producer_slot`] and [`consumer_slot`]; that these decisions are
//! safe for values that are out of date is stated by
//! [`law_producer_never_overwrites`] and [`law_consumer_reads_published`].

use core::marker::PhantomData;
use vstd::arithmetic::div_mod::{
    lemma_fundamental_div_mod, lemma_fundamental_div_mod_converse, lemma_mod_add_multiples_vanish,
    lemma_mod_bound, lemma_mod_mod, lemma_mod_multiples_vanish, lemma_small_mod,
};
use vstd::arithmetic::power::pow;
use vstd::arithmetic::power2::{
    is_pow2, is_pow2_equiv, lemma2_to64, lemma_pow2, lemma_pow2_adds, lemma_pow2_pos,
    lemma_pow2_strictly_increases, pow2,
};
use vstd::bits::lemma_usize_low_bits_mask_is_mod;
use vstd::prelude::*;

verus! {

/// What the caller does when the queue is transiently full (producer) or empty
/// (consumer).
#[derive(Debug, Clone, Copy, PartialEq, Eq, Structural)]
pub enum WaitStrategy {
    /// Burns CPU for the lowest latency.
    BusySpin,
    /// Gives the processor to another thread.
    Yield,
}

/// How many values a cursor runs through before it starts again at zero.
pub open spec fn cursor_span() -> int {
    usize::MAX + 1
}

/// The wrapping difference of the two cursors: how many items are queued.
pub open spec fn queued(head: usize, tail: usize) -> int {
    if head >= tail {
        head - tail
    } else {
        head - tail + cursor_span()
    }
}

/// The slot that belongs to the `i`-th position after `tail`.
pub open spec fn slot_at(tail: int, i: int, capacity: int) -> int {
    (tail + i) % capacity
}

/// The queue's items after an attempt to send `value` with `capacity` slots.
pub open spec fn after_send<T>(items: Seq<T>, capacity: nat, value: T) -> Seq<T> {
    if items.len() < capacity {
        items.push(value)
    } else {
        items
    }
}

/// The queue's items after an attempt to receive.
pub open spec fn after_recv<T>(items: Seq<T>) -> Seq<T> {
    if items.len() > 0 {
        items.drop_first()
    } else {
        items
    }
}

/// What the producer decides: no slot when the queue is full, else the slot
/// that its cursor stands on.
pub open spec fn producer_choice(head: usize, tail: usize, capacity: int) -> Option<int> {
    if queued(head, tail) >= capacity {
        None
    } else {
        Some(head as int % capacity)
    }
}

/// What the consumer decides: no slot when the queue is empty, else the slot
/// that its cursor stands on.
pub open spec fn consumer_choice(tail: usize, head: usize, capacity: int) -> Option<int> {
    if tail == head {
        None
    } else {
        Some(tail as int % capacity)
    }
}

/// A power of two up to `usize::MAX` divides the span of the cursors.
proof fn lemma_capacity_divides_span(capacity: int)
    requires
        is_pow2(capacity),
        capacity <= usize::MAX,
    ensures
        capacity > 0,
        exists|q: int| q > 0 && #[trigger] (capacity * q) == cursor_span(),
{
    is_pow2_equiv(capacity);
    let k: nat = choose|k: nat| pow(2, k) == capacity;
    lemma_pow2(k);
    lemma_pow2_pos(k);
    let bits: nat = usize::BITS as nat;
    lemma2_to64();
    assert(pow2(bits) == cursor_span());
    if k >= bits {
        if k > bits {
            lemma_pow2_strictly_increases(bits, k);
        }
        assert(false);
    }
    let rest: nat = (bits - k) as nat;
    lemma_pow2_adds(k, rest);
    lemma_pow2_pos(rest);
    assert(capacity * pow2(rest) as int == cursor_span());
}

/// Wrapping a position around the cursor span keeps its slot.
proof fn lemma_wrapped_slot(x: int, capacity: int)
    requires
        is_pow2(capacity),
        capacity <= usize::MAX,
        x >= 0,
    ensures
        (x % cursor_span()) % capacity == x % capacity,
{
    lemma_capacity_divides_span(capacity);
    let q: int = choose|q: int| q > 0 && #[trigger] (capacity * q) == cursor_span();
    lemma_mod_mod(x, capacity, q);
}

/// Masking with `capacity - 1` is the remainder by `capacity`.
proof fn lemma_mask_is_mod(cursor: usize, mask: usize)
    requires
        is_pow2(mask + 1),
        mask < usize::MAX,
    ensures
        cursor & mask == cursor as int % (mask + 1),
        (cursor & mask) <= mask,
{
    is_pow2_equiv(mask + 1);
    let k: nat = choose|k: nat| pow(2, k) == mask + 1;
    lemma_pow2(k);
    let bits: nat = usize::BITS as nat;
    lemma2_to64();
    assert(pow2(bits) == cursor_span());
    if k >= bits {
        if k > bits {
            lemma_pow2_strictly_increases(bits, k);
        }
        assert(false);
    }
    lemma_usize_low_bits_mask_is_mod(cursor, k);
}

/// Positions less than a full round apart have different slots.
proof fn lemma_slots_differ(tail: int, i: int, j: int, capacity: int)
    requires
        capacity > 0,
        0 <= i < capacity,
        0 <= j < capacity,
        i != j,
    ensures
        slot_at(tail, i, capacity) != slot_at(tail, j, capacity),
{
    if slot_at(tail, i, capacity) == slot_at(tail, j, capacity) {
        lemma_fundamental_div_mod(tail + i, capacity);
        lemma_fundamental_div_mod(tail + j, capacity);
        let a: int = (tail + i) / capacity;
        let b: int = (tail + j) / capacity;
        assert(i - j == capacity * (a - b)) by (nonlinear_arith)
            requires
                tail + i - (tail + j) == capacity * a - capacity * b,
        ;
        assert(a == b) by (nonlinear_arith)
            requires
                i - j == capacity * (a - b),
                -capacity < i - j < capacity,
                capacity > 0,
        ;
        assert(capacity * (a - b) == 0) by (nonlinear_arith)
            requires
                a == b,
        ;
    }
}

/// The producer's decision for its own cursor `head` and the consumer's cursor
/// as last seen.
pub fn producer_slot(head: usize, tail: usize, mask: usize) -> (slot: Option<usize>)
    requires
        is_pow2(mask + 1),
        mask < usize::MAX,
    ensures
        slot is Some <==> producer_choice(head, tail, mask + 1) is Some,
        slot matches Some(s) ==> producer_choice(head, tail, mask + 1) == Some(s as int),
        slot matches Some(s) ==> s <= mask,
{
    if head.wrapping_sub(tail) > mask {
        return None;
    }
    proof {
        lemma_mask_is_mod(head, mask);
    }
    Some(head & mask)
}

/// The consumer's decision for its own cursor `tail` and the producer's cursor
/// as last seen.
pub fn consumer_slot(tail: usize, head: usize, mask: usize) -> (slot: Option<usize>)
    requires
        is_pow2(mask + 1),
        mask < usize::MAX,
    ensures
        slot is Some <==> consumer_choice(tail, head, mask + 1) is Some,
        slot matches Some(s) ==> consumer_choice(tail, head, mask + 1) == Some(s as int),
        slot matches Some(s) ==> s <= mask,
{
    if tail == head {
        return None;
    }
    proof {
        lemma_mask_is_mod(tail, mask);
    }
    Some(tail & mask)
}

/// The storage that the two halves of a queue work on.
pub struct Ring<T> {
    head: usize,
    tail: usize,
    slots: Vec<Option<T>>,
    mask: usize,
}

impl<T> Ring<T> {
    /// The number of slots.
    pub closed spec fn capacity(self) -> nat {
        (self.mask + 1) as nat
    }

    /// The capacity is a power of two, the cursors are at most a full round
    /// apart, and exactly the slots between them hold an item.
    pub closed spec fn wf(self) -> bool {
        let capacity = self.mask + 1;
        &&& self.mask < usize::MAX
        &&& is_pow2(capacity)
        &&& self.slots@.len() == capacity
        &&& queued(self.head, self.tail) <= capacity
        &&& forall|i: int|
            0 <= i < capacity ==> (self.slots@[#[trigger] slot_at(
                self.tail as int,
                i,
                capacity,
            )] is Some <==> i < queued(self.head, self.tail))
    }
}

impl<T> View for Ring<T> {
    type V = Seq<T>;

    /// The queued items, oldest first.
    closed spec fn view(&self) -> Seq<T> {
        Seq::new(
            queued(self.head, self.tail) as nat,
            |i: int| self.slots@[slot_at(self.tail as int, i, self.mask + 1)]->0,
        )
    }
}

/// The sole sender of a queue. Not `Clone`: there is one producer.
pub struct Producer<T> {
    head: usize,
    mask: usize,
    item: PhantomData<T>,
}

/// The sole receiver of a queue. Not `Clone`: there is one consumer.
pub struct Consumer<T> {
    tail: usize,
    mask: usize,
    item: PhantomData<T>,
}

/// Makes a queue with `capacity` slots, a power of two: its two halves and the
/// storage that they work on.
pub fn spsc<T>(capacity: usize) -> (r: (Producer<T>, Consumer<T>, Ring<T>))
    requires
        is_pow2(capacity as int),
    ensures
        r.0.attached(r.2),
        r.1.attached(r.2),
        r.2.capacity() == capacity,
        r.2@ == Seq::<T>::empty(),
{
    proof {
        reveal(is_pow2);
    }
    let mut slots: Vec<Option<T>> = Vec::with_capacity(capacity);
    while slots.len() < capacity
        invariant
            slots@.len() <= capacity,
            forall|j: int| 0 <= j < slots@.len() ==> slots@[j] is None,
        decreases capacity - slots@.len(),
    {
        slots.push(None);
    }
    let mask: usize = capacity - 1;
    let ring = Ring { head: 0, tail: 0, slots, mask };
    proof {
        assert forall|i: int| 0 <= i < capacity implies ring.slots@[#[trigger] slot_at(
            0,
            i,
            capacity as int,
        )] is None by {
            lemma_mod_bound(i, capacity as int);
        }
        assert(ring@ =~= Seq::<T>::empty());
    }
    (
        Producer { head: 0, mask, item: PhantomData },
        Consumer { tail: 0, mask, item: PhantomData },
        ring,
    )
}

/// What a blocking send does next: it is done, or it waits by `strategy` and
/// then tries again with `value`.
pub enum SendStep<T> {
    Sent,
    Wait { value: T, strategy: WaitStrategy },
}

/// What a blocking receive does next: it has an item, or it waits by `strategy`
/// and then tries again.
pub enum RecvStep<T> {
    Received { value: T },
    Wait { strategy: WaitStrategy },
}

impl<T> Producer<T> {
    #[verifier::type_invariant]
    spec fn inv(self) -> bool {
        self.mask < usize::MAX
    }

    /// This producer is the sender of the queue that `ring` stores.
    pub closed spec fn attached(self, ring: Ring<T>) -> bool {
        &&& ring.wf()
        &&& self.head == ring.head
        &&& self.mask == ring.mask
    }

    /// The number of slots of the producer's queue.
    pub closed spec fn slots(self) -> nat {
        (self.mask + 1) as nat
    }

    /// Non-blocking enqueue. Gives `value` back when the queue is full.
    pub fn try_send(&mut self, ring: &mut Ring<T>, value: T) -> (r: Result<(), T>)
        requires
            old(self).attached(*old(ring)),
        ensures
            final(self).attached(*final(ring)),
            forall|c: Consumer<T>| c.attached(*old(ring)) ==> c.attached(*final(ring)),
            final(ring).capacity() == old(ring).capacity(),
            final(ring)@ == after_send(old(ring)@, old(ring).capacity(), value),
            r is Ok <==> old(ring)@.len() < old(ring).capacity(),
            r matches Err(v) ==> v == value && *final(ring) == *old(ring) && *final(self) == *old(
                self,
            ),
    {
        let slot: usize = match producer_slot(self.head, ring.tail, self.mask) {
            None => {
                return Err(value);
            },
            Some(s) => s,
        };
        let ghost before = *ring;
        let ghost capacity: int = ring.mask + 1;
        let ghost len: int = queued(ring.head, ring.tail);
        let ghost tail: int = ring.tail as int;
        proof {
            lemma_cursor_slot(ring.head, ring.tail, capacity);
        }
        ring.slots.set(slot, Some(value));
        self.head = self.head.wrapping_add(1);
        ring.head = self.head;
        proof {
            assert(queued(ring.head, ring.tail) == len + 1);
            assert forall|i: int| 0 <= i < capacity implies (ring.slots@[#[trigger] slot_at(
                tail,
                i,
                capacity,
            )] is Some <==> i < len + 1) by {
                lemma_mod_bound(tail + i, capacity);
                if i != len {
                    lemma_slots_differ(tail, i, len, capacity);
                }
            }
            assert forall|i: int| 0 <= i < len implies ring@[i] == before@[i] by {
                lemma_slots_differ(tail, i, len, capacity);
                lemma_mod_bound(tail + i, capacity);
            }
            assert(ring@ =~= before@.push(value));
        }
        Ok(())
    }

    /// One turn of a blocking enqueue: sends `value`, or says how to wait before
    /// the next turn.
    pub fn send(&mut self, ring: &mut Ring<T>, value: T, strategy: WaitStrategy) -> (step: SendStep<
        T,
    >)
        requires
            old(self).attached(*old(ring)),
        ensures
            final(self).attached(*final(ring)),
            forall|c: Consumer<T>| c.attached(*old(ring)) ==> c.attached(*final(ring)),
            final(ring).capacity() == old(ring).capacity(),
            final(ring)@ == after_send(old(ring)@, old(ring).capacity(), value),
            step == (if old(ring)@.len() < old(ring).capacity() {
                SendStep::Sent
            } else {
                (SendStep::Wait { value, strategy })
            }),
    {
        match self.try_send(ring, value) {
            Ok(()) => SendStep::Sent,
            Err(value) => SendStep::Wait { value, strategy },
        }
    }

    /// The number of slots of the queue.
    pub fn capacity(&self) -> (n: usize)
        ensures
            n == self.slots(),
            forall|ring: Ring<T>| #[trigger] self.attached(ring) ==> n == ring.capacity(),
    {
        proof {
            use_type_invariant(self);
        }
        self.mask + 1
    }
}

impl<T> Consumer<T> {
    #[verifier::type_invariant]
    spec fn inv(self) -> bool {
        self.mask < usize::MAX
    }

    /// This consumer is the receiver of the queue that `ring` stores.
    pub closed spec fn attached(self, ring: Ring<T>) -> bool {
        &&& ring.wf()
        &&& self.tail == ring.tail
        &&& self.mask == ring.mask
    }

    /// The number of slots of the consumer's queue.
    pub closed spec fn slots(self) -> nat {
        (self.mask + 1) as nat
    }

    /// Non-blocking dequeue. Gives `None` when the queue is empty.
    pub fn try_recv(&mut self, ring: &mut Ring<T>) -> (r: Option<T>)
        requires
            old(self).attached(*old(ring)),
        ensures
            final(self).attached(*final(ring)),
            forall|p: Producer<T>| p.attached(*old(ring)) ==> p.attached(*final(ring)),
            final(ring).capacity() == old(ring).capacity(),
            final(ring)@ == after_recv(old(ring)@),
            r == (if old(ring)@.len() > 0 {
                Some(old(ring)@.first())
            } else {
                None
            }),
    {
        let slot: usize = match consumer_slot(self.tail, ring.head, self.mask) {
            None => {
                return None;
            },
            Some(s) => s,
        };
        let ghost before = *ring;
        let ghost capacity: int = ring.mask + 1;
        let ghost len: int = queued(ring.head, ring.tail);
        let ghost tail: int = ring.tail as int;
        assert(slot == slot_at(tail, 0, capacity));
        let mut value: Option<T> = None;
        core::mem::swap(&mut value, &mut ring.slots[slot]);
        self.tail = self.tail.wrapping_add(1);
        ring.tail = self.tail;
        proof {
            let next: int = ring.tail as int;
            assert(queued(ring.head, ring.tail) == len - 1);
            assert forall|i: int| 0 <= i < capacity implies slot_at(next, i, capacity) == slot_at(
                tail,
                i + 1,
                capacity,
            ) by {
                lemma_advanced_slot(before.tail, i, capacity);
            }
            assert forall|i: int| 0 <= i < capacity implies (ring.slots@[#[trigger] slot_at(
                next,
                i,
                capacity,
            )] is Some <==> i < len - 1) by {
                lemma_mod_bound(tail + i + 1, capacity);
                if i + 1 < capacity {
                    lemma_slots_differ(tail, 0, i + 1, capacity);
                    assert(slot_at(tail, i + 1, capacity) != slot);
                } else {
                    lemma_full_round(tail, capacity);
                }
            }
            assert forall|i: int| 0 <= i < len - 1 implies ring@[i] == before@[i + 1] by {
                lemma_slots_differ(tail, 0, i + 1, capacity);
                lemma_mod_bound(tail + i + 1, capacity);
            }
            assert(ring@ =~= before@.drop_first());
        }
        value
    }

    /// One turn of a blocking dequeue: an item, or how to wait before the next
    /// turn.
    pub fn recv(&mut self, ring: &mut Ring<T>, strategy: WaitStrategy) -> (step: RecvStep<T>)
        requires
            old(self).attached(*old(ring)),
        ensures
            final(self).attached(*final(ring)),
            forall|p: Producer<T>| p.attached(*old(ring)) ==> p.attached(*final(ring)),
            final(ring).capacity() == old(ring).capacity(),
            final(ring)@ == after_recv(old(ring)@),
            step == (if old(ring)@.len() > 0 {
                (RecvStep::Received { value: old(ring)@.first() })
            } else {
                (RecvStep::Wait { strategy })
            }),
    {
        match self.try_recv(ring) {
            Some(value) => RecvStep::Received { value },
            None => RecvStep::Wait { strategy },
        }
    }

    /// The number of slots of the queue.
    pub fn capacity(&self) -> (n: usize)
        ensures
            n == self.slots(),
            forall|ring: Ring<T>| #[trigger] self.attached(ring) ==> n == ring.capacity(),
    {
        proof {
            use_type_invariant(self);
        }
        self.mask + 1
    }
}

/// The head cursor stands on the slot right after the last queued item.
proof fn lemma_cursor_slot(head: usize, tail: usize, capacity: int)
    requires
        is_pow2(capacity),
        capacity <= usize::MAX,
    ensures
        head as int % capacity == slot_at(tail as int, queued(head, tail), capacity),
{
    let x: int = tail + queued(head, tail);
    lemma_wrapped_slot(x, capacity);
    if x >= cursor_span() {
        lemma_fundamental_div_mod_converse(x, cursor_span(), 1, head as int);
    } else {
        lemma_small_mod(x as nat, cursor_span() as nat);
    }
}

/// Advancing the tail cursor by one moves every position by one slot.
proof fn lemma_advanced_slot(tail: usize, i: int, capacity: int)
    requires
        is_pow2(capacity),
        capacity <= usize::MAX,
        i >= 0,
    ensures
        slot_at(tail.wrapping_add(1) as int, i, capacity) == slot_at(tail as int, i + 1, capacity),
{
    if tail == usize::MAX {
        lemma_capacity_divides_span(capacity);
        let q: int = choose|q: int| q > 0 && #[trigger] (capacity * q) == cursor_span();
        lemma_mod_multiples_vanish(q, i, capacity);
    }
}

/// A full round leads back to the same slot.
proof fn lemma_full_round(tail: int, capacity: int)
    requires
        capacity > 0,
    ensures
        slot_at(tail, capacity, capacity) == slot_at(tail, 0, capacity),
{
    lemma_mod_add_multiples_vanish(tail, capacity);
}

/// An attempt to use a queue.
pub enum QueueOp<T> {
    Send(T),
    Recv,
}

/// What a sequence of attempts has done: the items still queued, those that
/// were accepted, and those that were handed out, each in order.
pub struct QueueTrace<T> {
    pub items: Seq<T>,
    pub sent: Seq<T>,
    pub received: Seq<T>,
}

/// The trace of `ops` on a queue that starts empty, where each attempt has the
/// effect and the result that `try_send` and `try_recv` state.
pub open spec fn trace<T>(ops: Seq<QueueOp<T>>, capacity: nat) -> QueueTrace<T>
    decreases ops.len(),
{
    if ops.len() == 0 {
        QueueTrace { items: Seq::empty(), sent: Seq::empty(), received: Seq::empty() }
    } else {
        let t = trace(ops.drop_last(), capacity);
        match ops.last() {
            QueueOp::Send(value) => QueueTrace {
                items: after_send(t.items, capacity, value),
                sent: if t.items.len() < capacity {
                    t.sent.push(value)
                } else {
                    t.sent
                },
                received: t.received,
            },
            QueueOp::Recv => QueueTrace {
                items: after_recv(t.items),
                sent: t.sent,
                received: if t.items.len() > 0 {
                    t.received.push(t.items.first())
                } else {
                    t.received
                },
            },
        }
    }
}

/// The queue is first in, first out, and loses, invents and repeats nothing:
/// after any sequence of attempts the accepted items are those handed out
/// followed by those still queued, and never more than `capacity` are queued.
pub proof fn law_fifo<T>(ops: Seq<QueueOp<T>>, capacity: nat)
    ensures
        trace(ops, capacity).sent == trace(ops, capacity).received + trace(ops, capacity).items,
        trace(ops, capacity).items.len() <= capacity,
    decreases ops.len(),
{
    let after = trace(ops, capacity);
    if ops.len() > 0 {
        law_fifo(ops.drop_last(), capacity);
    }
    assert(after.sent =~= after.received + after.items);
}

/// A queue in use has a power of two of slots and never more items than slots.
pub proof fn law_ring_bounded<T>(ring: Ring<T>, producer: Producer<T>, consumer: Consumer<T>)
    requires
        producer.attached(ring) || consumer.attached(ring),
    ensures
        is_pow2(ring.capacity() as int),
        ring@.len() <= ring.capacity(),
{
}

/// The wrapping difference of two wrapped counts is their difference.
proof fn lemma_queued_counts(a: int, b: int)
    requires
        0 <= b <= a,
        a - b < cursor_span(),
    ensures
        queued((a % cursor_span()) as usize, (b % cursor_span()) as usize) == a - b,
{
    let n: int = cursor_span();
    lemma_mod_bound(a, n);
    lemma_mod_bound(b, n);
    lemma_fundamental_div_mod(a, n);
    lemma_fundamental_div_mod(b, n);
    let qa: int = a / n;
    let qb: int = b / n;
    let ra: int = a % n;
    let rb: int = b % n;
    assert(ra - rb == a - b || ra - rb == a - b - n) by (nonlinear_arith)
        requires
            a == n * qa + ra,
            b == n * qb + rb,
            0 <= ra < n,
            0 <= rb < n,
            0 <= a - b < n,
    ;
}

/// The producer may go by an old value of the consumer's cursor. When
/// `sent` items were sent and `taken` received, of which the producer has seen
/// `seen_taken`, then a slot that it chooses is the one for item `sent` and holds
/// no item that is still unread, and its view stays at most a full round behind;
/// when it chooses none, the queue was full as far as it has seen.
pub proof fn law_producer_never_overwrites(sent: int, taken: int, seen_taken: int, capacity: int)
    requires
        is_pow2(capacity),
        capacity <= usize::MAX,
        0 <= seen_taken <= taken <= sent <= seen_taken + capacity,
    ensures
        ({
            let head = (sent % cursor_span()) as usize;
            let tail = (seen_taken % cursor_span()) as usize;
            match producer_choice(head, tail, capacity) {
                Some(slot) => {
                    &&& slot == sent % capacity
                    &&& sent + 1 <= seen_taken + capacity
                    &&& forall|k: int| taken <= k < sent ==> #[trigger] (k % capacity) != slot
                },
                None => sent == seen_taken + capacity,
            }
        }),
{
    let n: int = cursor_span();
    lemma_queued_counts(sent, seen_taken);
    lemma_mod_bound(sent, n);
    lemma_wrapped_slot(sent, capacity);
    if sent < seen_taken + capacity {
        assert forall|k: int| taken <= k < sent implies #[trigger] (k % capacity) != sent
            % capacity by {
            lemma_slots_differ(seen_taken, k - seen_taken, sent - seen_taken, capacity);
        }
    }
}

/// The consumer may go by an old value of the producer's cursor. When `taken`
/// items were received and `sent` were sent, of which the consumer has seen
/// `seen_sent`, then a slot that it chooses is the one for item `taken`, which
/// was published, and no other unread item is in it; when it chooses none, it
/// has received all that it has seen.
pub proof fn law_consumer_reads_published(taken: int, sent: int, seen_sent: int, capacity: int)
    requires
        is_pow2(capacity),
        capacity <= usize::MAX,
        0 <= taken <= seen_sent <= sent <= taken + capacity,
    ensures
        ({
            let tail = (taken % cursor_span()) as usize;
            let head = (seen_sent % cursor_span()) as usize;
            match consumer_choice(tail, head, capacity) {
                Some(slot) => {
                    &&& slot == taken % capacity
                    &&& taken < seen_sent
                    &&& forall|k: int| taken < k < sent ==> #[trigger] (k % capacity) != slot
                },
                None => taken == seen_sent,
            }
        }),
{
    let n: int = cursor_span();
    lemma_queued_counts(seen_sent, taken);
    lemma_mod_bound(taken, n);
    lemma_mod_bound(seen_sent, n);
    lemma_wrapped_slot(taken, capacity);
    assert forall|k: int| taken < k < sent implies #[trigger] (k % capacity) != taken
        % capacity by {
        lemma_slots_differ(taken, k - taken, 0, capacity);
    }
}

} // verus!
