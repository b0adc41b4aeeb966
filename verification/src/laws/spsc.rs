//! Laws of the ring buffer.

use crate::spsc::{
    consumer_slot, producer_slot, spsc, Consumer, Producer, RecvStep, Ring, SendStep, WaitStrategy,
};
use vstd::arithmetic::power2::is_pow2;
use vstd::prelude::*;

verus! {

/// A new queue is empty and has the capacity that was asked for.
pub proof fn law_new_queue<T>(capacity: usize, r: (Producer<T>, Consumer<T>, Ring<T>))
    requires
        is_pow2(capacity as int),
        call_ensures(spsc::<T>, (capacity,), r),
    ensures
        r.0.attached(r.2) && r.1.attached(r.2),
        r.2@.len() == 0,
        r.2.capacity() == capacity,
{
}

/// A send succeeds exactly when there is room, and then the value is the last in
/// the queue, behind what was there; when it fails, it gives the value back and
/// the queue is as it was.
pub proof fn law_try_send<T>(
    p: &mut Producer<T>,
    ring: &mut Ring<T>,
    value: T,
    r: Result<(), T>,
    i: int,
)
    requires
        old(p).attached(*old(ring)),
        call_ensures(Producer::<T>::try_send, (p, ring, value), r),
    ensures
        r is Ok <==> old(ring)@.len() < old(ring).capacity(),
        r is Ok ==> {
            &&& final(ring)@.len() == old(ring)@.len() + 1
            &&& final(ring)@.last() == value
        },
        0 <= i < old(ring)@.len() ==> final(ring)@[i] == old(ring)@[i],
        r matches Err(back) ==> back == value && final(ring)@ == old(ring)@,
        final(ring).capacity() == old(ring).capacity(),
        final(p).attached(*final(ring)),
{
}

/// A receive takes the oldest item, and the others move up; on an empty queue it
/// takes nothing.
pub proof fn law_try_recv<T>(c: &mut Consumer<T>, ring: &mut Ring<T>, r: Option<T>, i: int)
    requires
        old(c).attached(*old(ring)),
        call_ensures(Consumer::<T>::try_recv, (c, ring), r),
    ensures
        r is Some <==> old(ring)@.len() > 0,
        r matches Some(value) ==> {
            &&& value == old(ring)@[0]
            &&& final(ring)@.len() == old(ring)@.len() - 1
        },
        r is None ==> final(ring)@.len() == 0,
        0 < i < old(ring)@.len() ==> final(ring)@[i - 1] == old(ring)@[i],
        final(ring).capacity() == old(ring).capacity(),
        final(c).attached(*final(ring)),
{
}

/// A turn of a blocking send waits exactly when a send would fail, with the same
/// value and in the way that was asked for; it never drops a value.
pub proof fn law_send_turn<T>(
    p: &mut Producer<T>,
    ring: &mut Ring<T>,
    value: T,
    strategy: WaitStrategy,
    step: SendStep<T>,
)
    requires
        old(p).attached(*old(ring)),
        call_ensures(Producer::<T>::send, (p, ring, value, strategy), step),
    ensures
        step is Sent <==> old(ring)@.len() < old(ring).capacity(),
        step is Sent ==> final(ring)@ == old(ring)@.push(value),
        step matches SendStep::Wait { value: v, strategy: s } ==> {
            &&& v == value
            &&& s == strategy
            &&& final(ring)@ == old(ring)@
        },
{
}

/// A turn of a blocking receive waits exactly when the queue is empty.
pub proof fn law_recv_turn<T>(
    c: &mut Consumer<T>,
    ring: &mut Ring<T>,
    strategy: WaitStrategy,
    step: RecvStep<T>,
)
    requires
        old(c).attached(*old(ring)),
        call_ensures(Consumer::<T>::recv, (c, ring, strategy), step),
    ensures
        step is Wait <==> old(ring)@.len() == 0,
        step matches RecvStep::Wait { strategy: s } ==> s == strategy && final(ring)@ == old(
            ring,
        )@,
        step matches RecvStep::Received { value } ==> old(ring)@ == seq![value] + final(ring)@,
{
    if old(ring)@.len() > 0 {
        assert(old(ring)@ =~= seq![old(ring)@.first()] + old(ring)@.drop_first());
    }
}

/// Both halves know the capacity of their queue.
pub proof fn law_capacity<T>(
    p: &Producer<T>,
    c: &Consumer<T>,
    ring: Ring<T>,
    a: usize,
    b: usize,
)
    requires
        p.attached(ring),
        c.attached(ring),
        call_ensures(Producer::<T>::capacity, (p,), a),
        call_ensures(Consumer::<T>::capacity, (c,), b),
    ensures
        a == ring.capacity(),
        b == ring.capacity(),
{
}

/// The producer finds a slot exactly when its cursor is less than a full round
/// ahead of the consumer's, both of which wrap around: `ahead` is how far it is.
/// The slot is the remainder of its cursor.
pub proof fn law_producer_slot(
    head: usize,
    tail: usize,
    mask: usize,
    slot: Option<usize>,
    ahead: usize,
    rounds: int,
)
    requires
        is_pow2(mask + 1),
        mask < usize::MAX,
        call_ensures(producer_slot, (head, tail, mask), slot),
        tail + ahead == head || tail + ahead == head + usize::MAX + 1,
    ensures
        slot is None <==> ahead > mask,
        slot matches Some(s) ==> s <= mask && (rounds == head as int / (mask + 1) ==> head == rounds
            * (mask + 1) + s),
{
    vstd::arithmetic::div_mod::lemma_fundamental_div_mod(head as int, mask + 1);
    let q = head as int / (mask + 1);
    assert((mask + 1) * q == q * (mask + 1)) by (nonlinear_arith);
}

/// The consumer finds a slot exactly when the cursors differ. The slot is the
/// remainder of its cursor.
pub proof fn law_consumer_slot(
    tail: usize,
    head: usize,
    mask: usize,
    slot: Option<usize>,
    rounds: int,
)
    requires
        is_pow2(mask + 1),
        mask < usize::MAX,
        call_ensures(consumer_slot, (tail, head, mask), slot),
    ensures
        slot is None <==> tail == head,
        slot matches Some(s) ==> s <= mask && (rounds == tail as int / (mask + 1) ==> tail == rounds
            * (mask + 1) + s),
{
    vstd::arithmetic::div_mod::lemma_fundamental_div_mod(tail as int, mask + 1);
    let q = tail as int / (mask + 1);
    assert((mask + 1) * q == q * (mask + 1)) by (nonlinear_arith);
}

} // verus!
