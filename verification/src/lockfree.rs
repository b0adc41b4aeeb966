//! Why the ring buffer needs no lock: two threads that decide by
//! [`producer_slot`](crate::spsc::producer_slot) and
//! [`consumer_slot`](crate::spsc::consumer_slot), each by a value of the other's
//! cursor that may be out of date, never get into each other's way.
//!
//! A send is two steps, first the slot and then the cursor, and so is a receive.
//! The steps of the two threads may come in any order.

use crate::spsc::{
    consumer_choice, cursor_span, law_consumer_reads_published, law_producer_never_overwrites,
    producer_choice,
};
use vstd::arithmetic::power2::is_pow2;
use vstd::prelude::*;

verus! {

/// What the two threads share, and what each of them knows.
#[verifier::ext_equal]
pub struct Shared<T> {
    /// The items in the slots, `None` in one that was never written.
    pub slots: Seq<Option<T>>,
    /// The published items; their number is the producer's cursor.
    pub sent: Seq<T>,
    /// The received items; their number is the consumer's cursor.
    pub received: Seq<T>,
    /// The consumer's cursor as the producer last saw it.
    pub seen_taken: int,
    /// The producer's cursor as the consumer last saw it.
    pub seen_sent: int,
    /// The item that the producer has written and not published yet.
    pub writing: Option<T>,
    /// The item that the consumer has read and not released yet.
    pub reading: Option<T>,
}

/// A step of one of the threads.
pub enum Step<T> {
    /// The producer loads the consumer's cursor.
    LookAtTail(int),
    /// The producer writes an item to the slot that it chooses.
    Write(T),
    /// The producer advances its cursor.
    Publish,
    /// The consumer loads the producer's cursor.
    LookAtHead(int),
    /// The consumer reads the slot that it chooses.
    Read,
    /// The consumer advances its cursor.
    Release,
}

/// A cursor that counts `n` items.
pub open spec fn cursor(n: int) -> usize {
    (n % cursor_span()) as usize
}

impl<T> Shared<T> {
    /// A queue that was not used yet.
    pub open spec fn start(capacity: nat) -> Self {
        Shared {
            slots: Seq::new(capacity, |i: int| None),
            sent: Seq::empty(),
            received: Seq::empty(),
            seen_taken: 0,
            seen_sent: 0,
            writing: None,
            reading: None,
        }
    }

    /// The slot that the producer chooses.
    pub open spec fn to_write(self) -> Option<int> {
        producer_choice(
            cursor(self.sent.len() as int),
            cursor(self.seen_taken),
            self.slots.len() as int,
        )
    }

    /// The slot that the consumer chooses.
    pub open spec fn to_read(self) -> Option<int> {
        consumer_choice(
            cursor(self.received.len() as int),
            cursor(self.seen_sent),
            self.slots.len() as int,
        )
    }

    /// That a thread may take `step` now. A load gives some value that the cursor
    /// has had since the last load.
    pub open spec fn allows(self, step: Step<T>) -> bool {
        match step {
            Step::LookAtTail(n) => self.seen_taken <= n <= self.received.len(),
            Step::Write(_) => self.writing is None && self.to_write() is Some,
            Step::Publish => self.writing is Some,
            Step::LookAtHead(n) => self.seen_sent <= n <= self.sent.len(),
            Step::Read => self.reading is None && self.to_read() is Some,
            Step::Release => self.reading is Some,
        }
    }

    /// What `step` does.
    pub open spec fn after(self, step: Step<T>) -> Self {
        match step {
            Step::LookAtTail(n) => Shared { seen_taken: n, ..self },
            Step::Write(value) => Shared {
                slots: self.slots.update(self.to_write()->0, Some(value)),
                writing: Some(value),
                ..self
            },
            Step::Publish => Shared {
                sent: self.sent.push(self.writing->0),
                writing: None,
                ..self
            },
            Step::LookAtHead(n) => Shared { seen_sent: n, ..self },
            Step::Read => Shared { reading: self.slots[self.to_read()->0], ..self },
            Step::Release => Shared {
                received: self.received.push(self.reading->0),
                reading: None,
                ..self
            },
        }
    }

    /// What holds at any time: no cursor is behind what was seen of it, the cursors
    /// are at most a full round apart, and every published item that was not
    /// received stands in its slot.
    pub open spec fn wf(self) -> bool {
        let capacity = self.slots.len() as int;
        let sent = self.sent.len() as int;
        let taken = self.received.len() as int;
        &&& 0 <= self.seen_taken <= taken <= self.seen_sent <= sent <= self.seen_taken + capacity
        &&& self.received == self.sent.take(taken)
        &&& forall|k: int|
            taken <= k < sent ==> self.slots[#[trigger] (k % capacity)] == Some(self.sent[k])
        &&& self.writing matches Some(value) ==> {
            &&& sent < self.seen_taken + capacity
            &&& self.slots[sent % capacity] == Some(value)
        }
        &&& self.reading matches Some(value) ==> {
            &&& taken < self.seen_sent
            &&& value == self.sent[taken]
        }
    }
}

/// The queue after `steps` from the start.
pub open spec fn after_all<T>(steps: Seq<Step<T>>, capacity: nat) -> Shared<T>
    decreases steps.len(),
{
    if steps.len() == 0 {
        Shared::start(capacity)
    } else {
        after_all(steps.drop_last(), capacity).after(steps.last())
    }
}

/// That each of `steps` may be taken after those before it.
pub open spec fn possible<T>(steps: Seq<Step<T>>, capacity: nat) -> bool
    decreases steps.len(),
{
    steps.len() == 0 || {
        &&& possible(steps.drop_last(), capacity)
        &&& after_all(steps.drop_last(), capacity).allows(steps.last())
    }
}

/// Every step keeps what holds at any time.
proof fn lemma_step<T>(s: Shared<T>, step: Step<T>)
    requires
        s.wf(),
        s.allows(step),
        is_pow2(s.slots.len() as int),
        s.slots.len() <= usize::MAX,
    ensures
        s.after(step).wf(),
        s.after(step).slots.len() == s.slots.len(),
{
    let capacity = s.slots.len() as int;
    let sent = s.sent.len() as int;
    let taken = s.received.len() as int;
    let t = s.after(step);
    match step {
        Step::Write(value) => {
            law_producer_never_overwrites(sent, taken, s.seen_taken, capacity);
            vstd::arithmetic::div_mod::lemma_mod_bound(sent, capacity);
        },
        Step::Publish => {
            assert(t.received =~= t.sent.take(taken));
            assert forall|k: int| taken <= k < sent + 1 implies t.slots[#[trigger] (k % capacity)]
                == Some(t.sent[k]) by {
                if k < sent {
                    assert(s.slots[k % capacity] == Some(s.sent[k]));
                }
            }
        },
        Step::Read => {
            law_consumer_reads_published(taken, sent, s.seen_sent, capacity);
            assert(s.slots[taken % capacity] == Some(s.sent[taken]));
        },
        Step::Release => {
            assert(t.received =~= t.sent.take(taken + 1));
        },
        _ => {},
    }
}

/// Whatever the threads do, and however far behind their views of each other
/// are, the invariant holds.
pub proof fn law_invariant<T>(steps: Seq<Step<T>>, capacity: nat)
    requires
        is_pow2(capacity as int),
        capacity <= usize::MAX,
        possible(steps, capacity),
    ensures
        after_all(steps, capacity).wf(),
        after_all(steps, capacity).slots.len() == capacity,
    decreases steps.len(),
{
    if steps.len() == 0 {
        assert(Shared::<T>::start(capacity).received =~= Shared::<T>::start(capacity).sent.take(0));
    } else {
        law_invariant(steps.drop_last(), capacity);
        lemma_step(after_all(steps.drop_last(), capacity), steps.last());
    }
}

/// The consumer receives what the producer sent, in order, each item once: at any
/// time the received items are the first of the sent ones. At most `capacity` are
/// on their way.
pub proof fn law_threads_keep_order<T>(steps: Seq<Step<T>>, capacity: nat)
    requires
        is_pow2(capacity as int),
        capacity <= usize::MAX,
        possible(steps, capacity),
    ensures
        ({
            let s = after_all(steps, capacity);
            &&& s.received.is_prefix_of(s.sent)
            &&& s.sent.len() <= s.received.len() + capacity
        }),
{
    law_invariant(steps, capacity);
}

/// The producer never writes to a slot with an item in it that was not received,
/// nor to the one that the consumer is reading.
pub proof fn law_no_unread_slot_written<T>(steps: Seq<Step<T>>, capacity: nat, k: int)
    requires
        is_pow2(capacity as int),
        capacity <= usize::MAX,
        possible(steps, capacity),
        after_all(steps, capacity).received.len() <= k < after_all(steps, capacity).sent.len(),
    ensures
        after_all(steps, capacity).to_write() matches Some(slot) ==> slot != k % capacity as int,
{
    law_invariant(steps, capacity);
    let s = after_all(steps, capacity);
    law_producer_never_overwrites(
        s.sent.len() as int,
        s.received.len() as int,
        s.seen_taken,
        capacity as int,
    );
}

/// The consumer only reads a slot that was written: it holds the item that is
/// next.
pub proof fn law_only_published_slot_read<T>(steps: Seq<Step<T>>, capacity: nat)
    requires
        is_pow2(capacity as int),
        capacity <= usize::MAX,
        possible(steps, capacity),
    ensures
        ({
            let s = after_all(steps, capacity);
            s.to_read() matches Some(slot) ==> {
                &&& s.received.len() < s.sent.len()
                &&& s.slots[slot] == Some(s.sent[s.received.len() as int])
            }
        }),
{
    law_invariant(steps, capacity);
    let s = after_all(steps, capacity);
    law_consumer_reads_published(
        s.received.len() as int,
        s.sent.len() as int,
        s.seen_sent,
        capacity as int,
    );
    if s.received.len() < s.seen_sent {
        assert(s.slots[s.received.len() as int % capacity as int] == Some(
            s.sent[s.received.len() as int],
        ));
    }
}

/// That the producer takes none of `steps` that send.
pub open spec fn no_sends<T>(steps: Seq<Step<T>>) -> bool {
    forall|i: int| 0 <= i < steps.len() ==> !(#[trigger] steps[i] is Write || steps[i] is Publish)
}

/// A sender that is done stays done: without sends, what was sent is the same.
proof fn lemma_sender_done<T>(steps: Seq<Step<T>>, later: Seq<Step<T>>, capacity: nat)
    requires
        no_sends(later),
        after_all(steps, capacity).writing is None,
    ensures
        after_all(steps + later, capacity).sent == after_all(steps, capacity).sent,
        after_all(steps + later, capacity).writing is None,
    decreases later.len(),
{
    if later.len() == 0 {
        assert(steps + later =~= steps);
    } else {
        let fewer = later.drop_last();
        assert(no_sends(fewer)) by {
            assert forall|i: int| 0 <= i < fewer.len() implies !(#[trigger] fewer[i] is Write
                || fewer[i] is Publish) by {
                assert(fewer[i] == later[i]);
            }
        }
        lemma_sender_done(steps, fewer, capacity);
        assert((steps + later).drop_last() =~= steps + fewer);
        assert((steps + later).last() == later.last());
        assert(later[later.len() - 1] == later.last());
    }
}

/// Nothing sent is lost. The receiver may stop when it finds the queue empty and
/// had learned before it looked that the sender was done: `steps` lead up to the
/// moment when the sender was done, and after `later` ones the receiver looks at a
/// head at least as new as that and finds nothing to read. Then it has received
/// all that was ever sent.
pub proof fn law_stopped_receiver_has_all<T>(
    steps: Seq<Step<T>>,
    later: Seq<Step<T>>,
    capacity: nat,
)
    requires
        is_pow2(capacity as int),
        capacity <= usize::MAX,
        possible(steps + later, capacity),
        after_all(steps, capacity).writing is None,
        no_sends(later),
        after_all(steps + later, capacity).seen_sent >= after_all(steps, capacity).sent.len(),
        after_all(steps + later, capacity).to_read() is None,
    ensures
        after_all(steps + later, capacity).received == after_all(steps + later, capacity).sent,
        after_all(steps + later, capacity).received == after_all(steps, capacity).sent,
{
    let s = after_all(steps + later, capacity);
    law_invariant(steps + later, capacity);
    lemma_sender_done(steps, later, capacity);
    law_consumer_reads_published(
        s.received.len() as int,
        s.sent.len() as int,
        s.seen_sent,
        capacity as int,
    );
    assert(s.received =~= s.sent);
}

} // verus!
