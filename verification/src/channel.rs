//! The subscriber queues: bounded channels of the `crossbeam-channel` crate.

use crate::message::Message;
use crossbeam_channel::{Receiver, Sender, TrySendError};
use vstd::prelude::*;

verus! {

/// The sending end of a channel.
#[verifier::external_type_specification]
#[verifier::external_body]
#[verifier::reject_recursive_types(T)]
pub struct ExSender<T>(crossbeam_channel::Sender<T>);

/// The receiving end of a channel.
#[verifier::external_type_specification]
#[verifier::external_body]
#[verifier::reject_recursive_types(T)]
pub struct ExReceiver<T>(crossbeam_channel::Receiver<T>);

/// What `Sender::capacity` says: how many messages the channel holds, where it
/// is bounded.
pub uninterp spec fn sender_capacity(tx: Sender<Message>) -> Option<usize>;

/// That the two ends belong to one channel, as those that one call of `bounded`
/// gives.
pub uninterp spec fn connected(tx: Sender<Message>, rx: Receiver<Message>) -> bool;

/// The attempts to send that were made on this sending end, in order, each with
/// its message and what became of it.
pub uninterp spec fn attempts_on(tx: Sender<Message>) -> Seq<(Message, SendOutcome)>;

/// The messages of the attempts that were accepted, in order.
pub open spec fn taken(attempts: Seq<(Message, SendOutcome)>) -> Seq<Message>
    decreases attempts.len(),
{
    if attempts.len() == 0 {
        Seq::empty()
    } else {
        let before = taken(attempts.drop_last());
        if attempts.last().1 is Sent {
            before.push(attempts.last().0)
        } else {
            before
        }
    }
}

/// The messages that the channel has accepted from this sending end, in order.
pub open spec fn accepted_by(tx: Sender<Message>) -> Seq<Message> {
    taken(attempts_on(tx))
}

/// One more attempt adds its message to those taken, if it was accepted.
pub proof fn lemma_taken_push(
    attempts: Seq<(Message, SendOutcome)>,
    msg: Message,
    outcome: SendOutcome,
)
    ensures
        taken(attempts.push((msg, outcome))) == (if outcome is Sent {
            taken(attempts).push(msg)
        } else {
            taken(attempts)
        }),
{
    assert(attempts.push((msg, outcome)).drop_last() =~= attempts);
}

/// That both are the sending end of one channel.
pub open spec fn same_channel(a: Sender<Message>, b: Sender<Message>) -> bool {
    &&& sender_capacity(a) == sender_capacity(b)
    &&& forall|rx: Receiver<Message>| #[trigger] connected(a, rx) == connected(b, rx)
}

/// What became of an attempt to send.
pub enum SendOutcome {
    /// The channel accepted the message.
    Sent,
    /// The channel was full; the message comes back.
    Full(Message),
    /// The receiver is gone; the message comes back.
    Disconnected(Message),
}

/// That the buffer of a channel with `capacity` slots can be laid out in memory:
/// a slot takes 72 bytes, the message and an eight-byte stamp.
pub open spec fn channel_fits(capacity: usize) -> bool {
    capacity * 72 <= isize::MAX
}

/// `crossbeam_channel::bounded`: the two ends of a new, empty channel that holds
/// at most `capacity` messages. It panics on a capacity whose buffer cannot be laid
/// out.
#[verifier::external_body]
pub(crate) fn bounded(capacity: usize) -> (r: (Sender<Message>, Receiver<Message>))
    requires
        channel_fits(capacity),
    ensures
        connected(r.0, r.1),
        sender_capacity(r.0) == Some(capacity),
        attempts_on(r.0) == Seq::<(Message, SendOutcome)>::empty(),
{
    crossbeam_channel::bounded(capacity)
}

/// `crossbeam_channel::Sender::try_send`: one attempt to send `msg`, which does not
/// block. An accepted message goes behind those accepted before; one that was not
/// accepted comes back as it was and leaves the channel alone. The channel is full
/// only when it holds as many messages as its capacity, and these it got from this
/// end, which is never cloned. Which outcome comes otherwise depends on what the
/// receiver has done so far, and is not said.
#[verifier::external_body]
pub(crate) fn try_send(tx: &mut Sender<Message>, msg: Message) -> (r: SendOutcome)
    ensures
        same_channel(*old(tx), *final(tx)),
        attempts_on(*final(tx)) == attempts_on(*old(tx)).push((msg, r)),
        r matches SendOutcome::Full(m) ==> m == msg,
        r is Full ==> (sender_capacity(*old(tx)) matches Some(capacity) ==> accepted_by(
            *old(tx),
        ).len() >= capacity),
        r matches SendOutcome::Disconnected(m) ==> m == msg,
{
    match tx.try_send(msg) {
        Ok(()) => SendOutcome::Sent,
        Err(TrySendError::Full(m)) => SendOutcome::Full(m),
        Err(TrySendError::Disconnected(m)) => SendOutcome::Disconnected(m),
    }
}

} // verus!
