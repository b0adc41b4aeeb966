//! Laws of the bus.

use crate::bus::{
    clock_reading, history, law_well_formed_throughout, lemma_earlier, lemma_part, recipients,
    timestamp_of, Bus, BusCall, BusState, Filter, OfferResult, Sub, SubId,
};
use crate::channel::{
    accepted_by, attempts_on, channel_fits, connected, sender_capacity, taken, SendOutcome,
};
use crate::message::{topic_text, Message};
use crossbeam_channel::Receiver;
use vstd::prelude::*;

verus! {

/// A pattern that ends in `*` is a prefix, without the star; any other stands for
/// itself.
pub proof fn law_parse(pattern: &str, f: Filter)
    requires
        call_ensures(Filter::parse, (pattern,), f),
    ensures
        ({
            let n = pattern@.len();
            if n > 0 && pattern@[n - 1] == '*' {
                f matches Filter::Prefix(p) && p@ == pattern@.take(n - 1)
            } else {
                f matches Filter::Exact(t) && t@ == pattern@
            }
        }),
{
    let n = pattern@.len();
    if n > 0 && pattern@[n - 1] == '*' {
        assert(pattern@.take(n - 1) =~= pattern@.drop_last());
    }
}

/// That a subscription with this filter is for `topic`.
pub open spec fn hears(filter: Filter, topic: Seq<char>) -> bool {
    match filter {
        Filter::Exact(t) => t@ == topic,
        Filter::Prefix(p) => p@.len() <= topic.len() && forall|i: int|
            0 <= i < p@.len() ==> #[trigger] topic[i] == p@[i],
    }
}

proof fn lemma_hears(filter: Filter, topic: Seq<char>)
    ensures
        filter@.admits(topic) <==> hears(filter, topic),
{
    if let Filter::Prefix(p) = filter {
        if hears(filter, topic) {
            assert(p@ =~= topic.subrange(0, p@.len() as int));
        } else if filter@.admits(topic) {
            assert(p@ =~= topic.subrange(0, p@.len() as int));
            assert forall|i: int| 0 <= i < p@.len() implies #[trigger] topic[i] == p@[i] by {
                assert(topic.subrange(0, p@.len() as int)[i] == topic[i]);
            }
        }
    }
}

/// A filter matches the topic that it spells, or every topic that begins with its
/// characters.
pub proof fn law_matches(f: &Filter, topic: &str, r: bool)
    requires
        call_ensures(Filter::matches, (f, topic), r),
    ensures
        r <==> hears(*f, topic@),
{
    lemma_hears(*f, topic@);
}

/// A pattern with a star matches exactly the topics that begin with what stands
/// before it; one without, exactly the topic that it spells.
pub proof fn law_pattern(pattern: &str, f: &Filter, topic: &str, r: bool)
    requires
        call_ensures(Filter::parse, (pattern,), *f),
        call_ensures(Filter::matches, (f, topic), r),
    ensures
        ({
            let n = pattern@.len();
            if n > 0 && pattern@[n - 1] == '*' {
                r <==> n - 1 <= topic@.len() && forall|i: int|
                    0 <= i < n - 1 ==> #[trigger] topic@[i] == pattern@[i]
            } else {
                r <==> pattern@ == topic@
            }
        }),
{
    law_parse(pattern, *f);
    law_matches(f, topic, r);
}

/// An accepted attempt counts as sent, one at a full queue as dropped, one whose
/// receiver is gone as neither.
pub proof fn law_count(result: &mut OfferResult, outcome: &SendOutcome)
    requires
        old(result).sent < usize::MAX,
        old(result).dropped < usize::MAX,
        call_ensures(OfferResult::count, (result, outcome), ()),
    ensures
        final(result).sent - old(result).sent == (if *outcome is Sent {
            1int
        } else {
            0
        }),
        final(result).dropped - old(result).dropped == (if *outcome is Full {
            1int
        } else {
            0
        }),
{
}

/// A timestamp counts the nanoseconds since the epoch, less as many whole turns of
/// a 64-bit counter as they go beyond it; before the epoch it is zero.
pub proof fn law_timestamp(since: Option<(u64, u32)>, ns: u64, turns: int)
    requires
        call_ensures(timestamp_of, (since,), ns),
        since matches Some((secs, nanos)) ==> turns * 0x1_0000_0000_0000_0000 <= secs
            * 1_000_000_000 + nanos < (turns + 1) * 0x1_0000_0000_0000_0000,
    ensures
        since is None ==> ns == 0,
        since matches Some((secs, nanos)) ==> ns + turns * 0x1_0000_0000_0000_0000 == secs
            * 1_000_000_000 + nanos,
{
    if let Some((secs, nanos)) = since {
        let total = secs * 1_000_000_000 + nanos;
        let span = 0x1_0000_0000_0000_0000int;
        vstd::arithmetic::div_mod::lemma_fundamental_div_mod_converse(
            total,
            span,
            turns,
            total - turns * span,
        );
    }
}

/// A new bus has the capacity that was asked for, no subscriptions, no drops, and
/// starts its ids at zero.
pub proof fn law_new_bus(capacity: usize, bus: Bus, id: SubId)
    requires
        call_ensures(Bus::new, (capacity,), bus),
    ensures
        bus@.capacity == capacity,
        bus@.next_id == 0,
        bus@.drops == 0,
        !bus@.subs.contains_key(id),
{
}

/// A queue can be made whose slots of 72 bytes fit into memory. A bus is in order
/// when its subscriptions have ids that were given out and queues of its capacity.
pub proof fn law_in_order(capacity: usize, bus: BusState)
    ensures
        channel_fits(capacity) <==> 72 * capacity <= isize::MAX,
        bus.wf() <==> bus.subs.dom().finite() && forall|id: SubId| #[trigger]
            bus.subs.contains_key(id) ==> id < bus.next_id && sender_capacity(bus.subs[id].tx)
                == Some(bus.capacity),
{
}

/// A subscription gets the next id, the filter of its pattern, and a queue of the
/// bus's capacity that nothing was sent to and whose receiving end it hands out.
/// The others are left alone.
pub proof fn law_subscribe(
    bus: &mut Bus,
    pattern: &str,
    r: (SubId, Receiver<Message>),
    other: SubId,
)
    requires
        old(bus)@.wf(),
        old(bus)@.next_id < u64::MAX,
        channel_fits(old(bus)@.capacity),
        call_ensures(Bus::subscribe, (bus, pattern), r),
    ensures
        r.0 == old(bus)@.next_id,
        final(bus)@.next_id == old(bus)@.next_id + 1,
        final(bus)@.capacity == old(bus)@.capacity,
        final(bus)@.drops == old(bus)@.drops,
        final(bus)@.subs.contains_key(r.0),
        ({
            let sub = final(bus)@.subs[r.0];
            let n = pattern@.len();
            &&& attempts_on(sub.tx).len() == 0
            &&& sender_capacity(sub.tx) == Some(old(bus)@.capacity)
            &&& connected(sub.tx, r.1)
            &&& if n > 0 && pattern@[n - 1] == '*' {
                sub.filter matches Filter::Prefix(p) && p@ == pattern@.take(n - 1)
            } else {
                sub.filter matches Filter::Exact(t) && t@ == pattern@
            }
        }),
        other != r.0 ==> {
            &&& final(bus)@.subs.contains_key(other) <==> old(bus)@.subs.contains_key(other)
            &&& old(bus)@.subs.contains_key(other) ==> final(bus)@.subs[other] == old(
                bus,
            )@.subs[other]
        },
{
    let n = pattern@.len();
    if n > 0 && pattern@[n - 1] == '*' {
        assert(pattern@.take(n - 1) =~= pattern@.drop_last());
    }
}

/// Ending a subscription takes it out and leaves everything else as it is.
pub proof fn law_unsubscribe(bus: &mut Bus, id: SubId, other: SubId)
    requires
        old(bus)@.wf(),
        call_ensures(Bus::unsubscribe, (bus, id), ()),
    ensures
        !final(bus)@.subs.contains_key(id),
        other != id ==> {
            &&& final(bus)@.subs.contains_key(other) <==> old(bus)@.subs.contains_key(other)
            &&& old(bus)@.subs.contains_key(other) ==> final(bus)@.subs[other] == old(
                bus,
            )@.subs[other]
        },
        final(bus)@.next_id == old(bus)@.next_id,
        final(bus)@.capacity == old(bus)@.capacity,
        final(bus)@.drops == old(bus)@.drops,
{
}

/// The drop count is read off the bus: what an offer drops shows in it, up to its
/// width, and a new bus shows none.
pub proof fn law_drop_count(
    capacity: usize,
    fresh: &Bus,
    none: u64,
    bus: &mut Bus,
    msg: Message,
    now_ns: u64,
    r: OfferResult,
    earlier: &Bus,
    before: u64,
)
    requires
        call_ensures(Bus::new, (capacity,), *fresh),
        call_ensures(Bus::drop_count, (fresh,), none),
        *earlier == *old(bus),
        earlier@.wf(),
        call_ensures(Bus::drop_count, (earlier,), before),
        call_ensures(Bus::offer_at, (bus, msg, now_ns), r),
    ensures
        none == 0,
        before + r.dropped <= u64::MAX ==> final(bus)@.drops == before + r.dropped,
        before + r.dropped > u64::MAX ==> final(bus)@.drops == before + r.dropped
            - 0x1_0000_0000_0000_0000,
{
    let sum = before + r.dropped;
    if sum > u64::MAX {
        vstd::arithmetic::div_mod::lemma_fundamental_div_mod_converse(
            sum,
            0x1_0000_0000_0000_0000,
            1,
            sum - 0x1_0000_0000_0000_0000,
        );
    }
}

/// Reading the drop count gives what the bus holds.
pub proof fn law_drop_count_read(bus: &Bus, n: u64)
    requires
        call_ensures(Bus::drop_count, (bus,), n),
    ensures
        n == bus@.drops,
{
}

/// How many of the attempts were accepted.
pub open spec fn accepted_among(attempts: Seq<(Message, SendOutcome)>) -> nat {
    attempts.filter(|a: (Message, SendOutcome)| a.1 is Sent).len()
}

/// What was taken are the messages of the accepted attempts.
pub proof fn law_taken(attempts: Seq<(Message, SendOutcome)>)
    ensures
        taken(attempts) == attempts.filter(|a: (Message, SendOutcome)| a.1 is Sent).map_values(
            |a: (Message, SendOutcome)| a.0,
        ),
    decreases attempts.len(),
{
    reveal(Seq::filter);
    let of = |a: (Message, SendOutcome)| a.0;
    let is_sent = |a: (Message, SendOutcome)| a.1 is Sent;
    if attempts.len() > 0 {
        let before = attempts.drop_last();
        law_taken(before);
        if attempts.last().1 is Sent {
            assert(before.filter(is_sent).push(attempts.last()).map_values(of)
                =~= before.filter(is_sent).map_values(of).push(attempts.last().0));
        }
    } else {
        assert(attempts.filter(is_sent).map_values(of) =~= Seq::empty());
    }
}

/// What an offer of a message with these fields does to one subscription: where its
/// filter hears the topic, exactly one attempt is made, behind the earlier ones,
/// with exactly these fields, and it finds the queue full only if `capacity`
/// earlier ones were accepted; where not, none is made. Filter and channel stay.
pub open spec fn tried(
    before: Sub,
    after: Sub,
    topic: Seq<char>,
    capacity: usize,
    timestamp_ns: u64,
    topic_field: Seq<u8>,
    payload_field: Seq<u8>,
) -> bool {
    let (a, b) = (attempts_on(before.tx), attempts_on(after.tx));
    &&& after.filter == before.filter
    &&& sender_capacity(after.tx) == sender_capacity(before.tx)
    &&& forall|rx: Receiver<Message>| #[trigger]
        connected(after.tx, rx) == connected(before.tx, rx)
    &&& if hears(before.filter, topic) {
        &&& b.len() == a.len() + 1
        &&& forall|i: int| 0 <= i < a.len() ==> #[trigger] b[i] == a[i]
        &&& b.last().0.timestamp_ns == timestamp_ns
        &&& b.last().0.topic@ == topic_field
        &&& b.last().0.payload@ == payload_field
        &&& b.last().1 is Full ==> accepted_among(a) >= capacity
    } else {
        b == a
    }
}

/// The step from what an offer states to what it does to each subscription.
proof fn lemma_offer(
    before: BusState,
    msg: Message,
    outcomes: Map<SubId, SendOutcome>,
    after: BusState,
)
    requires
        before.wf(),
        before.steps_to(BusCall::Offer { msg, outcomes }, after),
    ensures
        after.next_id == before.next_id,
        after.capacity == before.capacity,
        after.subs.dom() == before.subs.dom(),
        forall|id: SubId| #[trigger]
            before.subs.contains_key(id) ==> tried(
                before.subs[id],
                after.subs[id],
                topic_text(msg.topic@),
                before.capacity,
                msg.timestamp_ns,
                msg.topic@,
                msg.payload@,
            ),
        crate::bus::accepted(outcomes) =~= answered(before, after, true),
        crate::bus::refused(outcomes) =~= answered(before, after, false),
{
    let topic = topic_text(msg.topic@);
    assert forall|id: SubId| #[trigger] before.subs.contains_key(id) implies tried(
        before.subs[id],
        after.subs[id],
        topic,
        before.capacity,
        msg.timestamp_ns,
        msg.topic@,
        msg.payload@,
    ) && (crate::bus::accepted(outcomes).contains(id) <==> answered(before, after, true).contains(
        id,
    )) && (crate::bus::refused(outcomes).contains(id) <==> answered(before, after, false).contains(
        id,
    )) by {
        let sub = before.subs[id];
        lemma_hears(sub.filter, topic);
        law_taken(attempts_on(sub.tx));
        assert(outcomes.contains_key(id) <==> recipients(before.subs, topic).contains(id));
    }
    assert forall|id: SubId| outcomes.contains_key(id) implies before.subs.contains_key(id) by {
        assert(recipients(before.subs, topic).contains(id));
    }
}

/// The subscriptions with a new attempt that was accepted, or that met a full queue.
pub open spec fn answered(before: BusState, after: BusState, accepted: bool) -> Set<SubId> {
    before.subs.dom().filter(
        |id: SubId|
            {
                let (a, b) = (
                    attempts_on(before.subs[id].tx),
                    attempts_on(after.subs[id].tx),
                );
                b.len() == a.len() + 1 && if accepted {
                    b.last().1 is Sent
                } else {
                    b.last().1 is Full
                }
            },
    )
}

/// What an offer puts into the queues. The message that is tried at a queue has the
/// topic and the payload, all bytes of it, of the message that was offered, and the
/// given timestamp. It is tried once at each queue whose filter hears its topic and
/// at no other. The result counts the queues that accepted it and those that were
/// full. Nothing else changes but the drop counter.
pub proof fn law_offer_at(
    bus: &mut Bus,
    msg: Message,
    now_ns: u64,
    r: OfferResult,
    topic: &str,
    id: SubId,
)
    requires
        old(bus)@.wf(),
        call_ensures(Bus::offer_at, (bus, msg, now_ns), r),
        call_ensures(Message::topic_str, (&msg,), topic),
    ensures
        final(bus)@.next_id == old(bus)@.next_id,
        final(bus)@.capacity == old(bus)@.capacity,
        final(bus)@.subs.contains_key(id) <==> old(bus)@.subs.contains_key(id),
        old(bus)@.subs.contains_key(id) ==> tried(
            old(bus)@.subs[id],
            final(bus)@.subs[id],
            topic@,
            old(bus)@.capacity,
            now_ns,
            msg.topic@,
            msg.payload@,
        ),
        r.sent == answered(old(bus)@, final(bus)@, true).len(),
        r.dropped == answered(old(bus)@, final(bus)@, false).len(),
        old(bus)@.drops + r.dropped <= u64::MAX ==> final(bus)@.drops == old(bus)@.drops
            + r.dropped,
{
    let outcomes = choose|outcomes: Map<SubId, SendOutcome>|
        {
            &&& #[trigger] old(bus)@.steps_to(
                BusCall::Offer { msg: crate::bus::stamped(msg, now_ns), outcomes },
                final(bus)@,
            )
            &&& r.sent == crate::bus::accepted(outcomes).len()
            &&& r.dropped == crate::bus::refused(outcomes).len()
        };
    lemma_offer(old(bus)@, crate::bus::stamped(msg, now_ns), outcomes, final(bus)@);
    if old(bus)@.drops + r.dropped <= u64::MAX {
        vstd::arithmetic::div_mod::lemma_small_mod(
            (old(bus)@.drops + r.dropped) as nat,
            0x1_0000_0000_0000_0000,
        );
    }
}

/// The message that a matching queue accepts from an offer is its last, and has the
/// fields of the message that was offered, with the time of the offer.
pub proof fn law_accepted_message(
    bus: &mut Bus,
    msg: Message,
    now_ns: u64,
    r: OfferResult,
    topic: &str,
    id: SubId,
    k: int,
)
    requires
        old(bus)@.wf(),
        call_ensures(Bus::offer_at, (bus, msg, now_ns), r),
        call_ensures(Message::topic_str, (&msg,), topic),
        old(bus)@.subs.contains_key(id),
        accepted_by(final(bus)@.subs[id].tx).len() > accepted_by(old(bus)@.subs[id].tx).len(),
    ensures
        ({
            let m = accepted_by(final(bus)@.subs[id].tx).last();
            &&& m.timestamp_ns == now_ns
            &&& 0 <= k < 32 ==> m.topic@[k] == msg.topic@[k]
            &&& 0 <= k < 24 ==> m.payload@[k] == msg.payload@[k]
        }),
        accepted_by(final(bus)@.subs[id].tx).drop_last() == accepted_by(old(bus)@.subs[id].tx),
{
    law_offer_at(bus, msg, now_ns, r, topic, id);
    let (a, b) = (attempts_on(old(bus)@.subs[id].tx), attempts_on(final(bus)@.subs[id].tx));
    if hears(old(bus)@.subs[id].filter, topic@) {
        assert(b.drop_last() =~= a);
        assert(taken(a).push(b.last().0).drop_last() =~= taken(a));
    }
}

/// Who gets a message: a subscription to one topic exactly where it is that topic, a
/// prefix subscription exactly where the topic begins with the prefix. Each gets one
/// attempt, with the message that was offered, and any other none. The counts are
/// the numbers of new attempts that were accepted and that met a full queue.
pub proof fn law_offer_routes(
    bus: &mut Bus,
    msg: Message,
    now_ns: u64,
    r: OfferResult,
    topic: &str,
    id: SubId,
)
    requires
        old(bus)@.wf(),
        call_ensures(Bus::offer_at, (bus, msg, now_ns), r),
        call_ensures(Message::topic_str, (&msg,), topic),
        old(bus)@.subs.contains_key(id),
    ensures
        ({
            let (a, b) = (
                attempts_on(old(bus)@.subs[id].tx),
                attempts_on(final(bus)@.subs[id].tx),
            );
            let made = b.len() == a.len() + 1;
            &&& made || b == a
            &&& match old(bus)@.subs[id].filter {
                Filter::Exact(t) => made <==> t@ == topic@,
                Filter::Prefix(p) => made <==> p@.len() <= topic@.len() && forall|i: int|
                    0 <= i < p@.len() ==> #[trigger] topic@[i] == p@[i],
            }
            &&& made ==> b.drop_last() == a
            &&& made ==> b.last().0.timestamp_ns == now_ns
            &&& made ==> b.last().0.topic@ == msg.topic@
            &&& made ==> b.last().0.payload@ == msg.payload@
        }),
        r.sent == old(bus)@.subs.dom().filter(
            |k: SubId|
                attempts_on(final(bus)@.subs[k].tx).len() == attempts_on(
                    old(bus)@.subs[k].tx,
                ).len() + 1 && attempts_on(final(bus)@.subs[k].tx).last().1 is Sent,
        ).len(),
        r.dropped == old(bus)@.subs.dom().filter(
            |k: SubId|
                attempts_on(final(bus)@.subs[k].tx).len() == attempts_on(
                    old(bus)@.subs[k].tx,
                ).len() + 1 && attempts_on(final(bus)@.subs[k].tx).last().1 is Full,
        ).len(),
{
    law_offer_at(bus, msg, now_ns, r, topic, id);
    let (a, b) = (attempts_on(old(bus)@.subs[id].tx), attempts_on(final(bus)@.subs[id].tx));
    if b.len() == a.len() + 1 {
        assert(b.drop_last() =~= a);
    }
    assert(answered(old(bus)@, final(bus)@, true) =~= old(bus)@.subs.dom().filter(
        |k: SubId|
            attempts_on(final(bus)@.subs[k].tx).len() == attempts_on(old(bus)@.subs[k].tx).len() + 1
                && attempts_on(final(bus)@.subs[k].tx).last().1 is Sent,
    ));
    assert(answered(old(bus)@, final(bus)@, false) =~= old(bus)@.subs.dom().filter(
        |k: SubId|
            attempts_on(final(bus)@.subs[k].tx).len() == attempts_on(old(bus)@.subs[k].tx).len() + 1
                && attempts_on(final(bus)@.subs[k].tx).last().1 is Full,
    ));
}

/// A message that is delivered as it is keeps its timestamp too; the drop counter
/// is left to the caller.
pub proof fn law_deliver(bus: &mut Bus, msg: &Message, r: OfferResult, topic: &str, id: SubId)
    requires
        old(bus)@.wf(),
        call_ensures(Bus::deliver, (bus, msg), r),
        call_ensures(Message::topic_str, (msg,), topic),
    ensures
        final(bus)@.next_id == old(bus)@.next_id,
        final(bus)@.capacity == old(bus)@.capacity,
        final(bus)@.drops == old(bus)@.drops,
        final(bus)@.subs.contains_key(id) <==> old(bus)@.subs.contains_key(id),
        old(bus)@.subs.contains_key(id) ==> tried(
            old(bus)@.subs[id],
            final(bus)@.subs[id],
            topic@,
            old(bus)@.capacity,
            msg.timestamp_ns,
            msg.topic@,
            msg.payload@,
        ),
        r.sent == answered(old(bus)@, final(bus)@, true).len(),
        r.dropped == answered(old(bus)@, final(bus)@, false).len(),
{
    let outcomes = choose|outcomes: Map<SubId, SendOutcome>|
        {
            &&& #[trigger] crate::bus::offered(
                old(bus)@.subs,
                *msg,
                outcomes,
                final(bus)@.subs,
            )
            &&& r.sent == crate::bus::accepted(outcomes).len()
            &&& r.dropped == crate::bus::refused(outcomes).len()
        };
    let counted = BusState {
        drops: crate::bus::drops_after(old(bus)@.drops, crate::bus::refused(outcomes).len()),
        ..final(bus)@
    };
    assert(old(bus)@.steps_to(BusCall::Offer { msg: *msg, outcomes }, counted));
    lemma_offer(old(bus)@, *msg, outcomes, counted);
    assert(answered(old(bus)@, counted, true) =~= answered(old(bus)@, final(bus)@, true));
    assert(answered(old(bus)@, counted, false) =~= answered(old(bus)@, final(bus)@, false));
}

/// That the clock said `ns` nanoseconds since the epoch, or stood before it.
pub open spec fn clock_said(ns: u64) -> bool {
    exists|since: Option<(u64, u32)>|
        {
            &&& #[trigger] clock_reading(since)
            &&& match since {
                None => ns == 0,
                Some((secs, nanos)) => ns == (secs * 1_000_000_000 + nanos)
                    % 0x1_0000_0000_0000_0000,
            }
        }
}

/// That `after` is what an offer of `msg` at some time of the clock makes of
/// `before`.
pub open spec fn published(before: BusState, msg: Message, topic: Seq<char>, after: BusState) -> bool {
    exists|ns: u64|
        {
            &&& #[trigger] clock_said(ns)
            &&& forall|id: SubId| #[trigger]
                before.subs.contains_key(id) ==> tried(
                    before.subs[id],
                    after.subs[id],
                    topic,
                    before.capacity,
                    ns,
                    msg.topic@,
                    msg.payload@,
                )
        }
}

/// An offer without a given time takes the time of the clock, the same at all
/// queues, and is otherwise as one with it.
pub proof fn law_offer(bus: &mut Bus, msg: Message, r: OfferResult, topic: &str)
    requires
        old(bus)@.wf(),
        call_ensures(Bus::offer, (bus, msg), r),
        call_ensures(Message::topic_str, (&msg,), topic),
    ensures
        final(bus)@.next_id == old(bus)@.next_id,
        final(bus)@.capacity == old(bus)@.capacity,
        final(bus)@.subs.dom() == old(bus)@.subs.dom(),
        published(old(bus)@, msg, topic@, final(bus)@),
        r.sent == answered(old(bus)@, final(bus)@, true).len(),
        r.dropped == answered(old(bus)@, final(bus)@, false).len(),
        old(bus)@.drops + r.dropped <= u64::MAX ==> final(bus)@.drops == old(bus)@.drops
            + r.dropped,
{
    let (since, outcomes) = choose|since: Option<(u64, u32)>, outcomes: Map<SubId, SendOutcome>|
        {
            &&& #[trigger] clock_reading(since)
            &&& #[trigger] old(bus)@.steps_to(
                BusCall::Offer {
                    msg: crate::bus::stamped(msg, crate::bus::epoch_ns(since)),
                    outcomes,
                },
                final(bus)@,
            )
            &&& r.sent == crate::bus::accepted(outcomes).len()
            &&& r.dropped == crate::bus::refused(outcomes).len()
        };
    let out = crate::bus::stamped(msg, crate::bus::epoch_ns(since));
    lemma_offer(old(bus)@, out, outcomes, final(bus)@);
    assert(clock_said(out.timestamp_ns));
    if old(bus)@.drops + r.dropped <= u64::MAX {
        vstd::arithmetic::div_mod::lemma_small_mod(
            (old(bus)@.drops + r.dropped) as nat,
            0x1_0000_0000_0000_0000,
        );
    }
}

/// Publishing is offering; the result is the number of queues that accepted.
pub proof fn law_publish(bus: &mut Bus, msg: Message, sent: usize, topic: &str)
    requires
        old(bus)@.wf(),
        call_ensures(Bus::publish, (bus, msg), sent),
        call_ensures(Message::topic_str, (&msg,), topic),
    ensures
        final(bus)@.next_id == old(bus)@.next_id,
        final(bus)@.capacity == old(bus)@.capacity,
        final(bus)@.subs.dom() == old(bus)@.subs.dom(),
        published(old(bus)@, msg, topic@, final(bus)@),
        sent == answered(old(bus)@, final(bus)@, true).len(),
        ({
            let dropped = answered(old(bus)@, final(bus)@, false).len();
            old(bus)@.drops + dropped <= u64::MAX ==> final(bus)@.drops == old(bus)@.drops + dropped
        }),
{
    let (since, outcomes) = choose|since: Option<(u64, u32)>, outcomes: Map<SubId, SendOutcome>|
        {
            &&& #[trigger] clock_reading(since)
            &&& #[trigger] old(bus)@.steps_to(
                BusCall::Offer {
                    msg: crate::bus::stamped(msg, crate::bus::epoch_ns(since)),
                    outcomes,
                },
                final(bus)@,
            )
            &&& sent == crate::bus::accepted(outcomes).len()
        };
    let out = crate::bus::stamped(msg, crate::bus::epoch_ns(since));
    lemma_offer(old(bus)@, out, outcomes, final(bus)@);
    assert(clock_said(out.timestamp_ns));
    let dropped = answered(old(bus)@, final(bus)@, false).len();
    if old(bus)@.drops + dropped <= u64::MAX {
        vstd::arithmetic::div_mod::lemma_small_mod(
            (old(bus)@.drops + dropped) as nat,
            0x1_0000_0000_0000_0000,
        );
    }
}

/// No call changes the capacity.
proof fn lemma_capacity_stays(states: Seq<BusState>, calls: Seq<BusCall>)
    requires
        history(states, calls),
    ensures
        states.last().capacity == states[0].capacity,
    decreases calls.len(),
{
    if calls.len() > 0 {
        lemma_earlier(states, calls);
        lemma_capacity_stays(states.drop_last(), calls.drop_last());
    }
}

/// A bus made for `capacity` messages per queue queues that many: whatever was
/// called on it since, a queue refuses a message as full only after it accepted at
/// least `capacity`.
pub proof fn law_capacity_is_kept(
    capacity: usize,
    bus: Bus,
    states: Seq<BusState>,
    calls: Seq<BusCall>,
    j: int,
    id: SubId,
)
    requires
        call_ensures(Bus::new, (capacity,), bus),
        history(states, calls),
        states[0] == bus@,
        0 <= j < calls.len(),
        calls[j] is Offer,
        states[j].subs.contains_key(id),
        attempts_on(states[j + 1].subs[id].tx).len() > attempts_on(states[j].subs[id].tx).len(),
        attempts_on(states[j + 1].subs[id].tx).last().1 is Full,
    ensures
        accepted_among(attempts_on(states[j].subs[id].tx)) >= capacity,
{
    lemma_part(states, calls, 0, j);
    let (some_states, some_calls) = (states.subrange(0, j + 1), calls.subrange(0, j));
    assert(some_states.last() == states[j]);
    assert(some_states[0] == states[0]);
    law_well_formed_throughout(some_states, some_calls);
    lemma_capacity_stays(some_states, some_calls);
    if let BusCall::Offer { msg, outcomes } = calls[j] {
        lemma_offer(states[j], msg, outcomes, states[j + 1]);
        assert(states[j].subs.contains_key(id));
    }
}

} // verus!
