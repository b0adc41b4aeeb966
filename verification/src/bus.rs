//! The bus: topic routing to bounded subscriber queues with back-pressure.

use crate::channel::{
    accepted_by, attempts_on, bounded, channel_fits, connected, lemma_taken_push, same_channel,
    sender_capacity, try_send, SendOutcome,
};
use crate::message::{fixed_field, law_topic_round_trip, topic_text, Message, TOPIC_BYTES};
use crate::text::{chars_of, same_text, starts_with};
use crossbeam_channel::{Receiver, Sender};
use std::collections::HashMap;
use vstd::prelude::*;
use vstd::string::StrSliceExecFns;
use vstd::utf8::encode_utf8;

verus! {

/// Names a subscription for the life of its bus.
pub type SubId = u64;

/// Topic-matching rule of a subscription.
#[derive(Debug)]
pub enum Filter {
    /// Matches only this topic.
    Exact(String),
    /// Matches every topic that starts with this text.
    Prefix(String),
}

/// The rule that a [`Filter`] stands for.
pub enum Rule {
    Exact(Seq<char>),
    Prefix(Seq<char>),
}

impl Rule {
    /// The rule that `pattern` writes down: a trailing `*` makes the text before
    /// it a prefix.
    pub open spec fn of_pattern(pattern: Seq<char>) -> Rule {
        if pattern.len() > 0 && pattern.last() == '*' {
            Rule::Prefix(pattern.drop_last())
        } else {
            Rule::Exact(pattern)
        }
    }

    /// That a message on `topic` is for this rule.
    pub open spec fn admits(self, topic: Seq<char>) -> bool {
        match self {
            Rule::Exact(text) => text == topic,
            Rule::Prefix(text) => text.is_prefix_of(topic),
        }
    }
}

impl View for Filter {
    type V = Rule;

    open spec fn view(&self) -> Rule {
        match self {
            Filter::Exact(text) => Rule::Exact(text@),
            Filter::Prefix(text) => Rule::Prefix(text@),
        }
    }
}

impl Filter {
    /// Reads a pattern: a trailing `*` is a wildcard.
    pub fn parse(pattern: &str) -> (f: Self)
        ensures
            f@ == Rule::of_pattern(pattern@),
    {
        let n: usize = pattern.unicode_len();
        if n > 0 && pattern.get_char(n - 1) == '*' {
            let text = pattern.substring_char(0, n - 1).to_owned();
            assert(text@ =~= pattern@.drop_last());
            Filter::Prefix(text)
        } else {
            Filter::Exact(pattern.to_owned())
        }
    }

    /// Whether a message on `topic` is for this filter.
    pub fn matches(&self, topic: &str) -> (r: bool)
        ensures
            r == self@.admits(topic@),
    {
        match self {
            Filter::Exact(text) => same_text(topic, text.as_str()),
            Filter::Prefix(text) => starts_with(
                chars_of(topic).as_slice(),
                chars_of(text.as_str()).as_slice(),
            ),
        }
    }
}

/// Result returned by [`Bus::offer`].
#[derive(Debug, Clone, Copy, PartialEq, Eq, Structural)]
pub struct OfferResult {
    /// Number of subscribers that accepted the message.
    pub sent: usize,
    /// Number of subscribers whose queue was full (message was not delivered).
    pub dropped: usize,
}

impl OfferResult {
    /// The result with one more attempt counted, given what became of it.
    pub open spec fn counting(self, outcome: SendOutcome) -> (int, int) {
        match outcome {
            SendOutcome::Sent => (self.sent + 1, self.dropped as int),
            SendOutcome::Full(_) => (self.sent as int, self.dropped + 1),
            SendOutcome::Disconnected(_) => (self.sent as int, self.dropped as int),
        }
    }

    /// Counts one attempt: an accepted message as sent, one that met a full
    /// queue as dropped, one whose receiver is gone not at all.
    pub fn count(&mut self, outcome: &SendOutcome)
        requires
            old(self).sent < usize::MAX,
            old(self).dropped < usize::MAX,
        ensures
            (final(self).sent as int, final(self).dropped as int) == old(self).counting(*outcome),
    {
        match outcome {
            SendOutcome::Sent => {
                self.sent = self.sent + 1;
            },
            SendOutcome::Full(_) => {
                self.dropped = self.dropped + 1;
            },
            SendOutcome::Disconnected(_) => {},
        }
    }
}

/// A subscription: its rule and the sending end of its queue.
pub struct Sub {
    pub filter: Filter,
    pub tx: Sender<Message>,
}

/// The subscriptions that a message on `topic` goes to.
pub open spec fn recipients(subs: Map<SubId, Sub>, topic: Seq<char>) -> Set<SubId> {
    subs.dom().filter(|id: SubId| subs[id].filter@.admits(topic))
}

/// The subscriptions whose attempt was accepted.
pub open spec fn accepted(outcomes: Map<SubId, SendOutcome>) -> Set<SubId> {
    outcomes.dom().filter(|id: SubId| outcomes[id] is Sent)
}

/// The subscriptions whose attempt met a full queue.
pub open spec fn refused(outcomes: Map<SubId, SendOutcome>) -> Set<SubId> {
    outcomes.dom().filter(|id: SubId| outcomes[id] is Full)
}

/// What becomes of one subscription when `msg` is offered: where there is an
/// outcome, one attempt was made to send it that message, and this is what came of
/// it; where there is none, no attempt was made. A queue is full only after it took
/// as many messages as it holds.
pub open spec fn sub_after(
    before: Sub,
    msg: Message,
    outcome: Option<SendOutcome>,
    after: Sub,
) -> bool {
    &&& after.filter == before.filter
    &&& same_channel(before.tx, after.tx)
    &&& attempts_on(after.tx) == (match outcome {
        Some(o) => attempts_on(before.tx).push((msg, o)),
        None => attempts_on(before.tx),
    })
    &&& match outcome {
        Some(SendOutcome::Full(m)) => m == msg && (sender_capacity(before.tx) matches Some(
            capacity,
        ) ==> accepted_by(before.tx).len() >= capacity),
        Some(SendOutcome::Disconnected(m)) => m == msg,
        _ => true,
    }
}

/// What an attempt does to the messages that a queue took.
proof fn lemma_sub_after(before: Sub, msg: Message, outcome: Option<SendOutcome>, after: Sub)
    requires
        sub_after(before, msg, outcome, after),
    ensures
        accepted_by(after.tx) == (if outcome == Some(SendOutcome::Sent) {
            accepted_by(before.tx).push(msg)
        } else {
            accepted_by(before.tx)
        }),
{
    if let Some(o) = outcome {
        lemma_taken_push(attempts_on(before.tx), msg, o);
    }
}

/// The outcome of the attempt at `id`, where there was one.
pub open spec fn outcome_at(outcomes: Map<SubId, SendOutcome>, id: SubId) -> Option<SendOutcome> {
    if outcomes.contains_key(id) {
        Some(outcomes[id])
    } else {
        None
    }
}

/// That `before` becomes `after` when `msg` is offered to the subscriptions that
/// its topic goes to, with these outcomes, and to no other.
pub open spec fn offered(
    before: Map<SubId, Sub>,
    msg: Message,
    outcomes: Map<SubId, SendOutcome>,
    after: Map<SubId, Sub>,
) -> bool {
    &&& outcomes.dom() == recipients(before, topic_text(msg.topic@))
    &&& after.dom() == before.dom()
    &&& forall|id: SubId| #[trigger]
        before.contains_key(id) ==> sub_after(
            before[id],
            msg,
            outcome_at(outcomes, id),
            after[id],
        )
}

/// The drop counter after `dropped` more drops; it wraps around at its end.
pub open spec fn drops_after(count: u64, dropped: nat) -> u64 {
    ((count + dropped) % 0x1_0000_0000_0000_0000) as u64
}

/// `msg` with its timestamp set to `now_ns`.
pub open spec fn stamped(msg: Message, now_ns: u64) -> Message {
    Message { timestamp_ns: now_ns, topic: msg.topic, payload: msg.payload }
}

/// Nanoseconds since the Unix epoch, cut to 64 bits, of a clock that stands
/// `since` seconds and nanoseconds after it; zero for one that stands before it.
pub open spec fn epoch_ns(since: Option<(u64, u32)>) -> u64 {
    match since {
        Some((secs, nanos)) => ((secs * 1_000_000_000 + nanos) % 0x1_0000_0000_0000_0000) as u64,
        None => 0,
    }
}

/// `std::time::SystemTime::elapsed` of the Unix epoch: the seconds, and the
/// nanoseconds of the second begun, since then; `None` where the system clock
/// stands before it.
#[verifier::external_body]
fn time_since_epoch() -> (r: Option<(u64, u32)>)
    ensures
        r matches Some((_, nanos)) ==> nanos < 1_000_000_000,
{
    match std::time::UNIX_EPOCH.elapsed() {
        Ok(d) => Some((d.as_secs(), d.subsec_nanos())),
        Err(_) => None,
    }
}

/// That `since` is a possible reading of the system clock.
pub closed spec fn clock_reading(since: Option<(u64, u32)>) -> bool {
    call_ensures(time_since_epoch, (), since)
}

/// A clock reading is what the system clock gave and nothing else.
proof fn law_clock_is_read(since: Option<(u64, u32)>)
    requires
        clock_reading(since),
    ensures
        call_ensures(time_since_epoch, (), since),
        since matches Some((_, nanos)) ==> nanos < 1_000_000_000,
{
}

/// Reads `clock`.
fn read<F: Fn() -> Option<(u64, u32)>>(clock: F) -> (since: Option<(u64, u32)>)
    requires
        call_requires(clock, ()),
    ensures
        call_ensures(clock, (), since),
{
    clock()
}

/// The timestamp for a clock reading.
pub fn timestamp_of(since: Option<(u64, u32)>) -> (ns: u64)
    ensures
        ns == epoch_ns(since),
{
    match since {
        Some((secs, nanos)) => {
            let total: u128 = secs as u128 * 1_000_000_000u128 + nanos as u128;
            (total % 0x1_0000_0000_0000_0000u128) as u64
        },
        None => 0,
    }
}

/// What a bus holds.
pub struct BusState {
    /// The id of the next subscription.
    pub next_id: SubId,
    /// The subscriptions by their id.
    pub subs: Map<SubId, Sub>,
    /// The capacity of each subscriber's queue.
    pub capacity: usize,
    /// The drop counter.
    pub drops: u64,
}

/// A call on a bus that changes it.
pub enum BusCall {
    Subscribe { pattern: Seq<char> },
    Unsubscribe { id: SubId },
    /// An offer of a message, timestamp included, and what became of it.
    Offer { msg: Message, outcomes: Map<SubId, SendOutcome> },
}

impl BusState {
    /// A bus that was not used yet.
    pub open spec fn new(capacity: usize) -> Self {
        BusState { next_id: 0, subs: Map::empty(), capacity, drops: 0 }
    }

    /// Every subscription has an id below the next one, and a queue of the bus's
    /// capacity.
    pub open spec fn wf(self) -> bool {
        &&& self.subs.dom().finite()
        &&& forall|id: SubId| #[trigger]
            self.subs.contains_key(id) ==> {
                &&& id < self.next_id
                &&& sender_capacity(self.subs[id].tx) == Some(self.capacity)
            }
    }

    /// What `call` does: `after` is the bus after it.
    pub open spec fn steps_to(self, call: BusCall, after: BusState) -> bool {
        &&& after.capacity == self.capacity
        &&& match call {
            BusCall::Subscribe { pattern } => {
                let sub = after.subs[self.next_id];
                &&& after.next_id == self.next_id + 1
                &&& after.subs == self.subs.insert(self.next_id, sub)
                &&& sub.filter@ == Rule::of_pattern(pattern)
                &&& sender_capacity(sub.tx) == Some(self.capacity)
                &&& attempts_on(sub.tx) == Seq::<(Message, SendOutcome)>::empty()
                &&& after.drops == self.drops
            },
            BusCall::Unsubscribe { id } => {
                &&& after.next_id == self.next_id
                &&& after.subs == self.subs.remove(id)
                &&& after.drops == self.drops
            },
            BusCall::Offer { msg, outcomes } => {
                &&& after.next_id == self.next_id
                &&& offered(self.subs, msg, outcomes, after.subs)
                &&& after.drops == drops_after(self.drops, refused(outcomes).len())
            },
        }
    }
}

/// In-process pub/sub bus backed by `crossbeam-channel`.
///
/// **Topic matching**: exact text equality, or a trailing `*` wildcard:
/// - `"prices"` matches only `"prices"`
/// - `"prices.*"` matches `"prices.USD"`, `"prices.EUR"`, etc.
///
/// **Backpressure**: each subscriber queue is bounded (`capacity`).
/// [`Bus::offer`] returns an [`OfferResult`] so the producer can react.
/// [`Bus::publish`] is a fire-and-forget convenience that returns the sent count.
///
/// Threads that share a bus put a lock around it.
pub struct Bus {
    next_id: SubId,
    subs: HashMap<SubId, Sub>,
    capacity: usize,
    drop_count: u64,
}

impl View for Bus {
    type V = BusState;

    closed spec fn view(&self) -> BusState {
        BusState {
            next_id: self.next_id,
            subs: self.subs@,
            capacity: self.capacity,
            drops: self.drop_count,
        }
    }
}

impl Bus {
    /// A bus without subscriptions, whose subscriber queues will hold `capacity`
    /// messages each.
    pub fn new(capacity: usize) -> (bus: Self)
        ensures
            bus@.wf(),
            bus@ == BusState::new(capacity),
    {
        Bus { next_id: 0, subs: HashMap::new(), capacity, drop_count: 0 }
    }

    /// Subscribes to `pattern`, which may end in a `*` wildcard. Gives the
    /// subscription's id and the receiving end of its queue.
    pub fn subscribe(&mut self, pattern: &str) -> (r: (SubId, Receiver<Message>))
        requires
            old(self)@.wf(),
            old(self)@.next_id < u64::MAX,
            channel_fits(old(self)@.capacity),
        ensures
            final(self)@.wf(),
            old(self)@.steps_to(BusCall::Subscribe { pattern: pattern@ }, final(self)@),
            r.0 == old(self)@.next_id,
            !old(self)@.subs.contains_key(r.0),
            connected(final(self)@.subs[r.0].tx, r.1),
    {
        broadcast use vstd::std_specs::hash::group_hash_axioms;

        let (tx, rx) = bounded(self.capacity);
        let id: SubId = self.next_id;
        self.next_id = self.next_id + 1;
        self.subs.insert(id, Sub { filter: Filter::parse(pattern), tx });
        (id, rx)
    }

    /// Ends the subscription `id`; nothing happens where there is none.
    pub fn unsubscribe(&mut self, id: SubId)
        requires
            old(self)@.wf(),
        ensures
            final(self)@.wf(),
            old(self)@.steps_to(BusCall::Unsubscribe { id }, final(self)@),
    {
        broadcast use vstd::std_specs::hash::group_hash_axioms;

        self.subs.remove(&id);
    }

    /// Messages dropped across all subscribers since the bus was made.
    pub fn drop_count(&self) -> (n: u64)
        ensures
            n == self@.drops,
    {
        self.drop_count
    }

    /// The ids of all subscriptions.
    fn ids(&self) -> (ids: Vec<SubId>)
        ensures
            ids@.no_duplicates(),
            forall|id: SubId| #[trigger] self@.subs.contains_key(id) <==> ids@.contains(id),
    {
        broadcast use vstd::std_specs::hash::group_hash_axioms;

        let mut ids: Vec<SubId> = Vec::new();
        for id in it: self.subs.keys()
            invariant
                it.seq().no_duplicates(),
                forall|id: SubId| #[trigger]
                    self.subs@.contains_key(id) <==> it.seq().unref().to_set().contains(id),
                ids@.len() == it.index(),
                forall|j: int| 0 <= j < ids@.len() ==> #[trigger] ids@[j] == it.seq().unref()[j],
                it.seq().unref().len() == it.seq().len(),
                it.index() == it.seq().len() ==> ids@ =~= it.seq().unref(),
        {
            ids.push(*id);
        }
        assert forall|id: SubId| #[trigger] self@.subs.contains_key(id) == ids@.contains(id) by {
            assert(self.subs@.contains_key(id) == ids@.to_set().contains(id));
        }
        ids
    }

    /// Offers `msg`, as it is, to every subscription that its topic matches, and
    /// counts what became of it.
    pub fn deliver(&mut self, msg: &Message) -> (r: OfferResult)
        requires
            old(self)@.wf(),
        ensures
            final(self)@.wf(),
            final(self)@.next_id == old(self)@.next_id,
            final(self)@.capacity == old(self)@.capacity,
            final(self)@.drops == old(self)@.drops,
            exists|outcomes: Map<SubId, SendOutcome>|
                {
                    &&& #[trigger] offered(old(self)@.subs, *msg, outcomes, final(self)@.subs)
                    &&& r.sent == accepted(outcomes).len()
                    &&& r.dropped == refused(outcomes).len()
                },
    {
        broadcast use vstd::std_specs::hash::group_hash_axioms;

        let topic = msg.topic_str();
        let mut r = OfferResult { sent: 0, dropped: 0 };
        let ghost mut outcomes: Map<SubId, SendOutcome> = Map::empty();
        let ghost before = self@;
        let ids = self.ids();
        assert(accepted(outcomes) =~= Set::empty());
        assert(refused(outcomes) =~= Set::empty());
        let mut i: usize = 0;
        while i < ids.len()
            invariant
                i <= ids@.len(),
                ids@.no_duplicates(),
                forall|id: SubId| #[trigger] before.subs.contains_key(id) <==> ids@.contains(id),
                before.wf(),
                topic@ == topic_text(msg.topic@),
                self@.next_id == before.next_id,
                self@.capacity == before.capacity,
                self@.drops == before.drops,
                self@.subs.dom() == before.subs.dom(),
                forall|j: int|
                    i <= j < ids@.len() ==> self@.subs[#[trigger] ids@[j]] == before.subs[ids@[j]],
                forall|j: int|
                    0 <= j < i ==> sub_after(
                        before.subs[#[trigger] ids@[j]],
                        *msg,
                        outcome_at(outcomes, ids@[j]),
                        self@.subs[ids@[j]],
                    ),
                forall|j: int|
                    0 <= j < i ==> (outcomes.contains_key(#[trigger] ids@[j])
                        <==> before.subs[ids@[j]].filter@.admits(topic@)),
                forall|id: SubId| #[trigger]
                    outcomes.contains_key(id) ==> exists|j: int| 0 <= j < i && ids@[j] == id,
                outcomes.dom().finite(),
                r.sent == accepted(outcomes).len(),
                r.dropped == refused(outcomes).len(),
                r.sent <= i,
                r.dropped <= i,
            decreases ids@.len() - i,
        {
            let id: SubId = ids[i];
            assert(ids@.contains(id));
            let matches = match self.subs.get(&id) {
                Some(sub) => sub.filter.matches(topic),
                None => false,
            };
            let ghost done = outcomes;
            if matches {
                if let Some(sub) = self.subs.remove(&id) {
                    let mut tx = sub.tx;
                    let outcome = try_send(&mut tx, msg.clone());
                    r.count(&outcome);
                    self.subs.insert(id, Sub { filter: sub.filter, tx });
                    proof {
                        lemma_count(done, id, outcome);
                        outcomes = done.insert(id, outcome);
                    }
                }
            }
            assert(self@.subs.dom() =~= before.subs.dom());
            assert(forall|j: int| 0 <= j < ids@.len() && j != i ==> #[trigger] ids@[j] != id);
            i += 1;
        }
        proof {
            let topic = topic_text(msg.topic@);
            assert forall|id: SubId| #[trigger] before.subs.contains_key(id) implies sub_after(
                before.subs[id],
                *msg,
                outcome_at(outcomes, id),
                self@.subs[id],
            ) && (outcomes.contains_key(id) <==> recipients(before.subs, topic).contains(id)) by {
                let j = choose|j: int| 0 <= j < ids@.len() && ids@[j] == id;
                assert(ids@[j] == id);
            }
            assert forall|id: SubId| #[trigger]
                outcomes.contains_key(id) implies before.subs.contains_key(id) by {
                let j = choose|j: int| 0 <= j < ids@.len() && ids@[j] == id;
                assert(ids@.contains(id));
            }
            assert(outcomes.dom() =~= recipients(before.subs, topic));
            assert(offered(before.subs, *msg, outcomes, self@.subs));
        }
        r
    }

    /// Publishes `msg` with the timestamp `now_ns`. The topic decides which
    /// subscribers it is offered to; those whose queue is full are counted as
    /// drops.
    pub fn offer_at(&mut self, msg: Message, now_ns: u64) -> (r: OfferResult)
        requires
            old(self)@.wf(),
        ensures
            final(self)@.wf(),
            exists|outcomes: Map<SubId, SendOutcome>|
                {
                    &&& #[trigger] old(self)@.steps_to(
                        BusCall::Offer { msg: stamped(msg, now_ns), outcomes },
                        final(self)@,
                    )
                    &&& r.sent == accepted(outcomes).len()
                    &&& r.dropped == refused(outcomes).len()
                },
    {
        let mut out = msg;
        out.timestamp_ns = now_ns;
        assert(out == stamped(msg, now_ns));
        let ghost before = self@;
        let r = self.deliver(&out);
        let ghost subs = self@.subs;
        self.drop_count = self.drop_count.wrapping_add(r.dropped as u64);
        proof {
            let outcomes = choose|outcomes: Map<SubId, SendOutcome>|
                {
                    &&& #[trigger] offered(before.subs, out, outcomes, subs)
                    &&& r.sent == accepted(outcomes).len()
                    &&& r.dropped == refused(outcomes).len()
                };
            assert(before.steps_to(BusCall::Offer { msg: stamped(msg, now_ns), outcomes }, self@));
        }
        r
    }

    /// Publishes with a back-pressure signal; the bus sets the timestamp to the
    /// time of the system clock.
    pub fn offer(&mut self, msg: Message) -> (r: OfferResult)
        requires
            old(self)@.wf(),
        ensures
            final(self)@.wf(),
            exists|since: Option<(u64, u32)>, outcomes: Map<SubId, SendOutcome>|
                {
                    &&& #[trigger] clock_reading(since)
                    &&& #[trigger] old(self)@.steps_to(
                        BusCall::Offer { msg: stamped(msg, epoch_ns(since)), outcomes },
                        final(self)@,
                    )
                    &&& r.sent == accepted(outcomes).len()
                    &&& r.dropped == refused(outcomes).len()
                },
    {
        let since = read(time_since_epoch);
        assert(clock_reading(since));
        let now_ns: u64 = timestamp_of(since);
        self.offer_at(msg, now_ns)
    }

    /// Fire-and-forget convenience around [`Bus::offer`]: gives the number of
    /// subscribers that accepted the message.
    pub fn publish(&mut self, msg: Message) -> (sent: usize)
        requires
            old(self)@.wf(),
        ensures
            final(self)@.wf(),
            exists|since: Option<(u64, u32)>, outcomes: Map<SubId, SendOutcome>|
                {
                    &&& #[trigger] clock_reading(since)
                    &&& #[trigger] old(self)@.steps_to(
                        BusCall::Offer { msg: stamped(msg, epoch_ns(since)), outcomes },
                        final(self)@,
                    )
                    &&& sent == accepted(outcomes).len()
                },
    {
        self.offer(msg).sent
    }
}

/// Adding the outcome of a new attempt adds it to the accepted or refused ones.
proof fn lemma_count(outcomes: Map<SubId, SendOutcome>, id: SubId, outcome: SendOutcome)
    requires
        outcomes.dom().finite(),
        !outcomes.contains_key(id),
    ensures
        accepted(outcomes.insert(id, outcome)).len() == accepted(outcomes).len() + if outcome is Sent {
            1int
        } else {
            0
        },
        refused(outcomes.insert(id, outcome)).len() == refused(outcomes).len() + if outcome is Full {
            1int
        } else {
            0
        },
{
    let after = outcomes.insert(id, outcome);
    if outcome is Sent {
        assert(accepted(after) =~= accepted(outcomes).insert(id));
    } else {
        assert(accepted(after) =~= accepted(outcomes));
    }
    if outcome is Full {
        assert(refused(after) =~= refused(outcomes).insert(id));
    } else {
        assert(refused(after) =~= refused(outcomes));
    }
}

/// A pattern with a trailing `*` matches exactly the topics that start with the
/// text before it; `*` alone matches every topic.
pub proof fn law_wildcard_matches_prefix(text: Seq<char>, topic: Seq<char>)
    ensures
        Rule::of_pattern(text.push('*')).admits(topic) <==> text.is_prefix_of(topic),
        text.len() == 0 ==> Rule::of_pattern(text.push('*')).admits(topic),
{
    assert(text.push('*').drop_last() =~= text);
    if text.len() == 0 {
        assert(text =~= topic.subrange(0, 0));
    }
}

/// A pattern without a trailing `*` matches exactly the topic that it spells.
pub proof fn law_exact_matches_itself(pattern: Seq<char>, topic: Seq<char>)
    requires
        pattern.len() == 0 || pattern.last() != '*',
    ensures
        Rule::of_pattern(pattern).admits(topic) <==> pattern == topic,
{
}

/// A new subscription is one more recipient of the topics that its rule admits,
/// and changes nothing for the others; ending it undoes it.
pub proof fn law_subscribe_adds_one(
    subs: Map<SubId, Sub>,
    id: SubId,
    sub: Sub,
    topic: Seq<char>,
)
    requires
        !subs.contains_key(id),
    ensures
        recipients(subs.insert(id, sub), topic) == (if sub.filter@.admits(topic) {
            recipients(subs, topic).insert(id)
        } else {
            recipients(subs, topic)
        }),
        subs.insert(id, sub).remove(id) == subs,
{
    let after = subs.insert(id, sub);
    if sub.filter@.admits(topic) {
        assert(recipients(after, topic) =~= recipients(subs, topic).insert(id));
    } else {
        assert(recipients(after, topic) =~= recipients(subs, topic));
    }
    assert(after.remove(id) =~= subs);
}

/// After `unsubscribe` the subscription receives nothing on any topic, and every
/// other subscription receives what it did.
pub proof fn law_unsubscribed_receives_nothing(
    subs: Map<SubId, Sub>,
    id: SubId,
    topic: Seq<char>,
)
    ensures
        !recipients(subs.remove(id), topic).contains(id),
        recipients(subs.remove(id), topic) == recipients(subs, topic).remove(id),
{
    assert(recipients(subs.remove(id), topic) =~= recipients(subs, topic).remove(id));
}

/// A message goes to no subscription whose rule does not admit its topic: that
/// queue is as it was.
pub proof fn law_topic_isolation(
    before: Map<SubId, Sub>,
    msg: Message,
    outcomes: Map<SubId, SendOutcome>,
    after: Map<SubId, Sub>,
    id: SubId,
)
    requires
        offered(before, msg, outcomes, after),
        before.contains_key(id),
        !before[id].filter@.admits(topic_text(msg.topic@)),
    ensures
        !outcomes.contains_key(id),
        attempts_on(after[id].tx) == attempts_on(before[id].tx),
        accepted_by(after[id].tx) == accepted_by(before[id].tx),
{
    assert(!recipients(before, topic_text(msg.topic@)).contains(id));
}

/// Every matching queue that accepts takes the message once, behind what it took
/// before, and it is the same message for all of them.
pub proof fn law_delivered_once(
    before: Map<SubId, Sub>,
    msg: Message,
    outcomes: Map<SubId, SendOutcome>,
    after: Map<SubId, Sub>,
    id: SubId,
)
    requires
        offered(before, msg, outcomes, after),
        before.contains_key(id),
    ensures
        accepted(outcomes).contains(id) ==> before[id].filter@.admits(topic_text(msg.topic@))
            && accepted_by(after[id].tx) == accepted_by(before[id].tx).push(msg),
        !accepted(outcomes).contains(id) ==> accepted_by(after[id].tx) == accepted_by(
            before[id].tx,
        ),
{
    lemma_sub_after(before[id], msg, outcome_at(outcomes, id), after[id]);
    if outcomes.contains_key(id) {
        assert(recipients(before, topic_text(msg.topic@)).contains(id));
    }
}

/// After an offer each matching subscription has exactly one attempt more, with
/// this message, and its outcome is the one that is counted: as sent where it was
/// accepted, as dropped where it met a full queue, and else not. No other
/// subscription has one.
pub proof fn law_one_attempt_each(
    before: Map<SubId, Sub>,
    msg: Message,
    outcomes: Map<SubId, SendOutcome>,
    after: Map<SubId, Sub>,
    id: SubId,
)
    requires
        offered(before, msg, outcomes, after),
        before.contains_key(id),
    ensures
        ({
            let made = attempts_on(after[id].tx);
            if recipients(before, topic_text(msg.topic@)).contains(id) {
                &&& made.len() == attempts_on(before[id].tx).len() + 1
                &&& made.drop_last() == attempts_on(before[id].tx)
                &&& made.last().0 == msg
                &&& accepted(outcomes).contains(id) <==> made.last().1 is Sent
                &&& refused(outcomes).contains(id) <==> made.last().1 is Full
            } else {
                &&& made == attempts_on(before[id].tx)
                &&& !accepted(outcomes).contains(id)
                &&& !refused(outcomes).contains(id)
            }
        }),
{
    let old_attempts = attempts_on(before[id].tx);
    if outcomes.contains_key(id) {
        assert(recipients(before, topic_text(msg.topic@)).contains(id));
        assert(old_attempts.push((msg, outcomes[id])).drop_last() =~= old_attempts);
    } else {
        assert(!recipients(before, topic_text(msg.topic@)).contains(id));
    }
}

/// A message made for a topic that fits its field reaches the subscriptions whose
/// rule admits that topic.
pub proof fn law_routed_by_its_topic(subs: Map<SubId, Sub>, topic: Seq<char>)
    requires
        encode_utf8(topic).len() <= TOPIC_BYTES,
        !topic.contains('\0'),
    ensures
        recipients(subs, topic_text(fixed_field(encode_utf8(topic), TOPIC_BYTES as nat)))
            == recipients(subs, topic),
{
    law_topic_round_trip(topic);
}

/// Every matching subscriber is accounted for: it accepted the message, or it is
/// counted as a drop, or its receiver is gone.
pub proof fn law_every_attempt_counted(
    before: Map<SubId, Sub>,
    msg: Message,
    outcomes: Map<SubId, SendOutcome>,
    after: Map<SubId, Sub>,
)
    requires
        before.dom().finite(),
        offered(before, msg, outcomes, after),
    ensures
        ({
            let gone = outcomes.dom().filter(|id: SubId| outcomes[id] is Disconnected);
            accepted(outcomes).len() + refused(outcomes).len() + gone.len() == recipients(
                before,
                topic_text(msg.topic@),
            ).len()
        }),
{
    let gone = outcomes.dom().filter(|id: SubId| outcomes[id] is Disconnected);
    let a = accepted(outcomes);
    let f = refused(outcomes);
    assert(outcomes.dom().finite());
    assert(a.disjoint(f));
    assert((a + f).disjoint(gone));
    assert(a + f + gone =~= outcomes.dom());
    vstd::set_lib::lemma_set_disjoint_lens(a, f);
    vstd::set_lib::lemma_set_disjoint_lens(a + f, gone);
}

/// Subscribers do not affect each other: what a queue takes depends on its own
/// outcome alone, whatever happens at the others, full queues included.
pub proof fn law_subscribers_independent(
    before: Map<SubId, Sub>,
    msg: Message,
    outcomes: Map<SubId, SendOutcome>,
    after: Map<SubId, Sub>,
    other_outcomes: Map<SubId, SendOutcome>,
    other_after: Map<SubId, Sub>,
    id: SubId,
)
    requires
        offered(before, msg, outcomes, after),
        offered(before, msg, other_outcomes, other_after),
        before.contains_key(id),
        outcome_at(outcomes, id) == outcome_at(other_outcomes, id),
    ensures
        accepted_by(after[id].tx) == accepted_by(other_after[id].tx),
        after[id].filter == other_after[id].filter,
{
}

/// A queue refuses a message for being full only after it took as many as it
/// holds; the message that it refuses is the one that was offered, and what it
/// took before stays.
pub proof fn law_refused_only_when_full(
    bus: BusState,
    msg: Message,
    outcomes: Map<SubId, SendOutcome>,
    after: Map<SubId, Sub>,
    id: SubId,
)
    requires
        bus.wf(),
        offered(bus.subs, msg, outcomes, after),
        refused(outcomes).contains(id),
    ensures
        outcomes[id] == SendOutcome::Full(msg),
        accepted_by(bus.subs[id].tx).len() >= bus.capacity,
        accepted_by(after[id].tx) == accepted_by(bus.subs[id].tx),
{
    assert(recipients(bus.subs, topic_text(msg.topic@)).contains(id));
    assert(bus.subs.contains_key(id));
    lemma_sub_after(bus.subs[id], msg, outcome_at(outcomes, id), after[id]);
}

/// That two buses are in equal states: the same ids, rules, attempts, capacity and
/// drop counter.
pub open spec fn alike(a: BusState, b: BusState) -> bool {
    &&& a.next_id == b.next_id
    &&& a.capacity == b.capacity
    &&& a.drops == b.drops
    &&& a.subs.dom() == b.subs.dom()
    &&& forall|id: SubId| #[trigger]
        a.subs.contains_key(id) ==> {
            &&& a.subs[id].filter@ == b.subs[id].filter@
            &&& attempts_on(a.subs[id].tx) == attempts_on(b.subs[id].tx)
        }
}

/// `publish` and `offer` agree. Let one bus be offered a message and another, in an
/// equal state, have it published, with the same timestamp, and let the matching
/// queues answer alike: the last attempt at each has the same outcome on both. Then
/// `publish` gives the sent count of `offer`, and the buses are in equal states
/// afterwards.
pub proof fn law_publish_agrees_with_offer(
    offering: BusState,
    publishing: BusState,
    msg: Message,
    outcomes: Map<SubId, SendOutcome>,
    other_outcomes: Map<SubId, SendOutcome>,
    offered_to: BusState,
    published_to: BusState,
)
    requires
        alike(offering, publishing),
        offering.steps_to(BusCall::Offer { msg, outcomes }, offered_to),
        publishing.steps_to(BusCall::Offer { msg, outcomes: other_outcomes }, published_to),
        forall|id: SubId| #[trigger]
            recipients(offering.subs, topic_text(msg.topic@)).contains(id) ==> attempts_on(
                offered_to.subs[id].tx,
            ).last().1 == attempts_on(published_to.subs[id].tx).last().1,
    ensures
        accepted(other_outcomes).len() == accepted(outcomes).len(),
        refused(other_outcomes).len() == refused(outcomes).len(),
        alike(offered_to, published_to),
{
    let topic = topic_text(msg.topic@);
    assert(recipients(offering.subs, topic) =~= recipients(publishing.subs, topic)) by {
        assert forall|id: SubId|
            recipients(offering.subs, topic).contains(id) == recipients(
                publishing.subs,
                topic,
            ).contains(id) by {
            assert(offering.subs.contains_key(id) == publishing.subs.contains_key(id));
        }
    }
    assert forall|id: SubId| #[trigger] outcomes.contains_key(id) implies outcomes[id]
        == other_outcomes[id] by {
        assert(recipients(offering.subs, topic).contains(id));
        assert(offering.subs.contains_key(id) && publishing.subs.contains_key(id));
    }
    assert(outcomes =~= other_outcomes);
    assert forall|id: SubId| #[trigger] offered_to.subs.contains_key(id) implies {
        &&& offered_to.subs[id].filter@ == published_to.subs[id].filter@
        &&& attempts_on(offered_to.subs[id].tx) == attempts_on(published_to.subs[id].tx)
    } by {
        assert(offering.subs.contains_key(id) && publishing.subs.contains_key(id));
    }
}

/// That a bus goes through `states` by `calls`.
pub open spec fn history(states: Seq<BusState>, calls: Seq<BusCall>) -> bool {
    &&& states.len() == calls.len() + 1
    &&& forall|i: int|
        #![trigger calls[i]]
        0 <= i < calls.len() ==> states[i].steps_to(calls[i], states[i + 1])
}

/// How many of `calls` subscribe.
pub open spec fn subscriptions(calls: Seq<BusCall>) -> nat
    decreases calls.len(),
{
    if calls.len() == 0 {
        0
    } else {
        subscriptions(calls.drop_last()) + if calls.last() is Subscribe {
            1nat
        } else {
            0
        }
    }
}

/// How many drops the offers among `calls` reported.
pub open spec fn drops_in(calls: Seq<BusCall>) -> nat
    decreases calls.len(),
{
    if calls.len() == 0 {
        0
    } else {
        drops_in(calls.drop_last()) + match calls.last() {
            BusCall::Offer { outcomes, .. } => refused(outcomes).len(),
            _ => 0,
        }
    }
}

/// The messages that `calls` got into the queue of subscription `id`, in order.
pub open spec fn delivered(calls: Seq<BusCall>, id: SubId) -> Seq<Message>
    decreases calls.len(),
{
    if calls.len() == 0 {
        Seq::empty()
    } else {
        let before = delivered(calls.drop_last(), id);
        match calls.last() {
            BusCall::Offer { msg, outcomes } => if accepted(outcomes).contains(id) {
                before.push(msg)
            } else {
                before
            },
            _ => before,
        }
    }
}

/// A history without its last call is one.
pub proof fn lemma_earlier(states: Seq<BusState>, calls: Seq<BusCall>)
    requires
        history(states, calls),
        calls.len() > 0,
    ensures
        history(states.drop_last(), calls.drop_last()),
        states.drop_last().last() == states[calls.len() - 1],
        states[calls.len() - 1].steps_to(calls.last(), states.last()),
{
    assert forall|i: int|
        #![trigger calls.drop_last()[i]]
        0 <= i < calls.drop_last().len() implies states.drop_last()[i].steps_to(
        calls.drop_last()[i],
        states.drop_last()[i + 1],
    ) by {
        assert(calls[i] == calls.drop_last()[i]);
    }
    assert(calls[calls.len() - 1] == calls.last());
}

/// The part of a history from state `i` to state `j` is one.
pub proof fn lemma_part(states: Seq<BusState>, calls: Seq<BusCall>, i: int, j: int)
    requires
        history(states, calls),
        0 <= i <= j <= calls.len(),
    ensures
        history(states.subrange(i, j + 1), calls.subrange(i, j)),
{
    let part = calls.subrange(i, j);
    assert forall|k: int|
        #![trigger part[k]]
        0 <= k < part.len() implies states.subrange(i, j + 1)[k].steps_to(
        part[k],
        states.subrange(i, j + 1)[k + 1],
    ) by {
        assert(part[k] == calls[i + k]);
    }
}

/// Ids count up: the next id is the number of subscriptions made so far, so that
/// with `k` earlier ones a subscription gets id `k`, whatever else was called.
pub proof fn law_ids_count_up(states: Seq<BusState>, calls: Seq<BusCall>)
    requires
        history(states, calls),
    ensures
        states.last().next_id == states[0].next_id + subscriptions(calls),
    decreases calls.len(),
{
    if calls.len() > 0 {
        lemma_earlier(states, calls);
        law_ids_count_up(states.drop_last(), calls.drop_last());
    }
}

/// No id is given twice, not even after its subscription has ended.
pub proof fn law_ids_distinct(states: Seq<BusState>, calls: Seq<BusCall>, i: int, j: int)
    requires
        history(states, calls),
        0 <= i < j < calls.len(),
        calls[i] is Subscribe,
        calls[j] is Subscribe,
    ensures
        states[i].next_id < states[j].next_id,
{
    lemma_part(states, calls, i + 1, j);
    law_ids_count_up(states.subrange(i + 1, j + 1), calls.subrange(i + 1, j));
}

/// Every call keeps the state well formed.
pub proof fn law_well_formed_throughout(states: Seq<BusState>, calls: Seq<BusCall>)
    requires
        history(states, calls),
        states[0].wf(),
    ensures
        states.last().wf(),
    decreases calls.len(),
{
    if calls.len() > 0 {
        lemma_earlier(states, calls);
        law_well_formed_throughout(states.drop_last(), calls.drop_last());
        let before = states[calls.len() - 1];
        let after = states.last();
        match calls.last() {
            BusCall::Offer { msg, outcomes } => {
                assert forall|id: SubId| #[trigger] after.subs.contains_key(id) implies {
                    &&& id < after.next_id
                    &&& sender_capacity(after.subs[id].tx) == Some(after.capacity)
                } by {
                    assert(before.subs.contains_key(id));
                }
            },
            _ => {},
        }
    }
}

/// A subscription that is not there does not come back.
proof fn lemma_stays_out(states: Seq<BusState>, calls: Seq<BusCall>, id: SubId)
    requires
        history(states, calls),
        id < states[0].next_id,
        !states[0].subs.contains_key(id),
    ensures
        !states.last().subs.contains_key(id),
    decreases calls.len(),
{
    if calls.len() > 0 {
        lemma_earlier(states, calls);
        lemma_stays_out(states.drop_last(), calls.drop_last(), id);
        law_ids_count_up(states.drop_last(), calls.drop_last());
    }
}

/// An ended subscription stays ended: after any later calls it is not there, and
/// no later offer attempts, counts or drops anything for it.
pub proof fn law_ended_subscription_stays_out(
    states: Seq<BusState>,
    calls: Seq<BusCall>,
    i: int,
    j: int,
    id: SubId,
)
    requires
        history(states, calls),
        0 <= i < j < states.len(),
        calls[i] == (BusCall::Unsubscribe { id }),
        id < states[i].next_id,
    ensures
        !states[j].subs.contains_key(id),
        j < calls.len() ==> (calls[j] matches BusCall::Offer { outcomes, .. } ==> {
            &&& !outcomes.contains_key(id)
            &&& !accepted(outcomes).contains(id)
            &&& !refused(outcomes).contains(id)
        }),
{
    lemma_part(states, calls, i + 1, j);
    lemma_stays_out(states.subrange(i + 1, j + 1), calls.subrange(i + 1, j), id);
    if j < calls.len() {
        if let BusCall::Offer { msg, outcomes } = calls[j] {
            assert(!recipients(states[j].subs, topic_text(msg.topic@)).contains(id));
        }
    }
}

/// Ending a subscription that is not there changes nothing.
pub proof fn law_unknown_id_ignored(before: BusState, id: SubId, after: BusState)
    requires
        before.steps_to(BusCall::Unsubscribe { id }, after),
        !before.subs.contains_key(id),
    ensures
        after == before,
{
    assert(after.subs =~= before.subs);
}

/// The drop counter is the sum of what all offers reported, up to its width;
/// nothing else changes it.
pub proof fn law_drop_counter_adds_up(states: Seq<BusState>, calls: Seq<BusCall>)
    requires
        history(states, calls),
    ensures
        states.last().drops == drops_after(states[0].drops, drops_in(calls)),
    decreases calls.len(),
{
    if calls.len() > 0 {
        lemma_earlier(states, calls);
        law_drop_counter_adds_up(states.drop_last(), calls.drop_last());
    }
}

/// A queue holds what was delivered to it, in the order of the offers, each
/// message once: over any calls that do not end the subscription it takes, behind
/// what it had taken, the messages that it accepted and nothing else. A new
/// subscription starts with an empty queue.
#[verifier::spinoff_prover]
#[verifier::rlimit(40)]
pub proof fn law_queue_in_offer_order(states: Seq<BusState>, calls: Seq<BusCall>, id: SubId)
    requires
        history(states, calls),
        states[0].wf(),
        states[0].subs.contains_key(id),
        forall|i: int|
            0 <= i < calls.len() ==> #[trigger] calls[i] != (BusCall::Unsubscribe { id }),
    ensures
        states.last().subs.contains_key(id),
        accepted_by(states.last().subs[id].tx) == accepted_by(states[0].subs[id].tx) + delivered(
            calls,
            id,
        ),
        states.last().subs[id].filter == states[0].subs[id].filter,
    decreases calls.len(),
{
    let first = accepted_by(states[0].subs[id].tx);
    if calls.len() == 0 {
        assert(first + delivered(calls, id) =~= first);
    } else {
        lemma_earlier(states, calls);
        assert forall|i: int| 0 <= i < calls.drop_last().len() implies #[trigger] calls.drop_last()[i]
            != (BusCall::Unsubscribe { id }) by {
            assert(calls[i] == calls.drop_last()[i]);
        }
        law_queue_in_offer_order(states.drop_last(), calls.drop_last(), id);
        law_ids_count_up(states.drop_last(), calls.drop_last());
        assert(calls[calls.len() - 1] == calls.last());
        if let BusCall::Offer { msg, outcomes } = calls.last() {
            lemma_sub_after(
                states[calls.len() - 1].subs[id],
                msg,
                outcome_at(outcomes, id),
                states.last().subs[id],
            );
        }
        assert(accepted_by(states.last().subs[id].tx) =~= first + delivered(calls, id));
    }
}

} // verus!
