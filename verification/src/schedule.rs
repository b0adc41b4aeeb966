//! The open-loop latency measurement: when each message is to be sent, what it
//! carries, and what the receiving side makes of it.
//!
//! Messages are sent at fixed times, whether or not the receiver keeps up, and
//! each carries the time at which it was to be sent. A latency counts from that
//! time, so waiting in a queue is part of it.

use crate::hist::{
    corrected, count_in, hist_counts, lemma_count_in_concat, new_hist, no_counts, records,
    saturated, trackable, LatencyHistogram,
};
use crate::message::{fixed_field, Message, TOPIC_BYTES};
use crate::spsc::WaitStrategy;
use vstd::bytes::{
    lemma_auto_spec_u64_to_from_le_bytes, spec_u64_from_le_bytes, spec_u64_to_le_bytes,
    u64_from_le_bytes, u64_to_le_bytes,
};
use vstd::prelude::*;
use vstd::slice::slice_subrange;
use vstd::utf8::encode_utf8;

verus! {

/// Topic of the measured messages.
pub open spec fn bench_topic() -> Seq<char> {
    "bench"@
}

/// The message that is to be sent at `intended_ns`.
pub open spec fn is_bench_message(m: Message, intended_ns: u64) -> bool {
    &&& m.timestamp_ns == 0
    &&& m.topic@ == fixed_field(encode_utf8(bench_topic()), TOPIC_BYTES as nat)
    &&& m.payload@ == spec_u64_to_le_bytes(intended_ns) + Seq::new(16, |i: int| 0u8)
}

/// The intended send time that a message carries.
pub open spec fn carried_ns(m: Message) -> u64 {
    spec_u64_from_le_bytes(m.payload@.subrange(0, 8))
}

/// The latency of a message received at `now_ns`, one nanosecond at least.
pub open spec fn latency_of(now_ns: u64, intended_ns: u64) -> int {
    if now_ns <= intended_ns {
        1
    } else {
        now_ns - intended_ns
    }
}

/// Nanoseconds between sends at a rate of `rate_hz` messages per second.
pub fn interval_ns(rate_hz: u64) -> (ns: u64)
    requires
        rate_hz > 0,
    ensures
        ns == 1_000_000_000int / rate_hz as int,
{
    1_000_000_000 / rate_hz
}

/// The message to send at `intended_ns`: empty but for that time, in the first
/// eight bytes of the payload.
pub fn bench_message(intended_ns: u64) -> (m: Message)
    ensures
        is_bench_message(m, intended_ns),
{
    let mut m = Message::new("bench", &[]);
    let bytes: Vec<u8> = u64_to_le_bytes(intended_ns);
    let mut i: usize = 0;
    while i < 8
        invariant
            i <= 8,
            bytes@.len() == 8,
            m.timestamp_ns == 0,
            m.topic@ == fixed_field(encode_utf8(bench_topic()), TOPIC_BYTES as nat),
            forall|j: int| 0 <= j < i ==> m.payload@[j] == bytes@[j],
            forall|j: int| 8 <= j < 24 ==> m.payload@[j] == 0,
        decreases 8 - i,
    {
        m.payload[i] = bytes[i];
        i += 1;
    }
    assert(m.payload@ =~= spec_u64_to_le_bytes(intended_ns) + Seq::new(16, |i: int| 0u8));
    m
}

/// The intended send time that `msg` carries.
pub fn intended_ns(msg: &Message) -> (ns: u64)
    ensures
        ns == carried_ns(*msg),
{
    u64_from_le_bytes(slice_subrange(msg.payload.as_slice(), 0, 8))
}

/// The latency of a message received at `now_ns`.
pub fn latency_ns(now_ns: u64, intended_ns: u64) -> (ns: u64)
    ensures
        ns == latency_of(now_ns, intended_ns),
{
    let waited: u64 = now_ns.saturating_sub(intended_ns);
    if waited < 1 {
        1
    } else {
        waited
    }
}

/// A message and the time to send it at.
pub struct ScheduledSend {
    pub intended_ns: u64,
    pub msg: Message,
}

/// The sending side of a measurement: `total` messages, `interval_ns` apart.
pub struct Generator {
    pub start_ns: u64,
    pub interval_ns: u64,
    pub total: usize,
    pub next: usize,
}

impl Generator {
    /// The time of the `i`-th send.
    pub open spec fn time_of(self, i: int) -> int {
        self.start_ns + i * self.interval_ns
    }

    /// That no send time is beyond the end of the clock.
    pub open spec fn wf(self) -> bool {
        &&& self.next <= self.total
        &&& self.total > 0 ==> self.time_of(self.total - 1) <= u64::MAX
    }

    /// A measurement that begins at `start_ns`.
    pub fn new(start_ns: u64, interval_ns: u64, total: usize) -> (g: Self)
        requires
            total > 0 ==> start_ns + (total - 1) * interval_ns <= u64::MAX,
        ensures
            g.wf(),
            g == (Generator { start_ns, interval_ns, total, next: 0 }),
    {
        Generator { start_ns, interval_ns, total, next: 0 }
    }

    /// The next message with its time, whatever became of those before it;
    /// `None` after the last.
    pub fn next_send(&mut self) -> (r: Option<ScheduledSend>)
        requires
            old(self).wf(),
        ensures
            final(self).wf(),
            r is Some <==> old(self).next < old(self).total,
            r matches Some(s) ==> {
                &&& s.intended_ns == old(self).time_of(old(self).next as int)
                &&& is_bench_message(s.msg, s.intended_ns)
                &&& *final(self) == (Generator { next: (old(self).next + 1) as usize, ..*old(
                    self,
                ) })
            },
            r is None ==> *final(self) == *old(self),
    {
        if self.next >= self.total {
            return None;
        }
        proof {
            let i = self.next as int;
            let d = self.interval_ns as int;
            let last = self.total - 1;
            assert(0 <= i * d <= last * d) by (nonlinear_arith)
                requires
                    0 <= i <= last,
                    d >= 0,
            ;
        }
        let at: u64 = self.start_ns + self.next as u64 * self.interval_ns;
        self.next = self.next + 1;
        Some(ScheduledSend { intended_ns: at, msg: bench_message(at) })
    }
}

/// What the receiving side does when its queue is empty.
#[derive(Debug, Clone, Copy, PartialEq, Eq, Structural)]
pub enum EmptyStep {
    /// Everything sent was received: the measurement is over.
    Stop,
    /// Wait this way and look again.
    Wait(WaitStrategy),
}

/// What to do on an empty queue, given whether the sender was known to be done
/// before the receiver looked at the queue. Knowing it only afterwards is not
/// enough: more may have been sent since the look. That the receiver has all when
/// it stops is [`law_stopped_receiver_has_all`](crate::lockfree::law_stopped_receiver_has_all).
pub fn on_empty(done_before_look: bool, strategy: WaitStrategy) -> (step: EmptyStep)
    ensures
        step == (if done_before_look {
            EmptyStep::Stop
        } else {
            EmptyStep::Wait(strategy)
        }),
{
    if done_before_look {
        EmptyStep::Stop
    } else {
        EmptyStep::Wait(strategy)
    }
}

/// The latency of a message together with the time of its receipt.
pub open spec fn event_latency(event: (Message, u64)) -> u64 {
    latency_of(event.1, carried_ns(event.0)) as u64
}

/// What the receipt of a message does to the counts, given whether it is to be
/// measured.
pub open spec fn takes_in(
    before: Map<u64, u64>,
    event: (Message, u64),
    measured: bool,
    interval_ns: u64,
    after: Map<u64, u64>,
) -> bool {
    if measured {
        records(before, event_latency(event), interval_ns, after)
    } else {
        after == before
    }
}

/// The values that the messages of a measurement stand for.
pub open spec fn samples(events: Seq<(Message, u64)>, warmup: nat, interval_ns: u64) -> Seq<u64>
    decreases events.len(),
{
    if events.len() <= warmup {
        Seq::empty()
    } else {
        let before = samples(events.drop_last(), warmup, interval_ns);
        let latency = event_latency(events.last());
        if trackable(latency) {
            before + corrected(latency, interval_ns)
        } else {
            before
        }
    }
}

/// The receiving side of a measurement: records the latency of every message
/// after the first `warmup`.
pub struct Recorder {
    pub hist: LatencyHistogram,
    pub received: usize,
    pub warmup: usize,
    pub interval_ns: u64,
}

impl Recorder {
    /// A recorder that has received nothing.
    pub fn new(warmup: usize, interval_ns: u64) -> (r: Self)
        ensures
            r.hist.wf(),
            no_counts(hist_counts(r.hist)),
            r.received == 0,
            r.warmup == warmup,
            r.interval_ns == interval_ns,
    {
        Recorder { hist: new_hist(), received: 0, warmup, interval_ns }
    }

    /// Takes in a message received at `now_ns`.
    pub fn on_message(&mut self, msg: &Message, now_ns: u64)
        requires
            old(self).hist.wf(),
            old(self).received < usize::MAX,
        ensures
            final(self).hist.wf(),
            final(self).received == old(self).received + 1,
            final(self).warmup == old(self).warmup,
            final(self).interval_ns == old(self).interval_ns,
            takes_in(
                hist_counts(old(self).hist),
                (*msg, now_ns),
                old(self).received >= old(self).warmup,
                old(self).interval_ns,
                hist_counts(final(self).hist),
            ),
    {
        let latency: u64 = latency_ns(now_ns, intended_ns(msg));
        if self.received >= self.warmup {
            self.hist.record(latency, self.interval_ns);
        }
        self.received = self.received + 1;
    }
}

/// The receiver reads back the time that the sender wrote.
pub proof fn law_intended_time_carried(m: Message, intended_ns: u64)
    requires
        is_bench_message(m, intended_ns),
    ensures
        carried_ns(m) == intended_ns,
{
    lemma_auto_spec_u64_to_from_le_bytes();
    assert(m.payload@.subrange(0, 8) =~= spec_u64_to_le_bytes(intended_ns));
}

/// The warm-up is left out and everything after it counts, each latency with what
/// corrects it. `counts` are those before each of the messages and after the last.
pub proof fn law_every_measured_message_counts(
    events: Seq<(Message, u64)>,
    warmup: nat,
    interval_ns: u64,
    counts: Seq<Map<u64, u64>>,
    bucket: u64,
)
    requires
        counts.len() == events.len() + 1,
        no_counts(counts[0]),
        forall|i: int|
            0 <= i < events.len() ==> takes_in(
                #[trigger] counts[i],
                events[i],
                i >= warmup,
                interval_ns,
                counts[i + 1],
            ),
    ensures
        counts.last()[bucket] == saturated(count_in(samples(events, warmup, interval_ns), bucket)),
    decreases events.len(),
{
    if events.len() == 0 {
        assert(counts[0][bucket] == 0);
    } else {
        let n = events.len() - 1;
        let earlier = events.drop_last();
        let before = counts.drop_last();
        assert forall|i: int| 0 <= i < earlier.len() implies takes_in(
            #[trigger] before[i],
            earlier[i],
            i >= warmup,
            interval_ns,
            before[i + 1],
        ) by {
            assert(takes_in(counts[i], events[i], i >= warmup, interval_ns, counts[i + 1]));
        }
        law_every_measured_message_counts(earlier, warmup, interval_ns, before, bucket);
        assert(takes_in(counts[n], events[n], n >= warmup, interval_ns, counts[n + 1]));
        assert(before.last() == counts[n]);
        let latency = event_latency(events.last());
        lemma_count_in_concat(
            samples(earlier, warmup, interval_ns),
            corrected(latency, interval_ns),
            bucket,
        );
        if n >= warmup && trackable(latency) {
            assert(counts[n + 1][bucket] == saturated(
                (counts[n][bucket] + count_in(corrected(latency, interval_ns), bucket)) as nat,
            ));
        }
    }
}

/// Every measured message makes a sample at least, and no sample is zero, where no
/// message takes longer than the histogram goes.
pub proof fn law_samples_cover_messages(
    events: Seq<(Message, u64)>,
    warmup: nat,
    interval_ns: u64,
)
    requires
        forall|i: int| 0 <= i < events.len() ==> trackable(event_latency(#[trigger] events[i])),
    ensures
        samples(events, warmup, interval_ns).len() >= events.len() - warmup,
        forall|k: int|
            0 <= k < samples(events, warmup, interval_ns).len() ==> #[trigger] samples(
                events,
                warmup,
                interval_ns,
            )[k] >= 1,
    decreases events.len(),
{
    if events.len() > warmup {
        let earlier = events.drop_last();
        assert forall|i: int| 0 <= i < earlier.len() implies trackable(
            event_latency(#[trigger] earlier[i]),
        ) by {
            assert(earlier[i] == events[i]);
        }
        law_samples_cover_messages(earlier, warmup, interval_ns);
        assert(events[events.len() - 1] == events.last());
        lemma_corrected_positive(event_latency(events.last()), interval_ns);
    }
}

/// A correction has a sample at least and makes no zeros.
proof fn lemma_corrected_positive(value: u64, interval: u64)
    requires
        value >= 1,
    ensures
        corrected(value, interval).len() >= 1,
        forall|k: int|
            0 <= k < corrected(value, interval).len() ==> #[trigger] corrected(value, interval)[k]
                >= 1,
    decreases value,
{
    if interval > 0 && value >= 2 * interval {
        let rest: u64 = (value - interval) as u64;
        lemma_corrected_positive(rest, interval);
        assert forall|k: int| 0 <= k < corrected(value, interval).len() implies #[trigger] corrected(
            value,
            interval,
        )[k] >= 1 by {
            if k > 0 {
                assert(corrected(value, interval)[k] == corrected(rest, interval)[k - 1]);
            }
        }
    }
}

/// The sends are open-loop: two sends are as many intervals apart as there are
/// sends between them, no matter when they were taken or received.
pub proof fn law_constant_rate(g: Generator, i: int, j: int)
    requires
        0 <= i <= j,
    ensures
        g.time_of(j) - g.time_of(i) == (j - i) * g.interval_ns,
{
    assert((j - i) * g.interval_ns == j * g.interval_ns - i * g.interval_ns) by (nonlinear_arith);
}

/// The interval is the longest that keeps up the rate.
pub proof fn law_interval_keeps_rate(rate_hz: u64)
    requires
        rate_hz > 0,
    ensures
        ({
            let ns = 1_000_000_000int / rate_hz as int;
            ns * rate_hz <= 1_000_000_000 < (ns + 1) * rate_hz
        }),
{
    let r = rate_hz as int;
    let ns = 1_000_000_000int / r;
    vstd::arithmetic::div_mod::lemma_fundamental_div_mod(1_000_000_000, r);
    assert(ns * r <= 1_000_000_000 < (ns + 1) * r) by (nonlinear_arith)
        requires
            1_000_000_000 == r * ns + 1_000_000_000int % r,
            0 <= 1_000_000_000int % r < r,
    ;
}

} // verus!
