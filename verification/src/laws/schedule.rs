//! Laws of the open-loop measurement.

use crate::hist::{bucket_of, hist_bounds, hist_counts};
use crate::laws::hist::lemma_count_is_filter;
use crate::message::Message;
use crate::schedule::{
    bench_message, intended_ns, interval_ns, latency_ns, on_empty, EmptyStep, Generator, Recorder,
    ScheduledSend,
};
use crate::spsc::WaitStrategy;
use vstd::bytes::{lemma_auto_spec_u64_to_from_le_bytes, spec_u64_from_le_bytes};
use vstd::prelude::*;
use vstd::utf8::encode_utf8;

verus! {

/// The interval is the longest with which the rate is kept up over a second.
pub proof fn law_interval(rate_hz: u64, ns: u64)
    requires
        rate_hz > 0,
        call_ensures(interval_ns, (rate_hz,), ns),
    ensures
        ns * rate_hz <= 1_000_000_000 < (ns + 1) * rate_hz,
{
    let r = rate_hz as int;
    vstd::arithmetic::div_mod::lemma_fundamental_div_mod(1_000_000_000, r);
    assert(ns * r <= 1_000_000_000 < (ns + 1) * r) by (nonlinear_arith)
        requires
            1_000_000_000 == r * ns + 1_000_000_000int % r,
            0 <= 1_000_000_000int % r < r,
    ;
}

/// The latency is the time between the intended send and the receipt, and at least
/// one nanosecond: together with the intended time it makes the time of receipt.
pub proof fn law_latency(now_ns: u64, intended: u64, ns: u64)
    requires
        call_ensures(latency_ns, (now_ns, intended), ns),
    ensures
        now_ns > intended ==> ns + intended == now_ns,
        now_ns <= intended ==> ns == 1,
{
}

/// A message that is received `d` later has a latency that is greater by `d`.
pub proof fn law_latency_grows(now_ns: u64, later_ns: u64, intended: u64, a: u64, b: u64)
    requires
        call_ensures(latency_ns, (now_ns, intended), a),
        call_ensures(latency_ns, (later_ns, intended), b),
        intended < now_ns <= later_ns,
    ensures
        b - a == later_ns - now_ns,
{
}

/// The intended time stands in the first eight bytes of the payload, lowest byte
/// first.
pub proof fn law_intended_time(msg: &Message, ns: u64)
    requires
        call_ensures(intended_ns, (msg,), ns),
    ensures
        ns == spec_u64_from_le_bytes(msg.payload@.take(8)),
{
    assert(msg.payload@.take(8) =~= msg.payload@.subrange(0, 8));
}

/// What the sender writes the receiver reads, whatever the time; the message is on
/// the topic `bench`, unstamped, and empty otherwise.
pub proof fn law_time_survives(t: u64, m: &Message, back: u64, k: int)
    requires
        call_ensures(bench_message, (t,), *m),
        call_ensures(intended_ns, (m,), back),
    ensures
        back == t,
        m.timestamp_ns == 0,
        0 <= k < 32 ==> m.topic@[k] == (if k < encode_utf8("bench"@).len() {
            encode_utf8("bench"@)[k]
        } else {
            0
        }),
        8 <= k < 24 ==> m.payload@[k] == 0,
{
    lemma_auto_spec_u64_to_from_le_bytes();
    assert(m.payload@.subrange(0, 8) =~= vstd::bytes::spec_u64_to_le_bytes(t));
}

/// A new schedule starts at its first send.
pub proof fn law_new_generator(start_ns: u64, interval: u64, total: usize, g: Generator)
    requires
        total > 0 ==> start_ns + (total - 1) * interval <= u64::MAX,
        call_ensures(Generator::new, (start_ns, interval, total), g),
    ensures
        g.start_ns == start_ns,
        g.interval_ns == interval,
        g.total == total,
        g.next == 0,
{
}

/// A schedule is in order when its last send is due before the clock ends and no
/// more sends were taken than there are.
pub proof fn law_schedule_in_order(g: Generator)
    ensures
        g.wf() <==> g.next <= g.total && (g.total == 0 || g.start_ns + (g.total - 1) * g.interval_ns
            <= u64::MAX),
{
}

/// Each send is due an interval after the one before it, counted from the start
/// and not from when the last was taken; its message carries that time. After
/// `total` sends there are no more.
pub proof fn law_next_send(
    g: &mut Generator,
    r: Option<ScheduledSend>,
    carried: u64,
    made: Message,
)
    requires
        old(g).wf(),
        call_ensures(Generator::next_send, (g,), r),
        r matches Some(s) ==> call_ensures(intended_ns, (&s.msg,), carried),
        r matches Some(s) ==> call_ensures(bench_message, (s.intended_ns,), made),
    ensures
        r is Some <==> old(g).next < old(g).total,
        r matches Some(s) ==> {
            &&& s.intended_ns == old(g).start_ns + old(g).next * old(g).interval_ns
            &&& carried == s.intended_ns
            &&& s.msg.timestamp_ns == made.timestamp_ns
            &&& s.msg.topic@ == made.topic@
            &&& s.msg.payload@ == made.payload@
            &&& final(g).next == old(g).next + 1
        },
        r is None ==> final(g).next == old(g).next,
        final(g).start_ns == old(g).start_ns,
        final(g).interval_ns == old(g).interval_ns,
        final(g).total == old(g).total,
{
    if let Some(s) = r {
        crate::schedule::law_intended_time_carried(s.msg, s.intended_ns);
    }
}

/// The receiver stops on an empty queue exactly when it knew before that the sender
/// was done, and else waits as asked.
pub proof fn law_on_empty(strategy: WaitStrategy, done: EmptyStep, not_done: EmptyStep)
    requires
        call_ensures(on_empty, (true, strategy), done),
        call_ensures(on_empty, (false, strategy), not_done),
    ensures
        done is Stop,
        not_done matches EmptyStep::Wait(s) && s == strategy,
{
}

/// A new recorder has received and counted nothing.
pub proof fn law_new_recorder(warmup: usize, interval: u64, r: Recorder, bucket: u64)
    requires
        call_ensures(Recorder::new, (warmup, interval), r),
    ensures
        r.received == 0,
        r.warmup == warmup,
        r.interval_ns == interval,
        hist_counts(r.hist)[bucket] == 0,
        hist_bounds(r.hist) == (1u64, 60_000_000_000u64, 3u8),
{
}

/// A message of the warm-up is not counted. Any other is, with its latency and,
/// one interval apart, what would have been measured in the intervals that it
/// overran; only one that took 2^36 ns or more has no bucket.
pub proof fn law_on_message(
    recorder: &mut Recorder,
    msg: &Message,
    now_ns: u64,
    intended: u64,
    lat: u64,
    n: nat,
    bucket: u64,
)
    requires
        old(recorder).hist.wf(),
        old(recorder).received < usize::MAX,
        call_ensures(Recorder::on_message, (recorder, msg, now_ns), ()),
        call_ensures(intended_ns, (msg,), intended),
        call_ensures(latency_ns, (now_ns, intended), lat),
        ({
            let d = old(recorder).interval_ns;
            if d == 0 || lat < d {
                n == 1
            } else {
                n * d <= lat < (n + 1) * d
            }
        }),
    ensures
        ({
            let before = hist_counts(old(recorder).hist)[bucket];
            let after = hist_counts(final(recorder).hist)[bucket];
            let d = old(recorder).interval_ns;
            let values = Seq::new(n, |k: int| (lat - k * d) as u64);
            let hits = values.filter(|v: u64| bucket_of(v) == bucket).len();
            if old(recorder).received < old(recorder).warmup || lat >= 0x10_0000_0000 {
                after == before
            } else if before + hits <= u64::MAX {
                after == before + hits
            } else {
                after == u64::MAX
            }
        }),
        final(recorder).received == old(recorder).received + 1,
        final(recorder).warmup == old(recorder).warmup,
        final(recorder).interval_ns == old(recorder).interval_ns,
        hist_bounds(final(recorder).hist) == hist_bounds(old(recorder).hist),
{
    crate::laws::hist::lemma_samples(lat, old(recorder).interval_ns, n);
    let d = old(recorder).interval_ns;
    let values = Seq::new(n, |k: int| (lat - k * d) as u64);
    lemma_count_is_filter(values, bucket);
}

} // verus!
