use cadence::base64::base64_encode;
use cadence::hist::{hdr_b64, new_hist, LatencyHistogram, HIGHEST_NS};
use cadence::rate::{wait_label, RateRun};
use cadence::schedule::{
    bench_message, intended_ns, interval_ns, latency_ns, on_empty, EmptyStep, Generator, Recorder,
};
use cadence::spsc::WaitStrategy;
use cadence::stats::{iqr, median, passes_sub_us, sorted};
use hdrhistogram::serialization::Deserializer;
use hdrhistogram::Histogram;

/// What the serialized histogram holds.
fn read(h: &LatencyHistogram) -> Histogram<u64> {
    Deserializer::new().deserialize(&mut h.serialized().unwrap().as_slice()).unwrap()
}

#[test]
fn main_base64_encode_known() {
    assert_eq!(base64_encode(b"Man"), "TWFu");
    assert_eq!(base64_encode(b"Ma"), "TWE=");
    assert_eq!(base64_encode(b"M"), "TQ==");
}

#[test]
fn tail_bench_base64_encode_known() {
    assert_eq!(base64_encode(b"Man"), "TWFu");
    assert_eq!(base64_encode(b"Ma"), "TWE=");
    assert_eq!(base64_encode(b"M"), "TQ==");
}

#[test]
fn base64_encode_edges() {
    assert_eq!(base64_encode(b""), "");
    assert_eq!(base64_encode(&[0xff, 0xff, 0xff]), "////");
    assert_eq!(base64_encode(&[0xfb, 0xf0]), "+/A=");
    assert_eq!(base64_encode(b"hello world"), "aGVsbG8gd29ybGQ=");
}

#[test]
fn median_and_iqr_basic() {
    let mut v = vec![10u64, 20, 30, 40, 50, 60, 70, 80];
    v.sort_unstable();
    assert_eq!(median(&v), 45);
    // q1 = v[2]=30, q3 = v[6]=70 → 40
    assert_eq!(iqr(&v), 40);
}

#[test]
fn median_and_iqr_edges() {
    assert_eq!(median(&[]), 0);
    assert_eq!(median(&[7]), 7);
    assert_eq!(median(&[1, 2]), 1);
    assert_eq!(median(&[1, 5, 9]), 5);
    assert_eq!(iqr(&[1, 2, 900]), 0);
    assert_eq!(iqr(&[1, 2, 3, 4]), 2);
    assert_eq!(iqr(&[4, 3, 2, 1]), 0);
}

#[test]
fn sorted_keeps_every_value() {
    assert_eq!(sorted(vec![3, 1, 2, 1]), vec![1, 1, 2, 3]);
}

#[test]
fn sub_microsecond_verdict() {
    assert!(passes_sub_us(999, 249));
    assert!(passes_sub_us(800, 199));
    // The spread has to stay below a quarter of the median.
    assert!(!passes_sub_us(800, 200));
    assert!(!passes_sub_us(1_000, 0));
    // No latency at all is no measurement.
    assert!(!passes_sub_us(0, 0));
    assert!(!passes_sub_us(0, 1));
    assert!(passes_sub_us(1, 0));
    assert!(!passes_sub_us(1, u64::MAX));
}

#[test]
fn histogram_records_and_reports() {
    let mut h = new_hist();
    for v in [100u64, 200, 300, 1000, 5000] {
        h.record(v, 50_000);
    }
    assert!(read(&h).value_at_quantile(0.50) >= 100);
    assert!(read(&h).value_at_quantile(0.99) >= 1000);
    assert!(read(&h).max() >= 5000);
}

#[test]
fn overrun_is_backfilled() {
    let mut h = new_hist();
    h.record(1_000, 300);
    // 1000, 700 and 400.
    assert_eq!(read(&h).len(), 3);
    assert_eq!(read(&h).count_at(1_000), 1);
    assert_eq!(read(&h).count_at(700), 1);
    assert_eq!(read(&h).count_at(400), 1);
    h.record(600, 300);
    assert_eq!(read(&h).len(), 5);
    assert_eq!(read(&h).count_at(300), 1);
    h.record(599, 300);
    assert_eq!(read(&h).len(), 6);
    h.record(5, 0);
    assert_eq!(read(&h).len(), 7);
}

#[test]
fn values_share_a_bucket_above_three_digits() {
    let mut h = new_hist();
    h.record(2_046, 0);
    h.record(2_047, 0);
    assert_eq!(read(&h).count_at(2_046), 1);
    h.record(2_048, 0);
    h.record(2_049, 0);
    assert_eq!(read(&h).count_at(2_048), 2);
    h.record(4_096, 0);
    h.record(4_099, 0);
    assert_eq!(read(&h).count_at(4_098), 2);
}

#[test]
fn values_beyond_the_histogram_are_left_out() {
    let mut h = new_hist();
    h.record(HIGHEST_NS, 0);
    assert_eq!(read(&h).len(), 1);
    h.record(68_719_476_735, 0);
    assert_eq!(read(&h).len(), 2);
    h.record(68_719_476_736, 1_000_000_000);
    h.record(u64::MAX, 0);
    assert_eq!(read(&h).len(), 2);
}

#[test]
fn histograms_add_up() {
    let mut a = new_hist();
    let mut b = new_hist();
    a.record(10, 0);
    b.record(10, 0);
    b.record(20, 0);
    a.add(&b);
    assert_eq!((read(&a).count_at(10), read(&a).count_at(20)), (2, 1));
    assert_eq!(read(&b).len(), 2);
    a.add(&new_hist());
    assert_eq!(read(&a).len(), 3);
}

#[test]
fn serialized_histogram_is_v2_in_base64() {
    let mut h = new_hist();
    // The cookie 0x1c849303 leads the format.
    assert!(hdr_b64(&h).unwrap().starts_with("HISTE"));
    let empty = hdr_b64(&h).unwrap();
    h.record(100, 0);
    assert_ne!(hdr_b64(&h).unwrap(), empty);
    // Adding two histograms to each other makes the counts grow past the format.
    let mut other = new_hist();
    for _ in 0..60 {
        other.add(&h);
        h.add(&other);
    }
    assert_eq!(hdr_b64(&h), None);
    assert_eq!(h.serialized(), None);
}

#[test]
fn rate_run_sums_up_its_trials() {
    let mut run = RateRun::new();
    for (value, p99) in [(400u64, 400u64), (100, 100), (300, 300), (3_000, 200)] {
        let mut h = new_hist();
        h.record(value, 0);
        run.add_trial(&h, p99, 1);
    }
    let s = run.finish();
    assert_eq!(s.p99_ns_per_trial, vec![100, 200, 300, 400]);
    assert_eq!(s.p99_ns_median, 250);
    assert_eq!(s.p99_ns_iqr, 200);
    assert_eq!(s.agg_min_ns, 100);
    assert_eq!(s.agg_max_ns, 3_001);
    assert_eq!(s.total_drops, 4);
    assert!(!s.passes_sub_us);
    assert!(s.agg_hdr_base64.unwrap().starts_with("HISTE"));
}

#[test]
fn rate_run_without_trials() {
    let s = RateRun::new().finish();
    assert_eq!((s.p99_ns_median, s.p99_ns_iqr), (0, 0));
    assert_eq!((s.agg_min_ns, s.agg_max_ns, s.total_drops), (0, 0, 0));
    assert!(!s.passes_sub_us);
}

#[test]
fn spread_of_a_quarter_does_not_pass() {
    let mut run = RateRun::new();
    for p99 in [700u64, 900, 700, 900] {
        let mut h = new_hist();
        h.record(p99, 0);
        run.add_trial(&h, p99, 0);
    }
    let s = run.finish();
    assert_eq!((s.p99_ns_median, s.p99_ns_iqr), (800, 200));
    assert!(!s.passes_sub_us);
}

#[test]
fn wait_strategies_have_names() {
    assert_eq!(wait_label(WaitStrategy::BusySpin), "busy-spin");
    assert_eq!(wait_label(WaitStrategy::Yield), "yield");
}

#[test]
fn interval_follows_the_rate() {
    assert_eq!(interval_ns(20_000), 50_000);
    assert_eq!(interval_ns(3), 333_333_333);
    assert_eq!(interval_ns(2_000_000_000), 0);
}

#[test]
fn message_carries_its_intended_time() {
    let m = bench_message(0x0102_0304_0506_0708);
    assert_eq!(m.topic_str(), "bench");
    assert_eq!(m.payload[..9], [8, 7, 6, 5, 4, 3, 2, 1, 0]);
    assert_eq!(intended_ns(&m), 0x0102_0304_0506_0708);
    assert_eq!(m.timestamp_ns, 0);
}

#[test]
fn latency_counts_from_the_intended_time() {
    assert_eq!(latency_ns(150, 100), 50);
    assert_eq!(latency_ns(100, 100), 1);
    assert_eq!(latency_ns(50, 100), 1);
}

#[test]
fn generator_keeps_its_schedule() {
    let mut g = Generator::new(1_000, 50, 3);
    let mut times = Vec::new();
    while let Some(s) = g.next_send() {
        assert_eq!(intended_ns(&s.msg), s.intended_ns);
        times.push(s.intended_ns);
    }
    assert_eq!(times, vec![1_000, 1_050, 1_100]);
    assert!(g.next_send().is_none());
}

#[test]
fn recorder_leaves_the_warmup_out() {
    let mut r = Recorder::new(2, 1_000);
    for now in [500u64, 600, 700] {
        r.on_message(&bench_message(400), now);
    }
    assert_eq!(r.received, 3);
    assert_eq!(read(&r.hist).len(), 1);
    assert_eq!(read(&r.hist).count_at(300), 1);
}

#[test]
fn receiver_stops_when_the_sender_is_done() {
    assert_eq!(on_empty(true, WaitStrategy::Yield), EmptyStep::Stop);
    assert_eq!(
        on_empty(false, WaitStrategy::BusySpin),
        EmptyStep::Wait(WaitStrategy::BusySpin)
    );
}
