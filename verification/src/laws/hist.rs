//! Laws of the latency histograms.

use crate::base64::base64_encode;
use crate::hist::{
    bucket_of, bucket_width, corrected, count_in, hdr_b64, hdr_v2_bytes, hist_bounds, hist_counts,
    law_backfill, new_hist, LatencyHistogram, DIGITS, HIGHEST_NS, LOWEST_NS,
};
use vstd::arithmetic::power2::is_pow2;
use vstd::prelude::*;

verus! {

/// Counting by buckets is counting the values of a bucket.
pub proof fn lemma_count_is_filter(values: Seq<u64>, bucket: u64)
    ensures
        count_in(values, bucket) == values.filter(|v: u64| bucket_of(v) == bucket).len(),
    decreases values.len(),
{
    reveal(Seq::filter);
    if values.len() > 0 {
        lemma_count_is_filter(values.drop_last(), bucket);
    }
}

/// The values that stand for one that was measured, listed by number.
pub proof fn lemma_samples(value: u64, interval: u64, n: nat)
    requires
        if interval == 0 || value < interval {
            n == 1
        } else {
            n * interval <= value < (n + 1) * interval
        },
    ensures
        corrected(value, interval) == Seq::new(n, |k: int| (value - k * interval) as u64),
{
    let all = Seq::new(n, |k: int| (value - k * interval) as u64);
    assert(0 * interval == 0) by (nonlinear_arith);
    if interval == 0 {
        assert(corrected(value, interval) =~= all);
    } else {
        law_backfill(value, interval);
        if value >= interval {
            let (v, d) = (value as int, interval as int);
            let q = n as int;
            let rest = v - q * d;
            assert(v == q * d + rest);
            assert(0 <= rest < d) by (nonlinear_arith)
                requires
                    rest == v - q * d,
                    q * d <= v < (q + 1) * d,
            ;
            vstd::arithmetic::div_mod::lemma_fundamental_div_mod_converse(v, d, q, rest);
        }
        assert(corrected(value, interval) =~= all);
    }
}

/// The bucket of a value begins at or below it and is less than its width long up
/// to it. Values below 2048 have buckets of their own. Above, a bucket's width is a
/// power of two and divides its beginning, and it is between a 1024th and a 2048th
/// of the value: three digits are kept.
pub proof fn law_bucket(value: u64)
    ensures
        ({
            let w = bucket_width(value as nat);
            let b = bucket_of(value);
            &&& b <= value < b + w
            &&& b as int % w as int == 0
            &&& is_pow2(w as int)
            &&& value < 2048 ==> w == 1 && b == value
            &&& value >= 2048 ==> 1024 * w <= value < 2048 * w
        }),
{
    lemma_width(value as nat);
    let (v, w) = (value as int, bucket_width(value as nat) as int);
    vstd::arithmetic::div_mod::lemma_fundamental_div_mod(v, w);
    let q = v / w;
    assert(v - v % w == q * w) by (nonlinear_arith)
        requires
            v == w * q + v % w,
    ;
    vstd::arithmetic::div_mod::lemma_mod_multiples_basic(q, w);
}

proof fn lemma_width(value: nat)
    ensures
        ({
            let w = bucket_width(value);
            &&& w > 0
            &&& is_pow2(w as int)
            &&& value < 2048 ==> w == 1
            &&& value >= 2048 ==> 1024 * w <= value < 2048 * w
        }),
    decreases value,
{
    reveal(is_pow2);
    reveal_with_fuel(bucket_width, 2);
    if value >= 2048 {
        lemma_width(value / 2);
    }
}

/// The bounds of the histograms.
pub proof fn law_bounds(h: LatencyHistogram, bucket: u64)
    requires
        call_ensures(new_hist, (), h),
    ensures
        hist_bounds(h) == (1u64, 60_000_000_000u64, 3u8),
        hist_counts(h)[bucket] == 0,
        LOWEST_NS == 1,
        HIGHEST_NS == 60_000_000_000,
        DIGITS == 3,
{
}

/// Recording a value counts it and, one interval apart, those that would have been
/// measured in the intervals that it overran, `n` values in all, each in its
/// bucket. Counters stop at their end, and a value of 2^36 or more has no bucket.
pub proof fn law_record(
    h: &mut LatencyHistogram,
    value: u64,
    interval: u64,
    n: nat,
    bucket: u64,
)
    requires
        old(h).wf(),
        call_ensures(LatencyHistogram::record, (h, value, interval), ()),
        if interval == 0 || value < interval {
            n == 1
        } else {
            n * interval <= value < (n + 1) * interval
        },
    ensures
        ({
            let before = hist_counts(*old(h))[bucket];
            let after = hist_counts(*final(h))[bucket];
            let values = Seq::new(n, |k: int| (value - k * interval) as u64);
            let hits = values.filter(|v: u64| bucket_of(v) == bucket).len();
            if value >= 0x10_0000_0000 {
                after == before
            } else if before + hits <= u64::MAX {
                after == before + hits
            } else {
                after == u64::MAX
            }
        }),
        hist_bounds(*final(h)) == hist_bounds(*old(h)),
{
    lemma_samples(value, interval, n);
    lemma_count_is_filter(Seq::new(n, |k: int| (value - k * interval) as u64), bucket);
}

/// Adding a histogram adds its counts, bucket by bucket, up to the end of the
/// counters.
pub proof fn law_add(h: &mut LatencyHistogram, other: &LatencyHistogram, bucket: u64)
    requires
        old(h).wf(),
        other.wf(),
        call_ensures(LatencyHistogram::add, (h, other), ()),
    ensures
        ({
            let sum = hist_counts(*old(h))[bucket] + hist_counts(*other)[bucket];
            hist_counts(*final(h))[bucket] == (if sum <= u64::MAX {
                sum
            } else {
                u64::MAX as int
            })
        }),
        hist_bounds(*final(h)) == hist_bounds(*old(h)),
{
}

/// A histogram is serialized exactly when all its counts fit a signed number, and
/// then with its bounds and its counts.
pub proof fn law_serialized(h: &LatencyHistogram, r: Option<Vec<u8>>, bucket: u64)
    requires
        h.wf(),
        call_ensures(LatencyHistogram::serialized, (h,), r),
    ensures
        r is Some ==> hist_counts(*h)[bucket] <= 0x7fff_ffff_ffff_ffff,
        r is None ==> exists|b: u64| hist_counts(*h)[b] > 0x7fff_ffff_ffff_ffff,
        r matches Some(bytes) ==> bytes@ == hdr_v2_bytes(1, 60_000_000_000, 3, hist_counts(*h)),
{
}

/// The text of a histogram is the base64 of its serialized form, and there is one
/// where there is the other.
pub proof fn law_text_of_serialized(
    h: &LatencyHistogram,
    bytes: Option<Vec<u8>>,
    text: Option<String>,
    slice: &[u8],
    encoded: String,
)
    requires
        h.wf(),
        call_ensures(LatencyHistogram::serialized, (h,), bytes),
        call_ensures(hdr_b64, (h,), text),
        bytes matches Some(b) ==> slice@ == b@,
        call_ensures(base64_encode, (slice,), encoded),
    ensures
        text is Some <==> bytes is Some,
        text matches Some(t) ==> t@ == encoded@,
{
}

} // verus!
