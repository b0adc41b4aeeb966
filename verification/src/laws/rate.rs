//! Laws of the trials at one rate.

use crate::hist::{bucket_of, bucket_width, hdr_b64, hist_bounds, hist_counts, LatencyHistogram};
use crate::rate::{wait_label, RateRun, RateSummary};
use crate::spsc::WaitStrategy;
use vstd::prelude::*;

verus! {

/// The names of the wait strategies.
pub proof fn law_wait_labels(a: &'static str, b: &'static str)
    requires
        call_ensures(wait_label, (WaitStrategy::BusySpin,), a),
        call_ensures(wait_label, (WaitStrategy::Yield,), b),
    ensures
        a@ == "busy-spin"@,
        b@ == "yield"@,
{
}

/// A new run has no trials.
pub proof fn law_new(r: RateRun, bucket: u64)
    requires
        call_ensures(RateRun::new, (), r),
    ensures
        r.p99s@.len() == 0,
        r.total_drops == 0,
        hist_counts(r.agg)[bucket] == 0,
        hist_bounds(r.agg) == (1u64, 60_000_000_000u64, 3u8),
{
}

/// A run is in order when the mean of any two percentiles can be taken and its
/// histogram has the bounds of all of them.
pub proof fn law_in_order(run: RateRun)
    ensures
        run.wf() <==> hist_bounds(run.agg) == (1u64, 60_000_000_000u64, 3u8) && forall|i: int|
            0 <= i < run.p99s@.len() ==> #[trigger] run.p99s@[i] <= u64::MAX / 2,
{
}

/// A trial adds its percentile behind the others, its drops, and its counts bucket
/// by bucket up to the end of the counters.
pub proof fn law_add_trial(
    run: &mut RateRun,
    hist: &LatencyHistogram,
    p99_ns: u64,
    drops: u64,
    bucket: u64,
    i: int,
)
    requires
        old(run).wf(),
        hist.wf(),
        p99_ns <= u64::MAX / 2,
        old(run).total_drops + drops <= u64::MAX,
        call_ensures(RateRun::add_trial, (run, hist, p99_ns, drops), ()),
    ensures
        final(run).p99s@.len() == old(run).p99s@.len() + 1,
        final(run).p99s@.last() == p99_ns,
        0 <= i < old(run).p99s@.len() ==> final(run).p99s@[i] == old(run).p99s@[i],
        final(run).total_drops == old(run).total_drops + drops,
        ({
            let sum = hist_counts(old(run).agg)[bucket] + hist_counts(*hist)[bucket];
            hist_counts(final(run).agg)[bucket] == (if sum <= u64::MAX {
                sum
            } else {
                u64::MAX as int
            })
        }),
        hist_bounds(final(run).agg) == hist_bounds(old(run).agg),
{
}

/// The summary has every percentile once, in order; the median is the one in the
/// middle, or half the sum of the two there; the spread is the distance of the
/// quartiles; and the verdict goes by these two alone.
pub proof fn law_finish(run: RateRun, s: RateSummary, half: int, quarter: int, three_quarters: int)
    requires
        run.wf(),
        call_ensures(RateRun::finish, (run,), s),
        run.p99s@.len() == 2 * half || run.p99s@.len() == 2 * half + 1,
        4 * quarter <= run.p99s@.len() < 4 * quarter + 4,
        4 * three_quarters <= 3 * run.p99s@.len() < 4 * three_quarters + 4,
    ensures
        ({
            let p = s.p99_ns_per_trial@;
            let (m, q) = (s.p99_ns_median, s.p99_ns_iqr);
            &&& p.len() == run.p99s@.len()
            &&& p.to_multiset() == run.p99s@.to_multiset()
            &&& forall|i: int, j: int| 0 <= i <= j < p.len() ==> p[i] <= p[j]
            &&& p.len() == 2 * half + 1 ==> m == p[half]
            &&& p.len() == 2 * half && half > 0 ==> 2 * m <= p[half - 1] + p[half] < 2 * m + 2
            &&& p.len() == 0 ==> m == 0
            &&& p.len() >= 4 ==> q + p[quarter] == p[three_quarters]
            &&& p.len() < 4 ==> q == 0
            &&& s.passes_sub_us <==> m < 1_000 && q + q + q + q < m
            &&& s.total_drops == run.total_drops
        }),
{
    let p = s.p99_ns_per_trial@;
    if p.len() >= 4 {
        assert(p[quarter] <= p[three_quarters]);
    }
}

/// The lowest and the highest value enclose every bucket that counted anything,
/// and are the beginning of one such bucket and the end of one; with nothing
/// counted both are zero. The text is that of the histogram over all trials.
pub proof fn law_finish_histogram(run: RateRun, s: RateSummary, bucket: u64, text: Option<String>)
    requires
        run.wf(),
        call_ensures(RateRun::finish, (run,), s),
        call_ensures(hdr_b64, (&run.agg,), text),
    ensures
        hist_counts(run.agg)[bucket] > 0 ==> {
            &&& s.agg_min_ns <= bucket <= s.agg_max_ns
            &&& hist_counts(run.agg)[s.agg_min_ns] > 0
            &&& hist_counts(run.agg)[bucket_of(s.agg_max_ns)] > 0
            &&& s.agg_max_ns + 1 == bucket_of(s.agg_max_ns) + bucket_width(s.agg_max_ns as nat)
        },
        (forall|b: u64| hist_counts(run.agg)[b] == 0) ==> s.agg_min_ns == 0 && s.agg_max_ns == 0,
        s.agg_hdr_base64 is Some <==> text is Some,
        s.agg_hdr_base64 matches Some(t) ==> t@ == text->0@,
{
}

} // verus!
