//! The result of repeated trials at one rate.

use crate::base64::base64_text;
use crate::hist::{
    bucket_of, bucket_width, counts_added, hdr_b64, hdr_v2_bytes, hist_bounds, hist_counts, new_hist, no_counts,
    serializable, LatencyHistogram,
};
use crate::spsc::WaitStrategy;
use crate::stats::{
    ascending, iqr, iqr_of, median, median_of, passes_sub_us, sorted, stable_sub_us,
};
use vstd::prelude::*;

verus! {

/// The name of a wait strategy in reports.
pub fn wait_label(wait: WaitStrategy) -> (s: &'static str)
    ensures
        s@ == (match wait {
            WaitStrategy::BusySpin => "busy-spin"@,
            WaitStrategy::Yield => "yield"@,
        }),
{
    match wait {
        WaitStrategy::BusySpin => "busy-spin",
        WaitStrategy::Yield => "yield",
    }
}

/// Gathers the trials at one rate.
pub struct RateRun {
    pub agg: LatencyHistogram,
    pub p99s: Vec<u64>,
    pub total_drops: u64,
}

/// What the trials at one rate came to.
pub struct RateSummary {
    /// The 99th percentiles of the trials, in ascending order.
    pub p99_ns_per_trial: Vec<u64>,
    pub p99_ns_median: u64,
    pub p99_ns_iqr: u64,
    pub agg_min_ns: u64,
    pub agg_max_ns: u64,
    /// The serialized histogram over all trials; `None` where a count is too
    /// large for the format.
    pub agg_hdr_base64: Option<String>,
    pub total_drops: u64,
    pub passes_sub_us: bool,
}

impl RateRun {
    /// That the percentiles are small enough for the mean of two of them.
    pub open spec fn wf(self) -> bool {
        &&& self.agg.wf()
        &&& forall|i: int| 0 <= i < self.p99s@.len() ==> #[trigger] self.p99s@[i] <= u64::MAX / 2
    }

    /// No trials yet.
    pub fn new() -> (r: Self)
        ensures
            r.wf(),
            no_counts(hist_counts(r.agg)),
            r.p99s@ == Seq::<u64>::empty(),
            r.total_drops == 0,
    {
        RateRun { agg: new_hist(), p99s: Vec::new(), total_drops: 0 }
    }

    /// Takes in one trial: its histogram, its 99th percentile and its drops.
    pub fn add_trial(&mut self, hist: &LatencyHistogram, p99_ns: u64, drops: u64)
        requires
            old(self).wf(),
            hist.wf(),
            p99_ns <= u64::MAX / 2,
            old(self).total_drops + drops <= u64::MAX,
        ensures
            final(self).wf(),
            counts_added(
                hist_counts(old(self).agg),
                hist_counts(*hist),
                hist_counts(final(self).agg),
            ),
            final(self).p99s@ == old(self).p99s@.push(p99_ns),
            final(self).total_drops == old(self).total_drops + drops,
    {
        self.p99s.push(p99_ns);
        self.total_drops = self.total_drops + drops;
        self.agg.add(hist);
    }

    /// The summary over the trials.
    pub fn finish(self) -> (s: RateSummary)
        requires
            self.wf(),
        ensures
            ascending(s.p99_ns_per_trial@),
            s.p99_ns_per_trial@.to_multiset() == self.p99s@.to_multiset(),
            s.p99_ns_per_trial@.len() == self.p99s@.len(),
            s.p99_ns_median == median_of(s.p99_ns_per_trial@),
            s.p99_ns_iqr == iqr_of(s.p99_ns_per_trial@),
            s.passes_sub_us == stable_sub_us(s.p99_ns_median as int, s.p99_ns_iqr as int),
            s.total_drops == self.total_drops,
            s.agg_hdr_base64 is Some <==> serializable(hist_counts(self.agg)),
            s.agg_hdr_base64 matches Some(text) ==> text@ == base64_text(
                hdr_v2_bytes(
                    hist_bounds(self.agg).0,
                    hist_bounds(self.agg).1,
                    hist_bounds(self.agg).2,
                    hist_counts(self.agg),
                ),
            ),
            no_counts(hist_counts(self.agg)) ==> s.agg_min_ns == 0 && s.agg_max_ns == 0,
            !no_counts(hist_counts(self.agg)) ==> {
                &&& hist_counts(self.agg)[s.agg_min_ns] > 0
                &&& hist_counts(self.agg)[bucket_of(s.agg_max_ns)] > 0
                &&& s.agg_max_ns == bucket_of(s.agg_max_ns) + bucket_width(s.agg_max_ns as nat) - 1
            },
            forall|b: u64| #[trigger]
                hist_counts(self.agg)[b] > 0 ==> s.agg_min_ns <= b <= s.agg_max_ns,
    {
        let p99s = sorted(self.p99s);
        proof {
            lemma_same_values_bounded(self.p99s@, p99s@);
        }
        let p99_med: u64 = median(p99s.as_slice());
        let iqr_ns: u64 = iqr(p99s.as_slice());
        RateSummary {
            p99_ns_median: p99_med,
            p99_ns_iqr: iqr_ns,
            agg_min_ns: self.agg.min(),
            agg_max_ns: self.agg.max(),
            agg_hdr_base64: hdr_b64(&self.agg),
            total_drops: self.total_drops,
            passes_sub_us: passes_sub_us(p99_med, iqr_ns),
            p99_ns_per_trial: p99s,
        }
    }
}

/// Reordering keeps a bound on all values.
proof fn lemma_same_values_bounded(a: Seq<u64>, b: Seq<u64>)
    requires
        a.to_multiset() == b.to_multiset(),
        forall|i: int| 0 <= i < a.len() ==> #[trigger] a[i] <= u64::MAX / 2,
    ensures
        forall|i: int| 0 <= i < b.len() ==> #[trigger] b[i] <= u64::MAX / 2,
{
    broadcast use vstd::seq_lib::group_to_multiset_ensures;

    assert forall|i: int| 0 <= i < b.len() implies #[trigger] b[i] <= u64::MAX / 2 by {
        assert(b.contains(b[i]));
        assert(b.to_multiset().count(b[i]) > 0);
        assert(a.contains(b[i]));
    }
}

} // verus!
