//! Latency histograms: the `hdrhistogram` crate behind contracts that say what
//! is counted where.

use crate::base64::{base64_encode, base64_text};
use hdrhistogram::serialization::{Serializer, V2Serializer};
use hdrhistogram::Histogram;
use vstd::prelude::*;

verus! {

/// Lowest value that the latency histograms tell from zero, in nanoseconds.
pub const LOWEST_NS: u64 = 1;

/// Highest value that the latency histograms are made for: one minute.
pub const HIGHEST_NS: u64 = 60_000_000_000;

/// Significant decimal digits that the latency histograms keep.
pub const DIGITS: u8 = 3;

/// A histogram of latencies in nanoseconds. Callers that need quantiles, which are
/// floating point, read them from what [`LatencyHistogram::serialized`] gives.
#[verifier::external_body]
pub struct LatencyHistogram {
    inner: Histogram<u64>,
}

/// How often the histogram has counted each of its buckets. A bucket goes by
/// its lowest value.
pub uninterp spec fn hist_counts(h: LatencyHistogram) -> Map<u64, u64>;

/// What the histogram was made with: lowest and highest value, and digits.
pub uninterp spec fn hist_bounds(h: LatencyHistogram) -> (u64, u64, u8);

/// The bytes that `V2Serializer::serialize` writes for a histogram with these
/// bounds and counts.
pub uninterp spec fn hdr_v2_bytes(
    low: u64,
    high: u64,
    digits: u8,
    counts: Map<u64, u64>,
) -> Seq<u8>;

#[verifier::external_type_specification]
#[verifier::external_body]
pub struct ExCreationError(hdrhistogram::CreationError);

#[verifier::external_type_specification]
#[verifier::external_body]
pub struct ExRecordError(hdrhistogram::RecordError);

#[verifier::external_type_specification]
#[verifier::external_body]
pub struct ExAdditionError(hdrhistogram::AdditionError);

#[verifier::external_type_specification]
#[verifier::external_body]
pub struct ExV2SerializeError(hdrhistogram::serialization::V2SerializeError);

/// How many neighbouring values share a bucket at `value`: one below 2048, which
/// keeps three digits apart, and twice as many with every doubling.
pub open spec fn bucket_width(value: nat) -> nat
    decreases value,
{
    if value < 2048 {
        1
    } else {
        2 * bucket_width(value / 2)
    }
}

/// The lowest value of the bucket that counts `value`.
pub open spec fn bucket_of(value: u64) -> u64 {
    (value - value as nat % bucket_width(value as nat)) as u64
}

/// How many of `values` the bucket `bucket` counts.
pub open spec fn count_in(values: Seq<u64>, bucket: u64) -> nat
    decreases values.len(),
{
    if values.len() == 0 {
        0
    } else {
        count_in(values.drop_last(), bucket) + if bucket_of(values.last()) == bucket {
            1nat
        } else {
            0
        }
    }
}

/// A counter that stops at the end of its type.
pub open spec fn saturated(n: nat) -> u64 {
    if n <= u64::MAX {
        n as u64
    } else {
        u64::MAX
    }
}

/// The values that stand for one measured `value` when one is expected every
/// `interval`: the value itself and, for each interval that it overran, the one
/// that would have been measured then.
pub open spec fn corrected(value: u64, interval: u64) -> Seq<u64>
    decreases value,
{
    if interval > 0 && value >= 2 * interval {
        seq![value] + corrected((value - interval) as u64, interval)
    } else {
        seq![value]
    }
}

/// That the latency histograms have a bucket for `value`. Their buckets end at the
/// first power of two above [`HIGHEST_NS`].
pub open spec fn trackable(value: u64) -> bool {
    value < 0x10_0000_0000
}

/// That `after` has counted `values` on top of what `before` had.
pub open spec fn counted(before: Map<u64, u64>, values: Seq<u64>, after: Map<u64, u64>) -> bool {
    forall|b: u64| #[trigger]
        after[b] == saturated((before[b] + count_in(values, b)) as nat)
}

/// That `after` has recorded a measured latency of `value`.
pub open spec fn records(
    before: Map<u64, u64>,
    value: u64,
    interval: u64,
    after: Map<u64, u64>,
) -> bool {
    if trackable(value) {
        counted(before, corrected(value, interval), after)
    } else {
        after == before
    }
}

/// That `after` has the counts of `a` and `b` together.
pub open spec fn counts_added(a: Map<u64, u64>, b: Map<u64, u64>, after: Map<u64, u64>) -> bool {
    forall|k: u64| #[trigger] after[k] == saturated((a[k] + b[k]) as nat)
}

/// That nothing was counted.
pub open spec fn no_counts(counts: Map<u64, u64>) -> bool {
    forall|b: u64| #[trigger] counts[b] == 0
}

/// That every count fits the serialized format.
pub open spec fn serializable(counts: Map<u64, u64>) -> bool {
    forall|b: u64| #[trigger] counts[b] <= i64::MAX
}

impl LatencyHistogram {
    /// That the histogram was made by [`new_hist`].
    pub open spec fn wf(self) -> bool {
        hist_bounds(self) == (LOWEST_NS, HIGHEST_NS, DIGITS)
    }

    /// `hdrhistogram::Histogram::new_with_bounds`: an empty histogram with fixed
    /// bounds. It refuses a lowest value of zero, a highest value below twice the
    /// lowest, and more than five digits; it takes every other combination with
    /// the lowest value one.
    #[verifier::external_body]
    fn with_bounds(low: u64, high: u64, digits: u8) -> (r: Result<
        Self,
        hdrhistogram::CreationError,
    >)
        ensures
            low == 1 && high >= 2 && digits <= 5 ==> r is Ok,
            low == 0 || high < 2 * low || digits > 5 ==> r is Err,
            r matches Ok(h) ==> hist_bounds(h) == (low, high, digits) && no_counts(hist_counts(h)),
    {
        match Histogram::new_with_bounds(low, high, digits) {
            Ok(inner) => Ok(LatencyHistogram { inner }),
            Err(e) => Err(e),
        }
    }

    /// `hdrhistogram::Histogram::record_correct`: counts `value` and those that
    /// correct it for coordinated omission, each in its bucket. A value for which
    /// there is no bucket is refused, and then nothing is counted.
    #[verifier::external_body]
    fn record_correct(&mut self, value: u64, interval: u64) -> (r: Result<
        (),
        hdrhistogram::RecordError,
    >)
        requires
            old(self).wf(),
        ensures
            hist_bounds(*final(self)) == hist_bounds(*old(self)),
            r is Ok <==> trackable(value),
            r is Ok ==> counted(
                hist_counts(*old(self)),
                corrected(value, interval),
                hist_counts(*final(self)),
            ),
            r is Err ==> hist_counts(*final(self)) == hist_counts(*old(self)),
    {
        self.inner.record_correct(value, interval)
    }

    /// `hdrhistogram::Histogram::add`: adds the counts of a histogram with the
    /// same bounds, bucket by bucket.
    #[verifier::external_body]
    fn add_counts(&mut self, other: &LatencyHistogram) -> (r: Result<
        (),
        hdrhistogram::AdditionError,
    >)
        requires
            old(self).wf(),
            other.wf(),
        ensures
            r is Ok,
            hist_bounds(*final(self)) == hist_bounds(*old(self)),
            counts_added(hist_counts(*old(self)), hist_counts(*other), hist_counts(*final(self))),
    {
        self.inner.add(&other.inner)
    }

    /// `hdrhistogram::Histogram::min`: the lowest value of the lowest bucket that
    /// counted anything; zero for an empty histogram.
    #[verifier::external_body]
    pub(crate) fn min(&self) -> (v: u64)
        requires
            self.wf(),
        ensures
            no_counts(hist_counts(*self)) ==> v == 0,
            !no_counts(hist_counts(*self)) ==> hist_counts(*self)[v] > 0,
            forall|b: u64| #[trigger] hist_counts(*self)[b] > 0 ==> v <= b,
    {
        self.inner.min()
    }

    /// `hdrhistogram::Histogram::max`: the highest value of the highest bucket
    /// that counted anything; zero for an empty histogram.
    #[verifier::external_body]
    pub(crate) fn max(&self) -> (v: u64)
        requires
            self.wf(),
        ensures
            no_counts(hist_counts(*self)) ==> v == 0,
            !no_counts(hist_counts(*self)) ==> hist_counts(*self)[bucket_of(v)] > 0 && v
                == bucket_of(v) + bucket_width(v as nat) - 1,
            forall|b: u64| #[trigger] hist_counts(*self)[b] > 0 ==> b <= v,
    {
        self.inner.max()
    }

    /// `hdrhistogram::serialization::V2Serializer::serialize` into a vector: the
    /// bytes of the V2 format, which only a count above `i64::MAX` prevents.
    #[verifier::external_body]
    fn v2_bytes(&self) -> (r: Result<Vec<u8>, hdrhistogram::serialization::V2SerializeError>)
        requires
            self.wf(),
        ensures
            r is Ok <==> serializable(hist_counts(*self)),
            r matches Ok(bytes) ==> bytes@ == hdr_v2_bytes(
                hist_bounds(*self).0,
                hist_bounds(*self).1,
                hist_bounds(*self).2,
                hist_counts(*self),
            ),
    {
        let mut bytes = Vec::new();
        match V2Serializer::new().serialize(&self.inner, &mut bytes) {
            Ok(_) => Ok(bytes),
            Err(e) => Err(e),
        }
    }

    /// Counts a measured latency, corrected for coordinated omission; one that
    /// there is no bucket for is left out.
    pub fn record(&mut self, value: u64, interval: u64)
        requires
            old(self).wf(),
        ensures
            final(self).wf(),
            records(
                hist_counts(*old(self)),
                value,
                interval,
                hist_counts(*final(self)),
            ),
    {
        let _ = self.record_correct(value, interval);
    }

    /// The histogram in the V2 format; `None` where a count is too large for it.
    pub fn serialized(&self) -> (r: Option<Vec<u8>>)
        requires
            self.wf(),
        ensures
            r is Some <==> serializable(hist_counts(*self)),
            r matches Some(bytes) ==> bytes@ == hdr_v2_bytes(
                hist_bounds(*self).0,
                hist_bounds(*self).1,
                hist_bounds(*self).2,
                hist_counts(*self),
            ),
    {
        match self.v2_bytes() {
            Ok(bytes) => Some(bytes),
            Err(_) => None,
        }
    }

    /// Adds the counts of `other`.
    pub fn add(&mut self, other: &LatencyHistogram)
        requires
            old(self).wf(),
            other.wf(),
        ensures
            final(self).wf(),
            counts_added(hist_counts(*old(self)), hist_counts(*other), hist_counts(*final(self))),
    {
        let _ = self.add_counts(other);
    }
}

/// An empty latency histogram.
pub fn new_hist() -> (h: LatencyHistogram)
    ensures
        h.wf(),
        no_counts(hist_counts(h)),
{
    LatencyHistogram::with_bounds(LOWEST_NS, HIGHEST_NS, DIGITS).unwrap()
}

/// The base64 text of the serialized histogram, for external tooling; `None`
/// where a count is too large for the format.
pub fn hdr_b64(h: &LatencyHistogram) -> (r: Option<String>)
    requires
        h.wf(),
    ensures
        r is Some <==> serializable(hist_counts(*h)),
        r matches Some(text) ==> text@ == base64_text(
            hdr_v2_bytes(
                hist_bounds(*h).0,
                hist_bounds(*h).1,
                hist_bounds(*h).2,
                hist_counts(*h),
            ),
        ),
{
    match h.serialized() {
        Some(bytes) => Some(base64_encode(bytes.as_slice())),
        None => None,
    }
}

/// How often the histograms with these counts have counted a bucket together.
pub open spec fn sum_of(all: Seq<Map<u64, u64>>, bucket: u64) -> nat
    decreases all.len(),
{
    if all.len() == 0 {
        0
    } else {
        sum_of(all.drop_last(), bucket) + all.last()[bucket] as nat
    }
}

/// What one histogram after another was added to counts what they count together,
/// as far as its counters go. `totals` are its counts before each of `trials` and
/// after the last.
pub proof fn law_trials_add_up(trials: Seq<Map<u64, u64>>, totals: Seq<Map<u64, u64>>, bucket: u64)
    requires
        totals.len() == trials.len() + 1,
        no_counts(totals[0]),
        forall|i: int|
            0 <= i < trials.len() ==> counts_added(#[trigger] totals[i], trials[i], totals[i + 1]),
    ensures
        totals.last()[bucket] == saturated(sum_of(trials, bucket)),
    decreases trials.len(),
{
    if trials.len() == 0 {
        assert(totals[0][bucket] == 0);
    } else {
        let n = trials.len() - 1;
        let before = totals.drop_last();
        assert forall|i: int| 0 <= i < trials.drop_last().len() implies counts_added(
            #[trigger] before[i],
            trials.drop_last()[i],
            before[i + 1],
        ) by {
            assert(counts_added(totals[i], trials[i], totals[i + 1]));
        }
        law_trials_add_up(trials.drop_last(), before, bucket);
        assert(counts_added(totals[n], trials[n], totals[n + 1]));
        assert(totals[n] == before.last());
        assert(totals[n + 1][bucket] == saturated((totals[n][bucket] + trials[n][bucket]) as nat));
    }
}

/// Counting is additive.
pub proof fn lemma_count_in_concat(a: Seq<u64>, b: Seq<u64>, bucket: u64)
    ensures
        count_in(a + b, bucket) == count_in(a, bucket) + count_in(b, bucket),
    decreases b.len(),
{
    if b.len() == 0 {
        assert(a + b =~= a);
    } else {
        lemma_count_in_concat(a, b.drop_last(), bucket);
        assert((a + b).drop_last() =~= a + b.drop_last());
        assert((a + b).last() == b.last());
    }
}

/// A value that overran its interval is backfilled: it stands for as many
/// samples as whole intervals fit into it, and for one at least. All of them lie
/// between the interval and the value, one interval apart.
pub proof fn law_backfill(value: u64, interval: u64)
    requires
        interval > 0,
    ensures
        corrected(value, interval).len() == (if value < interval {
            1
        } else {
            value as int / interval as int
        }),
        forall|i: int|
            0 <= i < corrected(value, interval).len() ==> #[trigger] corrected(value, interval)[i]
                == value - i * interval,
    decreases value,
{
    let all = corrected(value, interval);
    assert(0 * interval == 0) by (nonlinear_arith);
    if value >= 2 * interval {
        let rest: u64 = (value - interval) as u64;
        law_backfill(rest, interval);
        vstd::arithmetic::div_mod::lemma_div_plus_one(rest as int, interval as int);
        assert forall|i: int| 0 <= i < all.len() implies #[trigger] all[i] == value - i
            * interval by {
            if i > 0 {
                assert(all[i] == corrected(rest, interval)[i - 1]);
                assert(rest - (i - 1) * interval == value - i * interval) by (nonlinear_arith)
                    requires
                        rest == value - interval,
                ;
            }
        }
    } else if value >= interval {
        vstd::arithmetic::div_mod::lemma_fundamental_div_mod_converse(
            value as int,
            interval as int,
            1,
            value - interval,
        );
    }
}

} // verus!
