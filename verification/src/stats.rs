//! Statistics over repeated trials.

use vstd::prelude::*;

verus! {

/// That no value is followed by a smaller one.
pub open spec fn ascending(values: Seq<u64>) -> bool {
    forall|i: int, j: int| 0 <= i <= j < values.len() ==> values[i] <= values[j]
}

/// The middle value, or the mean (rounded down) of the two middle ones; zero for
/// no values.
pub open spec fn median_of(sorted: Seq<u64>) -> int {
    let n = sorted.len() as int;
    if n == 0 {
        0
    } else if n % 2 == 1 {
        sorted[n / 2] as int
    } else {
        (sorted[n / 2 - 1] + sorted[n / 2]) / 2
    }
}

/// The distance between the values a quarter and three quarters into the
/// sequence, zero where the later one is smaller or where there are fewer than
/// four values.
pub open spec fn iqr_of(sorted: Seq<u64>) -> int {
    let n = sorted.len() as int;
    if n < 4 || sorted[3 * n / 4] < sorted[n / 4] {
        0
    } else {
        sorted[3 * n / 4] - sorted[n / 4]
    }
}

/// That trials with this median and spread show a stable latency below one
/// microsecond: the median is below it, and the spread below a quarter of the
/// median.
pub open spec fn stable_sub_us(median_ns: int, iqr_ns: int) -> bool {
    &&& median_ns < 1_000
    &&& 4 * iqr_ns < median_ns
}

/// `<[u64]>::sort_unstable`: puts the values in ascending order.
#[verifier::external_body]
fn sort_values(values: &mut Vec<u64>)
    ensures
        ascending(final(values)@),
        final(values)@.to_multiset() == old(values)@.to_multiset(),
{
    values.sort_unstable()
}

/// The values in ascending order.
pub fn sorted(values: Vec<u64>) -> (r: Vec<u64>)
    ensures
        ascending(r@),
        r@.to_multiset() == values@.to_multiset(),
        r@.len() == values@.len(),
{
    broadcast use vstd::seq_lib::group_to_multiset_ensures;

    let mut r = values;
    sort_values(&mut r);
    assert(r@.to_multiset().len() == values@.to_multiset().len());
    r
}

/// Median of a sorted slice.
pub fn median(sorted: &[u64]) -> (m: u64)
    requires
        sorted@.len() > 0 && sorted@.len() % 2 == 0 ==> sorted@[sorted@.len() / 2 - 1]
            + sorted@[sorted@.len() as int / 2] <= u64::MAX,
    ensures
        m == median_of(sorted@),
{
    let n: usize = sorted.len();
    if n == 0 {
        return 0;
    }
    if n % 2 == 1 {
        sorted[n / 2]
    } else {
        (sorted[n / 2 - 1] + sorted[n / 2]) / 2
    }
}

/// Interquartile range of a sorted slice, by nearest rank.
pub fn iqr(sorted: &[u64]) -> (r: u64)
    ensures
        r == iqr_of(sorted@),
{
    let n: usize = sorted.len();
    if n < 4 {
        return 0;
    }
    let q1: u64 = sorted[n / 4];
    let q3: u64 = sorted[((3 * (n as u128)) / 4) as usize];
    q3.saturating_sub(q1)
}

/// Whether the trials show a stable latency below one microsecond.
pub fn passes_sub_us(median_ns: u64, iqr_ns: u64) -> (r: bool)
    ensures
        r == stable_sub_us(median_ns as int, iqr_ns as int),
{
    median_ns < 1_000 && 4 * (iqr_ns as u128) < median_ns as u128
}

/// Only trials can pass, with a latency that is not zero.
pub proof fn law_passing_needs_trials(sorted: Seq<u64>)
    requires
        stable_sub_us(median_of(sorted), iqr_of(sorted)),
    ensures
        sorted.len() > 0,
        median_of(sorted) > 0,
{
}

/// At least as many values lie on either side of the median as there are in one
/// half, and it is never outside the range of the values.
pub proof fn law_median_splits(sorted: Seq<u64>)
    requires
        ascending(sorted),
        sorted.len() > 0,
    ensures
        forall|i: int| 0 <= i < sorted.len() / 2 ==> #[trigger] sorted[i] <= median_of(sorted),
        forall|i: int|
            (sorted.len() + 1) / 2 <= i < sorted.len() ==> median_of(sorted)
                <= #[trigger] sorted[i],
        sorted.first() <= median_of(sorted) <= sorted.last(),
{
    let n = sorted.len() as int;
    if n % 2 == 0 {
        assert(sorted[n / 2 - 1] <= sorted[n / 2]);
    }
}

/// On sorted values the interquartile range is the plain difference of the
/// quartiles, and no more than the whole range.
pub proof fn law_iqr_within_range(sorted: Seq<u64>)
    requires
        ascending(sorted),
        sorted.len() >= 4,
    ensures
        iqr_of(sorted) == sorted[3 * sorted.len() as int / 4] - sorted[sorted.len() as int / 4],
        0 <= iqr_of(sorted) <= sorted.last() - sorted.first(),
{
    let n = sorted.len() as int;
    assert(sorted[n / 4] <= sorted[3 * n / 4]);
}

} // verus!
