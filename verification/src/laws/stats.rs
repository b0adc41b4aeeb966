//! Laws of the statistics over trials.

use crate::stats::{iqr, median, passes_sub_us, sorted};
use vstd::prelude::*;

verus! {

/// The verdict is a matter of two comparisons: it is given exactly when the median
/// is below a microsecond and four times the spread is below the median.
pub proof fn law_verdict(median_ns: u64, iqr_ns: u64, r: bool)
    requires
        call_ensures(passes_sub_us, (median_ns, iqr_ns), r),
    ensures
        r ==> median_ns < 1_000 && iqr_ns + iqr_ns + iqr_ns + iqr_ns < median_ns,
        median_ns < 1_000 && iqr_ns + iqr_ns + iqr_ns + iqr_ns < median_ns ==> r,
{
}

/// A smaller spread, at the same median, never turns a pass into a failure, and a
/// spread of the median or more never passes.
pub proof fn law_verdict_monotone(median_ns: u64, wide: u64, narrow: u64, a: bool, b: bool)
    requires
        call_ensures(passes_sub_us, (median_ns, wide), a),
        call_ensures(passes_sub_us, (median_ns, narrow), b),
        narrow <= wide,
    ensures
        a ==> b,
        wide >= median_ns ==> !a,
{
}

/// The median of an odd number of values is the one in the middle; of an even
/// number, half the sum of the two in the middle, rounded down; of none, zero.
pub proof fn law_median(values: &[u64], half: int, m: u64)
    requires
        call_ensures(median, (values,), m),
        values@.len() == 2 * half || values@.len() == 2 * half + 1,
        values@.len() == 2 * half && half > 0 ==> values@[half - 1] + values@[half] <= u64::MAX,
    ensures
        values@.len() == 2 * half + 1 ==> m == values@[half],
        values@.len() == 2 * half && half > 0 ==> 2 * m <= values@[half - 1] + values@[half] < 2 * m
            + 2,
        values@.len() == 0 ==> m == 0,
{
}

/// The spread is what the value three quarters into the values exceeds the one a
/// quarter into them by; zero where it does not, or where there are fewer than
/// four.
pub proof fn law_iqr(values: &[u64], quarter: int, three_quarters: int, r: u64)
    requires
        call_ensures(iqr, (values,), r),
        4 * quarter <= values@.len() < 4 * quarter + 4,
        4 * three_quarters <= 3 * values@.len() < 4 * three_quarters + 4,
    ensures
        values@.len() < 4 ==> r == 0,
        values@.len() >= 4 && values@[quarter] <= values@[three_quarters] ==> r + values@[quarter]
            == values@[three_quarters],
        values@.len() >= 4 && values@[quarter] > values@[three_quarters] ==> r == 0,
{
}

/// Sorting puts every value behind the smaller ones, and has each of them as often
/// as before.
pub proof fn law_sorted(values: Vec<u64>, r: Vec<u64>, i: int, j: int)
    requires
        call_ensures(sorted, (values,), r),
    ensures
        r@.to_multiset() == values@.to_multiset(),
        r@.len() == values@.len(),
        0 <= i <= j < r@.len() ==> r@[i] <= r@[j],
{
}

} // verus!
