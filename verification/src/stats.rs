//! Least, middle and greatest of a series of timings.
//!
//! A timing is a whole number of nanoseconds.

use crate::order::{in_order, lemma_in_order, sort, Ordered};
use vstd::prelude::*;

verus! {

impl Ordered for u64 {
    open spec fn precedes(a: Self, b: Self) -> bool {
        a <= b
    }

    proof fn precedes_is_total() {
        // The order is that of the whole numbers.
    }

    fn comes_before(&self, other: &Self) -> (before: bool) {
        *self <= *other
    }
}

/// The least, the middle and the greatest of a series of timings.
#[derive(Clone, Copy, Debug, PartialEq, Eq, Structural)]
pub struct Summary {
    pub min: u64,
    pub median: u64,
    pub max: u64,
}

/// The timings in ascending order.
pub open spec fn ascending(samples: Seq<u64>) -> Seq<u64> {
    in_order(samples)
}

/// The middle timing: the one at half the length of the ascending series.
/// Of an even number of timings it is the upper of the two in the middle,
/// not their mean.
pub open spec fn median_of(samples: Seq<u64>) -> u64 {
    ascending(samples)[samples.len() as int / 2]
}

/// The least timing.
pub open spec fn min_of(samples: Seq<u64>) -> u64 {
    ascending(samples)[0]
}

/// The greatest timing.
pub open spec fn max_of(samples: Seq<u64>) -> u64 {
    ascending(samples)[samples.len() - 1]
}

/// The summary of a series of timings.
pub open spec fn summary_of(samples: Seq<u64>) -> Summary {
    Summary { min: min_of(samples), median: median_of(samples), max: max_of(samples) }
}

/// The least, the middle and the greatest of a series of at least one
/// timing.
pub fn summarize(samples: &Vec<u64>) -> (summary: Summary)
    requires
        samples.len() > 0,
    ensures
        summary == summary_of(samples@),
{
    let sorted = sort(samples);
    proof {
        lemma_in_order(samples@);
    }
    let n = sorted.len();
    Summary { min: sorted[0], median: sorted[n / 2], max: sorted[n - 1] }
}

/// The middle of a series of at least one timing.
pub fn median(samples: &Vec<u64>) -> (middle: u64)
    requires
        samples.len() > 0,
    ensures
        middle == median_of(samples@),
{
    summarize(samples).median
}

/// The ascending series holds the timings, each as often as the series
/// does, and none of its timings is greater than one behind it.
pub proof fn lemma_ascending(samples: Seq<u64>)
    ensures
        ascending(samples).len() == samples.len(),
        ascending(samples).to_multiset() == samples.to_multiset(),
        forall|i: int, j: int|
            0 <= i <= j < samples.len() ==> (#[trigger] ascending(samples)[i]) <= (
            #[trigger] ascending(samples)[j]),
{
    lemma_in_order(samples);
}

/// The middle of an odd number of timings has as many timings before it in
/// the ascending series as behind it. The middle of an even number is the
/// upper of the two in the middle: it has one more timing before it than
/// behind it, and is not less than the lower one.
pub proof fn lemma_median_is_middle(samples: Seq<u64>)
    requires
        samples.len() > 0,
    ensures
        samples.len() % 2 == 1 ==> median_of(samples) == ascending(samples)[(samples.len() - 1)
            / 2],
        samples.len() % 2 == 0 ==> median_of(samples) == ascending(samples)[samples.len() as int
            / 2] && ascending(samples)[samples.len() / 2 - 1] <= median_of(samples),
        samples.contains(median_of(samples)),
{
    lemma_ascending(samples);
    lemma_summary_is_of_samples(samples);
}

/// Least, middle and greatest are timings of the series, in this order, and
/// no timing of the series is less than the least or greater than the
/// greatest.
pub proof fn lemma_summary_is_of_samples(samples: Seq<u64>)
    requires
        samples.len() > 0,
    ensures
        samples.contains(min_of(samples)),
        samples.contains(median_of(samples)),
        samples.contains(max_of(samples)),
        min_of(samples) <= median_of(samples) <= max_of(samples),
        forall|i: int|
            0 <= i < samples.len() ==> min_of(samples) <= #[trigger] samples[i] <= max_of(samples),
{
    let sorted = ascending(samples);
    let n = samples.len() as int;
    lemma_ascending(samples);
    vstd::seq_lib::to_multiset_contains(sorted, sorted[0]);
    vstd::seq_lib::to_multiset_contains(samples, sorted[0]);
    vstd::seq_lib::to_multiset_contains(sorted, sorted[n / 2]);
    vstd::seq_lib::to_multiset_contains(samples, sorted[n / 2]);
    vstd::seq_lib::to_multiset_contains(sorted, sorted[n - 1]);
    vstd::seq_lib::to_multiset_contains(samples, sorted[n - 1]);
    assert forall|i: int| 0 <= i < samples.len() implies min_of(samples) <= #[trigger] samples[i]
        <= max_of(samples) by {
        // The timing stands somewhere in the ascending series.
        vstd::seq_lib::to_multiset_contains(samples, samples[i]);
        vstd::seq_lib::to_multiset_contains(sorted, samples[i]);
        let k = choose|k: int| 0 <= k < sorted.len() && sorted[k] == samples[i];
        assert(sorted[0] <= sorted[k] <= sorted[n - 1]);
    }
}

} // verus!
