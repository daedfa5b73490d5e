//! Cumulative histogram counts over a fixed set of bucket bounds.

use crate::sample::{is_nan, le_spec, lemma_le_transitive, rank, sample_le};
use vstd::prelude::*;

verus! {

/// How many of `data` are less than or equal to `bound`.
pub open spec fn count_le(data: Seq<u64>, bound: u64) -> nat
    decreases data.len(),
{
    if data.len() == 0 {
        0
    } else {
        count_le(data.drop_last(), bound) + if le_spec(data.last(), bound) {
            1nat
        } else {
            0nat
        }
    }
}

/// Bounds in ascending order, none of them not a number.
pub open spec fn ascending(bounds: Seq<u64>) -> bool {
    &&& forall|i: int| 0 <= i < bounds.len() ==> !is_nan(#[trigger] bounds[i])
    &&& forall|i: int, j: int|
        0 <= i <= j < bounds.len() ==> rank(#[trigger] bounds[i]) <= rank(#[trigger] bounds[j])
}

/// A bound's count never exceeds the number of samples.
pub proof fn lemma_count_le_at_most_len(data: Seq<u64>, bound: u64)
    ensures
        count_le(data, bound) <= data.len(),
    decreases data.len(),
{
    if data.len() > 0 {
        lemma_count_le_at_most_len(data.drop_last(), bound);
    }
}

/// A larger bound counts at least the samples that a smaller one counts.
pub proof fn lemma_count_le_monotone(data: Seq<u64>, lower: u64, upper: u64)
    requires
        le_spec(lower, upper),
    ensures
        count_le(data, lower) <= count_le(data, upper),
    decreases data.len(),
{
    if data.len() > 0 {
        lemma_count_le_monotone(data.drop_last(), lower, upper);
        if le_spec(data.last(), lower) {
            lemma_le_transitive(data.last(), lower, upper);
        }
    }
}

/// Over ascending bounds the cumulative counts never decrease from one
/// bucket to the next, and none exceeds the total number of samples, which
/// is the count of the `+Inf` bucket.
pub proof fn lemma_histogram_cumulative(data: Seq<u64>, bounds: Seq<u64>, i: int, j: int)
    requires
        ascending(bounds),
        0 <= i <= j < bounds.len(),
    ensures
        count_le(data, bounds[i]) <= count_le(data, bounds[j]),
        count_le(data, bounds[j]) <= data.len(),
{
    lemma_count_le_monotone(data, bounds[i], bounds[j]);
    lemma_count_le_at_most_len(data, bounds[j]);
}

/// Counts, for each bucket bound, the samples less than or equal to it.
pub fn calculate_histogram_buckets(data: &[u64], buckets: &[u64]) -> (counts: Vec<usize>)
    ensures
        counts@.len() == buckets@.len(),
        forall|i: int|
            0 <= i < buckets@.len() ==> #[trigger] counts@[i] == count_le(data@, buckets@[i]),
{
    let mut counts: Vec<usize> = Vec::new();
    let mut i: usize = 0;
    while i < buckets.len()
        invariant
            i <= buckets@.len(),
            counts@.len() == i,
            forall|k: int| 0 <= k < i ==> #[trigger] counts@[k] == count_le(data@, buckets@[k]),
        decreases buckets@.len() - i,
    {
        let bound = buckets[i];
        let mut count: usize = 0;
        let mut j: usize = 0;
        while j < data.len()
            invariant
                j <= data@.len(),
                count == count_le(data@.take(j as int), bound),
                count <= j,
            decreases data@.len() - j,
        {
            assert(data@.take(j + 1).drop_last() =~= data@.take(j as int));
            if sample_le(data[j], bound) {
                count = count + 1;
            }
            j = j + 1;
        }
        assert(data@.take(data@.len() as int) =~= data@);
        counts.push(count);
        i = i + 1;
    }
    counts
}

} // verus!
