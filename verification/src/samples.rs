//! The order statistics of a workload's samples.

use vstd::prelude::*;
#[allow(unused_imports)]
use vstd::relations::sorted_by;

verus! {

/// The measured samples of each workload.
pub const SAMPLES_PER_WORKLOAD: usize = 3;

/// The measured samples of the three workloads that a stage is scored by, into which its duration
/// is split.
pub const SAMPLES_PER_STAGE: usize = 9;

/// The length of the sample before those of a workload, which does not count.
pub const WARM_UP_MILLIS: u64 = 30;

/// The order of the numbers.
pub open spec fn no_greater() -> spec_fn(u64, u64) -> bool {
    |a: u64, b: u64| a <= b
}

/// The samples in ascending order.
pub open spec fn in_order(samples: Seq<u64>) -> Seq<u64> {
    samples.sort_by(no_greater())
}

/// Some samples in ascending order, and the least, the middle and the greatest of them.
#[derive(Debug)]
pub struct SampleSummary {
    pub ordered: Vec<u64>,
    pub least: u64,
    pub median: u64,
    pub greatest: u64,
}

/// Puts `item` where it belongs in the sorted list.
fn insert_in_order(sorted: &mut Vec<u64>, item: u64)
    requires
        sorted_by(old(sorted)@, no_greater()),
    ensures
        sorted_by(final(sorted)@, no_greater()),
        final(sorted)@.to_multiset() == old(sorted)@.to_multiset().insert(item),
{
    let ghost before = sorted@;
    let mut p: usize = 0;
    while p < sorted.len() && sorted[p] <= item
        invariant
            p <= sorted.len(),
            sorted@ == before,
            forall|i: int| 0 <= i < p ==> before[i] <= item,
        decreases sorted.len() - p,
    {
        p = p + 1;
    }
    sorted.insert(p, item);
    proof {
        assert forall|i: int, j: int| 0 <= i < j < sorted@.len() implies (no_greater())(
            #[trigger] sorted@[i],
            #[trigger] sorted@[j],
        ) by {
            if j == p {
            } else if i == p {
                assert(sorted@[j] == before[j - 1]);
                assert((no_greater())(before[p as int], before[j - 1]) || j - 1 == p);
            } else {
                let i2 = if i < p { i } else { i - 1 };
                let j2 = if j < p { j } else { j - 1 };
                assert((no_greater())(before[i2], before[j2]));
            }
        }
        vstd::seq_lib::to_multiset_insert(before, p as int, item);
    }
}

/// The samples in ascending order, with the least, the middle and the greatest of them.
pub fn summarize(samples: &Vec<u64>) -> (r: SampleSummary)
    requires
        samples.len() > 0,
    ensures
        r.ordered@ == in_order(samples@),
        r.least == in_order(samples@)[0],
        r.median == in_order(samples@)[samples@.len() as int / 2],
        r.greatest == in_order(samples@).last(),
{
    let mut sorted: Vec<u64> = Vec::new();
    assert(samples@.take(0) == sorted@);
    for i in 0..samples.len()
        invariant
            sorted_by(sorted@, no_greater()),
            sorted@.to_multiset() == samples@.take(i as int).to_multiset(),
    {
        insert_in_order(&mut sorted, samples[i]);
        proof {
            broadcast use vstd::seq_lib::group_to_multiset_ensures;

            assert(samples@.take(i + 1) == samples@.take(i as int).push(samples@[i as int]));
        }
    }
    proof {
        broadcast use vstd::seq_lib::group_to_multiset_ensures;

        assert(samples@.take(samples@.len() as int) == samples@);
        samples@.lemma_sort_by_ensures(no_greater());
        vstd::seq_lib::lemma_sorted_unique(sorted@, in_order(samples@), no_greater());
        assert(sorted@.to_multiset().len() == sorted@.len());
        assert(samples@.to_multiset().len() == samples@.len());
    }
    let least: u64 = sorted[0];
    let median: u64 = sorted[samples.len() / 2];
    let greatest: u64 = sorted[samples.len() - 1];
    SampleSummary { ordered: sorted, least, median, greatest }
}

/// The median lies between the least and the greatest sample, and every sample between these.
pub proof fn samples_lie_within(samples: Seq<u64>)
    requires
        samples.len() > 0,
    ensures
        in_order(samples).len() == samples.len(),
        in_order(samples)[0] <= in_order(samples)[samples.len() as int / 2],
        in_order(samples)[samples.len() as int / 2] <= in_order(samples).last(),
        forall|i: int|
            0 <= i < samples.len() ==> in_order(samples)[0] <= #[trigger] samples[i]
                <= in_order(samples).last(),
{
    broadcast use vstd::seq_lib::group_to_multiset_ensures;

    samples.lemma_sort_by_ensures(no_greater());
    let sorted = in_order(samples);
    assert(sorted.to_multiset().len() == sorted.len());
    assert(samples.to_multiset().len() == samples.len());
    let m = samples.len() as int / 2;
    assert(m == 0 || (no_greater())(sorted[0], sorted[m]));
    assert(m == sorted.len() - 1 || (no_greater())(sorted[m], sorted[sorted.len() - 1]));
    assert forall|i: int| 0 <= i < samples.len() implies sorted[0] <= #[trigger] samples[i]
        <= sorted.last() by {
        assert(samples.contains(samples[i]));
        assert(sorted.to_multiset().count(samples[i]) > 0);
        assert(sorted.contains(samples[i]));
        let k = choose|k: int| 0 <= k < sorted.len() && sorted[k] == samples[i];
        assert(k == 0 || (no_greater())(sorted[0], sorted[k]));
        assert(k == sorted.len() - 1 || (no_greater())(sorted[k], sorted[sorted.len() - 1]));
    }
}

/// Ordering samples neither adds nor drops one, and puts none before a lesser one.
pub proof fn ordering_keeps_the_samples(samples: Seq<u64>)
    ensures
        in_order(samples).to_multiset() == samples.to_multiset(),
        forall|i: int, j: int|
            0 <= i < j < in_order(samples).len() ==> #[trigger] in_order(samples)[i]
                <= #[trigger] in_order(samples)[j],
{
    samples.lemma_sort_by_ensures(no_greater());
    let sorted = in_order(samples);
    assert forall|i: int, j: int| 0 <= i < j < sorted.len() implies #[trigger] sorted[i]
        <= #[trigger] sorted[j] by {
        assert((no_greater())(sorted[i], sorted[j]));
    }
}

} // verus!
