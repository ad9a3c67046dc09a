//! Combining per-image temperature samples into one value.
//!
//! Zero or more thermal images may see the same point; their readings are
//! deliberately averaged — rather than prioritized — so that image
//! boundaries leave no visible seams. An empty sample set yields the
//! explicit no-data outcome, never a number.

use vstd::prelude::*;
use crate::binding::TEMP_LIMIT;

verus! {

/// The aggregate of a point's temperature samples: their mean in
/// millidegrees Celsius, or no data when no image saw the point.
#[derive(Clone, Copy, PartialEq, Eq, Structural, Debug)]
pub enum AggregateResult {
    Value(i64),
    NoData,
}

/// The sum of a sequence of temperature samples.
pub open spec fn sum_of(s: Seq<i64>) -> int
    decreases s.len(),
{
    if s.len() == 0 {
        0
    } else {
        sum_of(s.drop_last()) + s.last()
    }
}

/// The mean the aggregator assigns to a non-empty sample sequence:
/// the sum divided by the count, rounded toward negative infinity.
pub open spec fn mean_of(s: Seq<i64>) -> int {
    sum_of(s) / (s.len() as int)
}

/// What aggregation yields for a sample sequence.
pub open spec fn aggregate_spec(s: Seq<i64>) -> AggregateResult {
    if s.len() == 0 {
        AggregateResult::NoData
    } else {
        AggregateResult::Value(mean_of(s) as i64)
    }
}

/// Samples within the temperature range.
pub open spec fn samples_bounded(s: Seq<i64>) -> bool {
    forall|i: int| 0 <= i < s.len() ==> -TEMP_LIMIT <= #[trigger] s[i] <= TEMP_LIMIT
}

/// The sum of bounded samples is bounded by the count times the bound.
proof fn lemma_sum_bounded(s: Seq<i64>)
    requires
        samples_bounded(s),
    ensures
        -(s.len() * TEMP_LIMIT) <= sum_of(s) <= s.len() * TEMP_LIMIT,
    decreases s.len(),
{
    if s.len() == 0 {
    } else {
        assert(samples_bounded(s.drop_last())) by {
            assert(forall|i: int|
                0 <= i < s.drop_last().len() ==> #[trigger] s.drop_last()[i] == s[i]);
        }
        lemma_sum_bounded(s.drop_last());
        assert(-TEMP_LIMIT <= s.last() <= TEMP_LIMIT);
        assert((s.len() - 1) * TEMP_LIMIT + TEMP_LIMIT == s.len() * TEMP_LIMIT)
            by (nonlinear_arith);
    }
}

/// Removing one element takes its value out of the sum.
proof fn lemma_sum_remove(s: Seq<i64>, i: int)
    requires
        0 <= i < s.len(),
    ensures
        sum_of(s.remove(i)) == sum_of(s) - s[i],
    decreases s.len(),
{
    if s.len() == 1 {
        assert(s.remove(0) =~= Seq::<i64>::empty());
    } else if i == s.len() - 1 {
        assert(s.remove(i) =~= s.drop_last());
    } else {
        let t = s.remove(i);
        assert(t.drop_last() =~= s.drop_last().remove(i));
        assert(t.last() == s.last());
        lemma_sum_remove(s.drop_last(), i);
    }
}

/// Sequences holding the same multiset of samples have the same sum.
proof fn lemma_sum_permutation(a: Seq<i64>, b: Seq<i64>)
    requires
        a.to_multiset() == b.to_multiset(),
    ensures
        sum_of(a) == sum_of(b),
    decreases a.len(),
{
    broadcast use vstd::seq_lib::group_to_multiset_ensures;

    if a.len() == 0 {
        assert(b.to_multiset().len() == 0);
    } else {
        let x = a.last();
        assert(a.to_multiset().count(x) > 0) by {
            assert(a[a.len() - 1] == x);
            assert(a.contains(x));
        }
        assert(b.contains(x));
        let j = choose|j: int| 0 <= j < b.len() && b[j] == x;
        let a1 = a.drop_last();
        let b1 = b.remove(j);
        assert(a1.to_multiset() =~= b1.to_multiset()) by {
            assert(a.remove(a.len() - 1) =~= a1);
            assert(a1.to_multiset() == a.to_multiset().remove(x));
            assert(b1.to_multiset() == b.to_multiset().remove(x));
        }
        lemma_sum_permutation(a1, b1);
        lemma_sum_remove(b, j);
        assert(sum_of(a) == sum_of(a1) + x);
    }
}

/// Aggregation is order-independent: any two sample sequences holding the
/// same multiset of temperatures — the same readings, in any order —
/// aggregate to the identical result.
pub proof fn lemma_aggregate_permutation(a: Seq<i64>, b: Seq<i64>)
    requires
        a.to_multiset() == b.to_multiset(),
    ensures
        aggregate_spec(a) == aggregate_spec(b),
{
    broadcast use vstd::seq_lib::group_to_multiset_ensures;

    lemma_sum_permutation(a, b);
    assert(a.len() == a.to_multiset().len());
    assert(b.len() == b.to_multiset().len());
}

/// Averages the samples gathered for one point.
///
/// Yields `NoData` exactly on an empty sample set, and otherwise the mean
/// of the samples, rounded toward negative infinity.
pub fn aggregate(samples: &Vec<i64>) -> (r: AggregateResult)
    requires
        samples_bounded(samples@),
    ensures
        r == aggregate_spec(samples@),
        r is NoData <==> samples@.len() == 0,
        r matches AggregateResult::Value(v) ==> -TEMP_LIMIT - 1 <= v <= TEMP_LIMIT,
{
    if samples.len() == 0 {
        return AggregateResult::NoData;
    }
    let mut total: i128 = 0;
    let mut i: usize = 0;
    while i < samples.len()
        invariant
            0 <= i <= samples@.len(),
            samples_bounded(samples@),
            total == sum_of(samples@.take(i as int)),
            -(i * TEMP_LIMIT) <= total <= i * TEMP_LIMIT,
        decreases samples@.len() - i,
    {
        proof {
            assert(samples@.take(i + 1).drop_last() =~= samples@.take(i as int));
            assert(samples@.take(i + 1).last() == samples@[i as int]);
            assert((i + 1) * TEMP_LIMIT == i * TEMP_LIMIT + TEMP_LIMIT) by (nonlinear_arith);
            crate::fixed::lemma_mul_bound(
                i as int,
                TEMP_LIMIT as int,
                0x10000000000000000,
                TEMP_LIMIT as int,
            );
        }
        total = total + samples[i] as i128;
        i += 1;
    }
    proof {
        assert(samples@.take(samples@.len() as int) =~= samples@);
        crate::fixed::lemma_mul_bound(
            samples@.len() as int,
            TEMP_LIMIT as int,
            0x10000000000000000,
            TEMP_LIMIT as int,
        );
    }
    let mean = crate::fixed::floor_div_i128(total, samples.len() as i128);
    proof {
        crate::fixed::lemma_div_bound(
            total as int,
            samples@.len() as int,
            samples@.len() * TEMP_LIMIT,
        );
        vstd::arithmetic::div_mod::lemma_div_is_ordered(
            -(samples@.len() * TEMP_LIMIT),
            total as int,
            samples@.len() as int,
        );
        assert((samples@.len() * TEMP_LIMIT) / (samples@.len() as int) == TEMP_LIMIT)
            by (nonlinear_arith)
            requires
                samples@.len() > 0,
        ;
    }
    AggregateResult::Value(mean as i64)
}

} // verus!
