//! The priority-fee distribution: sorting, percentiles and percentile buckets.
use vstd::prelude::*;
use vstd::relations::{sorted_by, total_ordering};
use vstd::seq_lib::{
    lemma_sorted_unique,
    group_to_multiset_ensures,
    to_multiset_build,
    to_multiset_insert,
};
use vstd::arithmetic::div_mod::{
    lemma_fundamental_div_mod,
    lemma_div_is_ordered,
    lemma_div_by_multiple,
    lemma_div_by_multiple_is_strongly_ordered,
};
use crate::types::FeePercentiles;

verus! {

/// Ascending order on fees.
pub open spec fn fee_le() -> spec_fn(u128, u128) -> bool {
    |a: u128, b: u128| a <= b
}

/// The fee distribution in ascending order.
pub open spec fn sorted_fees(fees: Seq<u128>) -> Seq<u128> {
    fees.sort_by(fee_le())
}

/// Position of the `k`-th percentile in an ascending list of `len` fees.
pub open spec fn percentile_index(len: nat, k: nat) -> nat {
    len * k / 100
}

/// The percentile of rank `k` of a non-empty distribution.
pub open spec fn percentile_at(fees: Seq<u128>, k: nat) -> u128 {
    sorted_fees(fees)[percentile_index(fees.len(), k) as int]
}

/// The four percentiles of a distribution; all zero when it is empty.
pub open spec fn percentiles_of(fees: Seq<u128>) -> FeePercentiles {
    if fees.len() == 0 {
        FeePercentiles { p25: 0, p50: 0, p75: 0, p90: 0 }
    } else {
        FeePercentiles {
            p25: percentile_at(fees, 25),
            p50: percentile_at(fees, 50),
            p75: percentile_at(fees, 75),
            p90: percentile_at(fees, 90),
        }
    }
}

/// The highest percentile, in percent, whose value is at most `fee`; 10 when
/// the fee is below the 25th percentile.
pub open spec fn bucket_of(fee: u128, p: FeePercentiles) -> u8 {
    if fee >= p.p90 {
        90
    } else if fee >= p.p75 {
        75
    } else if fee >= p.p50 {
        50
    } else if fee >= p.p25 {
        25
    } else {
        10
    }
}

proof fn lemma_fee_le_total()
    ensures
        total_ordering(fee_le()),
{
}

/// What sorting keeps of a distribution.
pub proof fn lemma_sorted_fees(fees: Seq<u128>)
    ensures
        sorted_by(sorted_fees(fees), fee_le()),
        sorted_fees(fees).to_multiset() == fees.to_multiset(),
        sorted_fees(fees).len() == fees.len(),
        forall|x: u128| #[trigger] sorted_fees(fees).contains(x) ==> fees.contains(x),
{
    broadcast use group_to_multiset_ensures;

    lemma_fee_le_total();
    fees.lemma_sort_by_ensures(fee_le());
    assert(sorted_fees(fees).to_multiset().len() == sorted_fees(fees).len());
    assert(fees.to_multiset().len() == fees.len());
}

/// A sorted copy of the distribution.
pub fn sort_fees(v: &Vec<u128>) -> (r: Vec<u128>)
    ensures
        r@ == sorted_fees(v@),
{
    broadcast use group_to_multiset_ensures;

    let mut r: Vec<u128> = Vec::new();
    let mut i: usize = 0;
    while i < v.len()
        invariant
            i <= v.len(),
            sorted_by(r@, fee_le()),
            r@.to_multiset() == v@.subrange(0, i as int).to_multiset(),
        decreases v.len() - i,
    {
        let x = v[i];
        let mut j: usize = 0;
        while j < r.len() && r[j] <= x
            invariant
                j <= r.len(),
                forall|k: int| 0 <= k < j ==> r@[k] <= x,
            decreases r.len() - j,
        {
            j = j + 1;
        }
        let ghost before = r@;
        r.insert(j, x);
        proof {
            assert(r@ == before.insert(j as int, x));
            assert forall|a: int, b: int| 0 <= a < b < r@.len() implies #[trigger] fee_le()(
                r@[a],
                r@[b],
            ) by {
                if b < j {
                } else if a < j && b == j {
                } else if a < j {
                    assert(fee_le()(before[a], before[b - 1]));
                } else if a == j {
                    assert(before[j as int] > x);
                    assert(fee_le()(before[j as int], before[b - 1]));
                } else {
                    assert(fee_le()(before[a - 1], before[b - 1]));
                }
            }
            assert(v@.subrange(0, i + 1) == v@.subrange(0, i as int).push(x));
            to_multiset_insert(before, j as int, x);
            to_multiset_build(v@.subrange(0, i as int), x);
            assert(r@.to_multiset() == before.to_multiset().insert(x));
            assert(v@.subrange(0, i + 1).to_multiset() == v@.subrange(
                0,
                i as int,
            ).to_multiset().insert(x));
        }
        i = i + 1;
    }
    proof {
        assert(v@.subrange(0, v@.len() as int) == v@);
        lemma_sorted_fees(v@);
        lemma_fee_le_total();
        lemma_sorted_unique(r@, sorted_fees(v@), fee_le());
    }
    r
}

/// `floor(len * k / 100)`, computed without overflow.
pub fn percentile_position(len: usize, k: usize) -> (r: usize)
    requires
        k <= 100,
    ensures
        r == percentile_index(len as nat, k as nat),
        len > 0 && k < 100 ==> r < len,
{
    proof {
        assert(len * k <= len * 100) by (nonlinear_arith)
            requires
                k <= 100,
        ;
        lemma_div_is_ordered((len * k) as int, (len * 100) as int, 100);
        lemma_div_by_multiple(len as int, 100);
        if len > 0 && k < 100 {
            assert(len * k < len * 100) by (nonlinear_arith)
                requires
                    k < 100,
                    len > 0,
            ;
            lemma_div_by_multiple_is_strongly_ordered(
                (len * k) as int,
                (len * 100) as int,
                len as int,
                100,
            );
        }
    }
    let wide = (len as u128) * (k as u128);
    (wide / 100) as usize
}

/// The 25th, 50th, 75th and 90th percentiles of a fee distribution.
pub fn fee_percentiles(fees: &Vec<u128>) -> (r: FeePercentiles)
    ensures
        r == percentiles_of(fees@),
{
    if fees.len() == 0 {
        return FeePercentiles { p25: 0, p50: 0, p75: 0, p90: 0 };
    }
    let sorted = sort_fees(fees);
    proof {
        lemma_sorted_fees(fees@);
    }
    let len = sorted.len();
    FeePercentiles {
        p25: sorted[percentile_position(len, 25)],
        p50: sorted[percentile_position(len, 50)],
        p75: sorted[percentile_position(len, 75)],
        p90: sorted[percentile_position(len, 90)],
    }
}

/// The percentile bucket, in percent, that `fee` falls in.
pub fn percentile_bucket(fee: u128, p: &FeePercentiles) -> (r: u8)
    ensures
        r == bucket_of(fee, *p),
{
    if fee >= p.p90 {
        90
    } else if fee >= p.p75 {
        75
    } else if fee >= p.p50 {
        50
    } else if fee >= p.p25 {
        25
    } else {
        10
    }
}

proof fn lemma_index_monotone(len: nat, k1: nat, k2: nat)
    requires
        k1 <= k2,
        k2 < 100,
        len > 0,
    ensures
        percentile_index(len, k1) <= percentile_index(len, k2),
        percentile_index(len, k2) < len,
{
    assert(len * k1 <= len * k2) by (nonlinear_arith)
        requires
            k1 <= k2,
    ;
    lemma_div_is_ordered((len * k1) as int, (len * k2) as int, 100);
    lemma_fundamental_div_mod((len * k2) as int, 100);
    assert(len * k2 / 100 < len) by (nonlinear_arith)
        requires
            len * k2 == 100 * (len * k2 / 100) + (len * k2) % 100,
            (len * k2) % 100 >= 0,
            k2 < 100,
            len > 0,
    ;
}

/// For a non-empty distribution the percentiles are ordered,
/// `p25 <= p50 <= p75 <= p90`, and each of them is one of the fees.
pub proof fn lemma_percentiles_ordered(fees: Seq<u128>)
    requires
        fees.len() > 0,
    ensures
        percentiles_of(fees).p25 <= percentiles_of(fees).p50,
        percentiles_of(fees).p50 <= percentiles_of(fees).p75,
        percentiles_of(fees).p75 <= percentiles_of(fees).p90,
        fees.contains(percentiles_of(fees).p25),
        fees.contains(percentiles_of(fees).p50),
        fees.contains(percentiles_of(fees).p75),
        fees.contains(percentiles_of(fees).p90),
{
    let n = fees.len();
    let s = sorted_fees(fees);
    lemma_sorted_fees(fees);
    lemma_index_monotone(n, 25, 50);
    lemma_index_monotone(n, 50, 75);
    lemma_index_monotone(n, 75, 90);
    let i25 = percentile_index(n, 25) as int;
    let i50 = percentile_index(n, 50) as int;
    let i75 = percentile_index(n, 75) as int;
    let i90 = percentile_index(n, 90) as int;
    assert(i25 == i50 || fee_le()(s[i25], s[i50]));
    assert(i50 == i75 || fee_le()(s[i50], s[i75]));
    assert(i75 == i90 || fee_le()(s[i75], s[i90]));
    assert(s.contains(s[i25]));
    assert(s.contains(s[i50]));
    assert(s.contains(s[i75]));
    assert(s.contains(s[i90]));
}

} // verus!
