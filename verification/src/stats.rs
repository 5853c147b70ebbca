//! Latency and pass statistics over the results of many requests.

use vstd::prelude::*;
use vstd::relations::{sorted_by, total_ordering};

use crate::runner::RequestResult;

verus! {

/// The ascending order on latencies.
pub open spec fn ascending() -> spec_fn(u128, u128) -> bool {
    |x: u128, y: u128| x <= y
}

pub proof fn lemma_ascending_total()
    ensures
        total_ordering(ascending()),
{
}

/// The latencies of `s` in ascending order.
pub open spec fn sorted_latencies(s: Seq<u128>) -> Seq<u128> {
    s.sort_by(ascending())
}

/// `slice::sort_unstable` on latencies: the result holds the same values,
/// in ascending order.
#[verifier::external_body]
fn sort_unstable(v: &mut Vec<u128>)
    ensures
        final(v)@.to_multiset() == old(v)@.to_multiset(),
        sorted_by(final(v)@, ascending()),
{
    v.sort_unstable();
}

/// Sorts latencies in ascending order.
pub fn sort_latencies(v: &mut Vec<u128>)
    ensures
        final(v)@ == sorted_latencies(old(v)@),
{
    let ghost before = v@;
    sort_unstable(v);
    proof {
        lemma_ascending_total();
        before.lemma_sort_by_ensures(ascending());
        vstd::seq_lib::lemma_sorted_unique(v@, sorted_latencies(before), ascending());
    }
}

/// The position that the quantile `num / den` reads in a sorted list of
/// `len > 0` values: `num * len / den`, capped at the last position.
pub open spec fn quantile_index(len: nat, num: nat, den: nat) -> nat {
    if num * len / den < len {
        num * len / den
    } else {
        (len - 1) as nat
    }
}

/// The quantile `num / den` of ascending values; 0 when there are none.
pub open spec fn spec_quantile(sorted: Seq<u128>, num: nat, den: nat) -> u128 {
    if sorted.len() == 0 {
        0
    } else {
        sorted[quantile_index(sorted.len(), num, den) as int]
    }
}

/// The position that percentile `p` reads: the quantile `p / 100`.
pub open spec fn percentile_index(len: nat, p: nat) -> nat {
    quantile_index(len, p, 100)
}

/// Percentile `p` of ascending values; 0 when there are none.
pub open spec fn spec_percentile(sorted: Seq<u128>, p: nat) -> u128 {
    spec_quantile(sorted, p, 100)
}

proof fn lemma_whole_quantile(num: nat, den: nat, len: nat)
    requires
        num >= den,
        den > 0,
    ensures
        num * len / den >= len,
{
    assert(num * len >= den * len) by (nonlinear_arith)
        requires
            num >= den,
    ;
    assert((den * len) / den == len) by (nonlinear_arith)
        requires
            den > 0,
    ;
    assert(num * len / den >= (den * len) / den) by (nonlinear_arith)
        requires
            num * len >= den * len,
            den > 0,
    ;
}

/// The quantile `num / den` of the ascending values `sorted`: the value at
/// position `num * len / den` (rounded down, in exact integers), or the last
/// value when that is past the end, or 0 for no values.
pub(crate) fn quantile(sorted: &[u128], num: usize, den: usize) -> (r: u128)
    requires
        den > 0,
    ensures
        r == spec_quantile(sorted@, num as nat, den as nat),
{
    let len = sorted.len();
    if len == 0 {
        return 0;
    }
    if num >= den {
        proof {
            lemma_whole_quantile(num as nat, den as nat, len as nat);
        }
        return sorted[len - 1];
    }
    assert((num as nat) * (len as nat) <= (den as nat) * (len as nat)) by (nonlinear_arith)
        requires
            num < den,
    ;
    assert((den as nat) * (len as nat) <= (usize::MAX as nat) * (usize::MAX as nat))
        by (nonlinear_arith)
        requires
            den <= usize::MAX,
            len <= usize::MAX,
    ;
    assert((usize::MAX as nat) * (usize::MAX as nat) <= u128::MAX) by (nonlinear_arith)
        requires
            usize::MAX <= u64::MAX,
    ;
    let prod: u128 = (num as u128) * (len as u128);
    let index = prod / (den as u128);
    if index < len as u128 {
        sorted[index as usize]
    } else {
        sorted[len - 1]
    }
}

/// Percentile `p` of the ascending values `sorted`: the value at position
/// `p * len / 100`, or the last value when that is past the end, or 0 for
/// no values.
///
/// The position is computed in exact integers. Computing it in floating
/// point, as `(p / 100.0) * len` truncated, gives the same position for the
/// percentiles that the reports use (50, 95 and 99) at every length below
/// 2^50, since `0.5` is exact and the nearest doubles to `0.95` and `0.99`
/// err by less than half a unit in the last place; for other `p` the two can
/// differ (`p = 29`, `len = 100`: 29 here, 28 in floating point). The
/// function is therefore kept to this crate, whose callers pass only 50, 95
/// and 99.
pub(crate) fn percentile(sorted: &[u128], p: usize) -> (r: u128)
    ensures
        r == spec_percentile(sorted@, p as nat),
{
    quantile(sorted, p, 100)
}

/// The number of passed results.
pub open spec fn count_passed(rs: Seq<RequestResult>) -> nat
    decreases rs.len(),
{
    if rs.len() == 0 {
        0
    } else {
        count_passed(rs.drop_last()) + if rs.last().passed {
            1nat
        } else {
            0nat
        }
    }
}

pub proof fn lemma_count_passed_bound(rs: Seq<RequestResult>)
    ensures
        count_passed(rs) <= rs.len(),
    decreases rs.len(),
{
    if rs.len() > 0 {
        lemma_count_passed_bound(rs.drop_last());
    }
}

/// The number of results that passed.
pub fn passed_count(results: &Vec<RequestResult>) -> (n: usize)
    ensures
        n == count_passed(results@),
        n <= results@.len(),
{
    let mut n: usize = 0;
    let mut i: usize = 0;
    while i < results.len()
        invariant
            0 <= i <= results@.len(),
            n == count_passed(results@.subrange(0, i as int)),
            n <= i,
        decreases results.len() - i,
    {
        assert(results@.subrange(0, i + 1).drop_last() =~= results@.subrange(0, i as int));
        if results[i].passed {
            n = n + 1;
        }
        i = i + 1;
    }
    assert(results@.subrange(0, i as int) =~= results@);
    n
}

/// The latencies of a list of results, in the same order.
pub open spec fn latencies_of(rs: Seq<RequestResult>) -> Seq<u128> {
    rs.map_values(|r: RequestResult| r.latency_ms)
}

/// The latencies of the results, in ascending order.
pub fn sorted_latencies_of(results: &Vec<RequestResult>) -> (v: Vec<u128>)
    ensures
        v@ == sorted_latencies(latencies_of(results@)),
{
    let mut v: Vec<u128> = Vec::new();
    let mut i: usize = 0;
    while i < results.len()
        invariant
            0 <= i <= results@.len(),
            v@ == latencies_of(results@.subrange(0, i as int)),
        decreases results.len() - i,
    {
        v.push(results[i].latency_ms);
        assert(latencies_of(results@.subrange(0, i + 1)) =~= latencies_of(
            results@.subrange(0, i as int),
        ).push(results@[i as int].latency_ms));
        i = i + 1;
    }
    assert(results@.subrange(0, i as int) =~= results@);
    sort_latencies(&mut v);
    v
}

/// The quantile `num / den` of the latencies of `rs`, cut to 32 bits as the
/// reports hold it.
pub open spec fn latency_quantile(rs: Seq<RequestResult>, num: nat, den: nat) -> u32 {
    spec_quantile(sorted_latencies(latencies_of(rs)), num, den) as u32
}

/// Percentile `p` of the latencies of `rs`, cut to 32 bits as the reports hold it.
pub open spec fn latency_percentile(rs: Seq<RequestResult>, p: nat) -> u32 {
    latency_quantile(rs, p, 100)
}

} // verus!
