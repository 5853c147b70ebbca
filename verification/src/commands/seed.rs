//! `seed`: the seed endpoints, `count` times over, each pass with its own context.

use vstd::prelude::*;

use crate::config::BlastConfig;
use crate::runner::RequestResult;

verus! {

/// Inputs for a seed run.
pub struct SeedConfig {
    pub config: BlastConfig,
    pub count: u32,
    pub concurrency: usize,
}

/// Summary of a seed run.
#[derive(Debug)]
pub struct SeedResult {
    pub iterations: u32,
    pub passed: u32,
    pub total_requests: u32,
}

/// One full pass over the seed endpoints.
pub struct IterationResult {
    pub passed: bool,
    pub requests: usize,
}

/// The number of passes that passed.
pub open spec fn count_iterations_passed(rs: Seq<IterationResult>) -> nat
    decreases rs.len(),
{
    if rs.len() == 0 {
        0
    } else {
        count_iterations_passed(rs.drop_last()) + if rs.last().passed {
            1nat
        } else {
            0nat
        }
    }
}

/// The number of requests of all passes together.
pub open spec fn sum_requests(rs: Seq<IterationResult>) -> nat
    decreases rs.len(),
{
    if rs.len() == 0 {
        0
    } else {
        sum_requests(rs.drop_last()) + (rs.last().requests as nat)
    }
}

/// A pass passes when every one of its requests passed.
pub fn iteration_passed(so_far: bool, result: &RequestResult) -> (r: bool)
    ensures
        r == (so_far && result.passed),
{
    so_far && result.passed
}

impl SeedResult {
    /// The summary of a seed run with no endpoints to seed.
    pub fn empty() -> (r: SeedResult)
        ensures
            r.iterations == 0 && r.passed == 0 && r.total_requests == 0,
    {
        SeedResult { iterations: 0, passed: 0, total_requests: 0 }
    }

    /// The summary of the passes of a seed run.
    pub fn summarize(results: &Vec<IterationResult>) -> (r: SeedResult)
        ensures
            r.iterations == results@.len() as u32,
            r.passed == count_iterations_passed(results@) as u32,
            r.total_requests == sum_requests(results@) as u32,
    {
        let mut passed: usize = 0;
        let mut total: u128 = 0;
        let mut i: usize = 0;
        while i < results.len()
            invariant
                0 <= i <= results@.len(),
                passed == count_iterations_passed(results@.subrange(0, i as int)),
                passed <= i,
                total == sum_requests(results@.subrange(0, i as int)),
                total <= i * 0x1_0000_0000_0000_0000,
            decreases results.len() - i,
        {
            assert(results@.subrange(0, i + 1).drop_last() =~= results@.subrange(0, i as int));
            if results[i].passed {
                passed = passed + 1;
            }
            assert((i + 1) * 0x1_0000_0000_0000_0000 == i * 0x1_0000_0000_0000_0000
                + 0x1_0000_0000_0000_0000) by (nonlinear_arith);
            assert(i * 0x1_0000_0000_0000_0000 <= 0xffff_ffff_ffff_ffff * 0x1_0000_0000_0000_0000)
                by (nonlinear_arith)
                requires
                    i <= 0xffff_ffff_ffff_ffff,
            ;
            total = total + results[i].requests as u128;
            i = i + 1;
        }
        assert(results@.subrange(0, i as int) =~= results@);
        SeedResult { iterations: results.len() as u32, passed: passed as u32, total_requests: total as u32 }
    }
}

} // verus!
