//! `check`: every endpoint once, in order, with captured values flowing on.

use vstd::prelude::*;

use crate::runner::RequestResult;
use crate::stats::{count_passed, passed_count};

verus! {

/// Outcome of a `check` run: one result per endpoint plus a summary.
pub struct CheckResult {
    pub results: Vec<RequestResult>,
    pub passed: u32,
    pub total: u32,
}

impl CheckResult {
    /// The summary of the results of a check run.
    pub fn from_results(results: Vec<RequestResult>) -> (c: CheckResult)
        ensures
            c.results@ == results@,
            c.passed == count_passed(results@) as u32,
            c.total == results@.len() as u32,
    {
        let passed = passed_count(&results);
        let total = results.len();
        CheckResult { results, passed: passed as u32, total: total as u32 }
    }
}

} // verus!
