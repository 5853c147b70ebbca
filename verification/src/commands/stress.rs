//! `stress`: the request rate ramps from `min_rps` to `max_rps` in steps of
//! `step`, each held for `step_duration` seconds, and stops at the first step
//! whose p99 latency exceeds 500 ms or whose error rate exceeds 1 %.

use vstd::prelude::*;

use crate::config::BlastConfig;
use crate::runner::RequestResult;
use crate::stats::{
    count_passed, latencies_of, latency_percentile, passed_count, percentile, sorted_latencies,
    sorted_latencies_of, spec_percentile,
};

verus! {

/// Inputs for a stress run.
pub struct StressConfig {
    pub config: BlastConfig,
    pub min_rps: u64,
    pub max_rps: u64,
    pub step: u64,
    pub step_duration: u64,
}

/// The outcome of one step of the ramp.
#[derive(Debug, Clone, Copy)]
pub struct StepOutcome {
    pub rps: u32,
    pub requests: u32,
    /// Requests that passed, and all requests, uncut.
    pub passed: usize,
    pub total: usize,
    pub p50: u32,
    pub p95: u32,
    pub p99: u32,
    pub errors: u32,
    pub broke: bool,
}

/// A step breaks the API when its p99 latency exceeds 500 ms or more than
/// 1 % of its requests failed.
pub open spec fn breaks(p99: u128, failed: nat, total: nat) -> bool {
    p99 > 500 || (total > 0 && failed * 100 > total)
}

/// The unrounded p99 latency of a list of results.
pub open spec fn raw_p99(rs: Seq<RequestResult>) -> u128 {
    spec_percentile(sorted_latencies(latencies_of(rs)), 99)
}

/// The outcome of a step held at `rps` requests per second, from the
/// results of its requests.
pub fn step_outcome(rps: u64, results: &Vec<RequestResult>) -> (o: StepOutcome)
    ensures
        o.rps == rps as u32,
        o.requests == results@.len() as u32,
        o.passed == count_passed(results@),
        o.total == results@.len(),
        o.errors == (results@.len() - count_passed(results@)) as u32,
        o.p50 == latency_percentile(results@, 50),
        o.p95 == latency_percentile(results@, 95),
        o.p99 == latency_percentile(results@, 99),
        o.broke == breaks(
            raw_p99(results@),
            (results@.len() - count_passed(results@)) as nat,
            results@.len(),
        ),
        (forall|i: int| 0 <= i < results@.len() ==> (#[trigger] results@[i]).latency_ms <= u32::MAX)
            ==> (o.broke <==> (o.p99 > 500 || (o.total > 0 && (o.total - o.passed) * 100
            > o.total))),
{
    let total = results.len();
    let passed = passed_count(results);
    let failed = total - passed;
    let sorted = sorted_latencies_of(results);
    let p50 = percentile(sorted.as_slice(), 50);
    let p95 = percentile(sorted.as_slice(), 95);
    let p99 = percentile(sorted.as_slice(), 99);
    let broke = p99 > 500 || (total > 0 && (failed as u128) * 100 > total as u128);
    proof {
        if forall|i: int| 0 <= i < results@.len() ==> (#[trigger] results@[i]).latency_ms
            <= u32::MAX {
            crate::laws::law_step_breaks_on_reported_p99(results@);
        }
    }
    StepOutcome {
        rps: rps as u32,
        requests: total as u32,
        passed,
        total,
        p50: p50 as u32,
        p95: p95 as u32,
        p99: p99 as u32,
        errors: failed as u32,
        broke,
    }
}

/// The ramp: the rate of the next step, the outcomes so far, and the
/// breaking point once one is found.
pub struct StressRamp {
    current: u64,
    max: u64,
    step: u64,
    min: Ghost<u64>,
    steps: Vec<StepOutcome>,
    breaking_point: Option<u32>,
}

impl StressRamp {
    pub closed spec fn current(self) -> u64 {
        self.current
    }

    pub closed spec fn max_rps(self) -> u64 {
        self.max
    }

    pub closed spec fn step(self) -> u64 {
        self.step
    }

    pub closed spec fn min_rps(self) -> u64 {
        self.min@
    }

    pub closed spec fn steps(self) -> Seq<StepOutcome> {
        self.steps@
    }

    pub closed spec fn breaking_point(self) -> Option<u32> {
        self.breaking_point
    }

    /// The ramp goes on: no breaking point yet, and the next rate is within the maximum.
    pub open spec fn running(self) -> bool {
        self.breaking_point() is None && self.current() <= self.max_rps()
    }

    /// The ramp is consistent: step `i` ran at `min + i * step`, which is at
    /// most the maximum rate; only the last step may have broken, and then it
    /// is the breaking point; while there is none, the next rate is
    /// `min + steps * step`.
    pub closed spec fn wf(self) -> bool {
        &&& forall|i: int|
            0 <= i < self.steps@.len() ==> (#[trigger] self.steps@[i]).rps == (self.min@ + i
                * self.step) as u32
        &&& forall|i: int|
            0 <= i < self.steps@.len() ==> #[trigger] (self.min@ + i * self.step) <= self.max
        &&& forall|i: int|
            0 <= i < self.steps@.len() - 1 ==> !(#[trigger] self.steps@[i]).broke
        &&& (self.breaking_point is Some <==> (self.steps@.len() > 0 && self.steps@.last().broke))
        &&& (self.breaking_point matches Some(b) ==> b == self.steps@.last().rps)
        &&& (self.breaking_point is None ==> self.current == self.min@ + self.steps@.len()
            * self.step)
    }

    /// What every consistent ramp satisfies.
    pub proof fn lemma_ramp(self)
        requires
            self.wf(),
        ensures
            forall|i: int|
                0 <= i < self.steps().len() ==> (#[trigger] self.steps()[i]).rps == (
                self.min_rps() + i * self.step()) as u32,
            forall|i: int|
                0 <= i < self.steps().len() ==> #[trigger] (self.min_rps() + i * self.step())
                    <= self.max_rps(),
            forall|i: int| 0 <= i < self.steps().len() - 1 ==> !(#[trigger] self.steps()[i]).broke,
            self.breaking_point() is Some <==> (self.steps().len() > 0 && self.steps().last().broke),
            self.breaking_point() matches Some(b) ==> b == self.steps().last().rps,
            self.breaking_point() is None ==> self.current() == self.min_rps() + self.steps().len()
                * self.step(),
    {
    }

    /// A ramp from `min_rps` to `max_rps` in steps of `step`, with no step run yet.
    pub fn new(min_rps: u64, max_rps: u64, step: u64) -> (r: StressRamp)
        ensures
            r.wf(),
            r.current() == min_rps,
            r.min_rps() == min_rps,
            r.max_rps() == max_rps,
            r.step() == step,
            r.steps().len() == 0,
            r.breaking_point() is None,
    {
        StressRamp {
            current: min_rps,
            max: max_rps,
            step,
            min: Ghost(min_rps),
            steps: Vec::new(),
            breaking_point: None,
        }
    }

    /// The rate of the next step, or `None` once the ramp is over: after a
    /// breaking point, or past the maximum rate.
    pub fn next_rps(&self) -> (r: Option<u64>)
        ensures
            r matches Some(c) ==> self.running() && c == self.current(),
            r is None ==> !self.running(),
    {
        if self.breaking_point.is_none() && self.current <= self.max {
            Some(self.current)
        } else {
            None
        }
    }

    /// The rate of the next step.
    pub fn current_rps(&self) -> (r: u64)
        ensures
            r == self.current(),
    {
        self.current
    }

    /// The increment between two steps.
    pub fn step_rps(&self) -> (r: u64)
        ensures
            r == self.step(),
    {
        self.step
    }

    /// Records the outcome of the step just run at the current rate: a
    /// broken step becomes the breaking point and ends the ramp; otherwise
    /// the rate goes up by `step`.
    pub fn record(&mut self, outcome: StepOutcome)
        requires
            old(self).wf(),
            old(self).running(),
            outcome.rps == old(self).current() as u32,
            outcome.broke || old(self).current() + old(self).step() <= u64::MAX,
        ensures
            final(self).wf(),
            final(self).steps() == old(self).steps().push(outcome),
            final(self).min_rps() == old(self).min_rps(),
            final(self).max_rps() == old(self).max_rps(),
            final(self).step() == old(self).step(),
            outcome.broke ==> final(self).breaking_point() == Some(outcome.rps),
            !outcome.broke ==> final(self).breaking_point() is None && final(self).current()
                == old(self).current() + old(self).step(),
    {
        let ghost len = self.steps@.len();
        self.steps.push(outcome);
        if outcome.broke {
            self.breaking_point = Some(outcome.rps);
        } else {
            proof {
                let m = self.min@ as int;
                let s = self.step as int;
                assert(m + (len + 1) * s == m + len * s + s) by (nonlinear_arith);
            }
            self.current = self.current + self.step;
        }
    }

    /// The outcomes of all steps run, and the breaking point if one was found.
    pub fn finish(self) -> (r: (Vec<StepOutcome>, Option<u32>))
        ensures
            r.0@ == self.steps(),
            r.1 == self.breaking_point(),
    {
        (self.steps, self.breaking_point)
    }
}

} // verus!
