//! The shapes that the JavaScript bindings exchange, and their conversions
//! from and to the library's own types.

use vstd::prelude::*;

use crate::commands::check::CheckResult;
use crate::commands::run::RunConfig;
use crate::commands::seed::{SeedConfig, SeedResult};
use crate::commands::stress::StressConfig;
use crate::config::BlastConfig;
use crate::runner::RequestResult;

verus! {

/// Outcome of hitting a single endpoint once.
pub struct JsEndpointResult {
    pub name: String,
    pub method: String,
    pub path: String,
    /// The configured `expect_status`, if the endpoint declared one.
    pub expected_status: Option<u32>,
    /// `0` when the request never reached the server (network error).
    pub actual_status: u32,
    pub latency_ms: u32,
    pub passed: bool,
    /// Response body (or network error) on failure; absent on success.
    pub error: Option<String>,
}

/// Result of a `check` run: one entry per endpoint plus a summary count.
pub struct JsCheckResult {
    pub results: Vec<JsEndpointResult>,
    pub passed: u32,
    pub total: u32,
}

/// Options for a fixed-rate load test.
pub struct JsRunOptions {
    pub config_path: String,
    pub rps: u32,
    pub duration: u32,
}

/// Options for a seed run.
pub struct JsSeedOptions {
    pub config_path: String,
    pub count: u32,
    pub concurrency: u32,
}

/// Summary of a seed run.
pub struct JsSeedResult {
    pub iterations: u32,
    pub passed: u32,
    pub total_requests: u32,
}

/// Options for a stress ramp.
pub struct JsStressOptions {
    pub config_path: String,
    pub min_rps: u32,
    pub max_rps: u32,
    pub step: u32,
    pub step_duration: u32,
}

/// `e` carries `r` as the bindings show it.
pub open spec fn shows_result(e: JsEndpointResult, r: RequestResult) -> bool {
    &&& e.name@ == r.endpoint_name@
    &&& e.method@ == r.method@
    &&& e.path@ == r.path@
    &&& e.expected_status == match r.expected_status {
        Some(s) => Some(s as u32),
        None => None,
    }
    &&& e.actual_status == r.actual_status as u32
    &&& e.latency_ms == r.latency_ms as u32
    &&& e.passed == r.passed
    &&& e.error == r.error
}

impl JsEndpointResult {
    /// The bindings' form of a request result; the latency is cut to 32 bits.
    pub fn from_result(r: RequestResult) -> (e: JsEndpointResult)
        ensures
            shows_result(e, r),
    {
        let ghost r0 = r;
        JsEndpointResult {
            name: r.endpoint_name,
            method: r.method,
            path: r.path,
            expected_status: match r.expected_status {
                Some(s) => Some(s as u32),
                None => None,
            },
            actual_status: r.actual_status as u32,
            latency_ms: r.latency_ms as u32,
            passed: r.passed,
            error: r.error,
        }
    }
}

impl JsCheckResult {
    /// The bindings' form of a check result.
    pub fn from_check(c: CheckResult) -> (j: JsCheckResult)
        ensures
            j.passed == c.passed,
            j.total == c.total,
            j.results@.len() == c.results@.len(),
            forall|i: int|
                0 <= i < j.results@.len() ==> shows_result(#[trigger] j.results@[i], c.results@[i]),
    {
        let CheckResult { results, passed, total } = c;
        let ghost rs = results@;
        let mut out: Vec<JsEndpointResult> = Vec::new();
        let mut results = results;
        let n = results.len();
        assert(rs.len() == n);
        let mut k: usize = 0;
        while results.len() > 0
            invariant
                k + results@.len() == rs.len(),
                rs.len() <= usize::MAX,
                results@ == rs.subrange(k as int, rs.len() as int),
                out@.len() == k,
                forall|i: int| 0 <= i < k ==> shows_result(#[trigger] out@[i], rs[i]),
            decreases results@.len(),
        {
            let r = results.remove(0);
            assert(r == rs[k as int]);
            out.push(JsEndpointResult::from_result(r));
            assert(results@ =~= rs.subrange(k + 1, rs.len() as int));
            k = k + 1;
        }
        JsCheckResult { results: out, passed, total }
    }
}

impl JsSeedResult {
    /// The bindings' form of a seed result.
    pub fn from_seed(s: &SeedResult) -> (j: JsSeedResult)
        ensures
            j.iterations == s.iterations,
            j.passed == s.passed,
            j.total_requests == s.total_requests,
    {
        JsSeedResult { iterations: s.iterations, passed: s.passed, total_requests: s.total_requests }
    }
}

impl JsRunOptions {
    /// The inputs of the load test that these options ask for.
    pub fn to_run_config(&self, config: BlastConfig) -> (c: RunConfig)
        ensures
            c.config == config,
            c.rps == self.rps,
            c.duration == self.duration as u64,
    {
        RunConfig { config, rps: self.rps, duration: self.duration as u64 }
    }
}

impl JsSeedOptions {
    /// The inputs of the seed run that these options ask for.
    pub fn to_seed_config(&self, config: BlastConfig) -> (c: SeedConfig)
        ensures
            c.config == config,
            c.count == self.count,
            c.concurrency == self.concurrency as usize,
    {
        SeedConfig { config, count: self.count, concurrency: self.concurrency as usize }
    }
}

impl JsStressOptions {
    /// The inputs of the stress ramp that these options ask for.
    pub fn to_stress_config(&self, config: BlastConfig) -> (c: StressConfig)
        ensures
            c.config == config,
            c.min_rps == self.min_rps as u64,
            c.max_rps == self.max_rps as u64,
            c.step == self.step as u64,
            c.step_duration == self.step_duration as u64,
    {
        StressConfig {
            config,
            min_rps: self.min_rps as u64,
            max_rps: self.max_rps as u64,
            step: self.step as u64,
            step_duration: self.step_duration as u64,
        }
    }
}

} // verus!
