//! `run`: a fixed request rate for a fixed duration, round robin over the
//! `run` endpoints, with a progress report once per elapsed second.

use vstd::prelude::*;

use crate::config::BlastConfig;
use crate::runner::RequestResult;
use crate::stats::{
    count_passed, latency_percentile, latency_quantile, passed_count, percentile, quantile,
    sorted_latencies_of,
};

verus! {

/// Inputs for a fixed-rate load test.
pub struct RunConfig {
    pub config: BlastConfig,
    pub rps: u32,
    pub duration: u64,
}

/// Live snapshot emitted once per elapsed second while a run is in flight.
#[derive(Debug, Clone, Copy)]
pub struct RunProgress {
    pub elapsed_secs: u64,
    pub sent: u32,
    pub success: u32,
    pub p99: u32,
}

/// The counts and latency percentiles of a finished run.
#[derive(Debug, Clone, Copy)]
pub struct RunStats {
    pub total: usize,
    pub passed: usize,
    pub p50: u32,
    pub p95: u32,
    pub p99: u32,
    pub p999: u32,
    pub duration_secs: u32,
}

/// The time between two requests at `rps` requests per second, in whole milliseconds.
pub fn tick_interval_ms(rps: u64) -> (ms: u64)
    requires
        rps > 0,
    ensures
        ms == 1000u64 / rps,
{
    1000 / rps
}

/// A run is over once the whole seconds elapsed reach its duration (a
/// duration of whole seconds is reached exactly then).
pub fn time_is_up(elapsed_secs: u64, duration_secs: u64) -> (r: bool)
    ensures
        r == (elapsed_secs >= duration_secs),
{
    elapsed_secs >= duration_secs
}

/// Picks endpoints in turn: the `k`-th pick is endpoint `k % count`.
pub struct RoundRobin {
    count: usize,
    next: usize,
    picks: Ghost<nat>,
}

impl RoundRobin {
    #[verifier::type_invariant]
    spec fn consistent(self) -> bool {
        &&& self.count > 0
        &&& self.next == self.picks@ % (self.count as nat)
    }

    /// How many endpoints take turns.
    pub closed spec fn count(self) -> nat {
        self.count as nat
    }

    /// How many picks were made.
    pub closed spec fn picks(self) -> nat {
        self.picks@
    }

    /// A fresh rotation over `count > 0` endpoints.
    pub fn new(count: usize) -> (r: RoundRobin)
        requires
            count > 0,
        ensures
            r.count() == count,
            r.picks() == 0,
    {
        assert(0nat % (count as nat) == 0) by (nonlinear_arith)
            requires
                count > 0,
        ;
        RoundRobin { count, next: 0, picks: Ghost(0) }
    }

    /// The endpoint whose turn it is.
    pub fn pick(&mut self) -> (i: usize)
        ensures
            final(self).count() == old(self).count(),
            final(self).picks() == old(self).picks() + 1,
            i == old(self).picks() % old(self).count(),
            i < old(self).count(),
    {
        proof {
            use_type_invariant(&*self);
        }
        let i = self.next;
        let n = if self.next + 1 == self.count {
            0
        } else {
            self.next + 1
        };
        proof {
            let p = self.picks@;
            let c = self.count as nat;
            assert((p + 1) % c == if p % c + 1 == c {
                0
            } else {
                p % c + 1
            }) by (nonlinear_arith)
                requires
                    c > 0,
            ;
        }
        *self = RoundRobin { count: self.count, next: n, picks: Ghost(self.picks@ + 1) };
        i
    }
}

/// What a run does on a tick.
pub enum TickAction {
    /// The duration is over: stop sending.
    Stop,
    /// Send to endpoint `endpoint`, after a progress report when `report` holds.
    Fire { report: bool, endpoint: usize },
}

/// What one tick does to a run: once `elapsed_secs` reaches the duration it
/// stops and the run stays as it was; before that it fires at the endpoint
/// whose turn it is, with a progress report exactly when a new second has
/// begun since the last report, which then becomes the last reported second.
pub open spec fn tick_step(before: LoadRun, elapsed_secs: u64, after: LoadRun, a: TickAction) -> bool {
    &&& elapsed_secs >= before.duration_secs ==> (a is Stop && after == before)
    &&& elapsed_secs < before.duration_secs ==> ({
        &&& a matches TickAction::Fire { report, endpoint }
        &&& report == (elapsed_secs > before.last_print)
        &&& endpoint == before.turns.picks() % before.turns.count()
        &&& after.last_print == if report {
            elapsed_secs
        } else {
            before.last_print
        }
        &&& after.turns.picks() == before.turns.picks() + 1
        &&& after.turns.count() == before.turns.count()
        &&& after.duration_secs == before.duration_secs
    })
}

/// A tick that sends a progress report.
pub open spec fn reports(a: TickAction) -> bool {
    a matches TickAction::Fire { report, .. } && report
}

/// The state of a running load test: its duration, the last second that
/// was reported, and whose turn it is.
pub struct LoadRun {
    pub duration_secs: u64,
    pub last_print: u64,
    pub turns: RoundRobin,
}

impl LoadRun {
    /// A load test over `count > 0` endpoints for `duration_secs` seconds.
    pub fn new(count: usize, duration_secs: u64) -> (r: LoadRun)
        requires
            count > 0,
        ensures
            r.duration_secs == duration_secs,
            r.last_print == 0,
            r.turns.count() == count,
            r.turns.picks() == 0,
    {
        LoadRun { duration_secs, last_print: 0, turns: RoundRobin::new(count) }
    }

    /// The decision on a tick that comes `elapsed_secs` whole seconds after
    /// the start: stop once the duration is reached; otherwise report
    /// progress when a new second has begun since the last report, and send
    /// to the next endpoint in turn.
    pub fn on_tick(&mut self, elapsed_secs: u64) -> (a: TickAction)
        ensures
            tick_step(*old(self), elapsed_secs, *final(self), a),
    {
        if time_is_up(elapsed_secs, self.duration_secs) {
            return TickAction::Stop;
        }
        let report = elapsed_secs > self.last_print;
        if report {
            self.last_print = elapsed_secs;
        }
        let endpoint = self.turns.pick();
        TickAction::Fire { report, endpoint }
    }
}

/// The progress report after `elapsed_secs` seconds, over the results so far.
pub fn progress_snapshot(elapsed_secs: u64, results: &Vec<RequestResult>) -> (p: RunProgress)
    ensures
        p.elapsed_secs == elapsed_secs,
        p.sent == results@.len() as u32,
        p.success == count_passed(results@) as u32,
        p.p99 == latency_percentile(results@, 99),
{
    let success = passed_count(results);
    let sorted = sorted_latencies_of(results);
    let p99 = percentile(sorted.as_slice(), 99);
    RunProgress {
        elapsed_secs,
        sent: results.len() as u32,
        success: success as u32,
        p99: p99 as u32,
    }
}

/// The statistics of a finished run of `duration_secs` seconds: p50, p95
/// and p99 are percentiles of the latencies, p999 their 99.9th percentile.
pub fn run_stats(results: &Vec<RequestResult>, duration_secs: u64) -> (s: RunStats)
    ensures
        s.total == results@.len(),
        s.passed == count_passed(results@),
        s.p50 == latency_percentile(results@, 50),
        s.p95 == latency_percentile(results@, 95),
        s.p99 == latency_percentile(results@, 99),
        s.p999 == latency_quantile(results@, 999, 1000),
        s.duration_secs == duration_secs as u32,
{
    let passed = passed_count(results);
    let sorted = sorted_latencies_of(results);
    RunStats {
        total: results.len(),
        passed,
        p50: percentile(sorted.as_slice(), 50) as u32,
        p95: percentile(sorted.as_slice(), 95) as u32,
        p99: percentile(sorted.as_slice(), 99) as u32,
        p999: quantile(sorted.as_slice(), 999, 1000) as u32,
        duration_secs: duration_secs as u32,
    }
}

/// The statistics of a run with no endpoints to target.
pub fn empty_run_stats(duration_secs: u64) -> (s: RunStats)
    ensures
        s.total == 0 && s.passed == 0,
        s.p50 == 0 && s.p95 == 0 && s.p99 == 0 && s.p999 == 0,
        s.duration_secs == duration_secs as u32,
{
    RunStats { total: 0, passed: 0, p50: 0, p95: 0, p99: 0, p999: 0, duration_secs: duration_secs as u32 }
}

} // verus!
