use blast::commands::check::CheckResult;
use blast::runner::merged_headers;
use blast::commands::run::{
    empty_run_stats, progress_snapshot, run_stats, tick_interval_ms, time_is_up, LoadRun, RoundRobin,
    TickAction,
};
use blast::commands::seed::{iteration_passed, IterationResult, SeedResult};
use blast::commands::stress::{step_outcome, StressRamp};
use blast::config::{BlastConfig, Endpoint};
use blast::napi_bindings::{JsCheckResult, JsEndpointResult, JsRunOptions, JsSeedOptions, JsSeedResult, JsStressOptions};
use blast::runner::RequestResult;
use blast::strmap::StrMap;

fn map(pairs: &[(&str, &str)]) -> StrMap {
    StrMap::from_pairs(pairs.iter().map(|(k, v)| (k.to_string(), v.to_string())).collect())
}

fn res(passed: bool, latency: u128) -> RequestResult {
    RequestResult {
        endpoint_name: "e".to_string(),
        method: "GET".to_string(),
        path: "/".to_string(),
        expected_status: None,
        actual_status: if passed { 200 } else { 500 },
        latency_ms: latency,
        passed,
        error: None,
        body: None,
    }
}

fn ep(headers: Option<StrMap>) -> Endpoint {
    Endpoint {
        name: "e".to_string(),
        method: "GET".to_string(),
        path: "/".to_string(),
        headers,
        body: None,
        expect_status: None,
        extract: None,
        tags: None,
    }
}

#[test]
fn percentile_of_sorted() {
    // latencies given out of order; the percentiles read the sorted list
    let results: Vec<RequestResult> = (1..=100u128).rev().map(|l| res(true, l)).collect();
    let o = step_outcome(10, &results);
    assert_eq!((o.p50, o.p95, o.p99), (51, 96, 100));
    let none = step_outcome(10, &vec![]);
    assert_eq!((none.p50, none.p95, none.p99), (0, 0, 0));
    let one = step_outcome(10, &vec![res(true, 7)]);
    assert_eq!((one.p50, one.p95, one.p99), (7, 7, 7));
    let three = step_outcome(10, &vec![res(true, 3), res(true, 1), res(true, 2)]);
    assert_eq!(three.p50, 2);
}

#[test]
fn check_summary_counts() {
    let c = CheckResult::from_results(vec![res(true, 1), res(false, 2), res(true, 3)]);
    assert_eq!(c.passed, 2);
    assert_eq!(c.total, 3);
    assert_eq!(c.results.len(), 3);
    let j = JsCheckResult::from_check(c);
    assert_eq!(j.results.len(), 3);
    assert_eq!(j.results[1].actual_status, 500);
    assert!(!j.results[1].passed);
    assert_eq!(j.passed, 2);
}

#[test]
fn endpoint_headers_override_global() {
    let global = Some(map(&[("Content-Type", "application/json"), ("X-A", "g")]));
    let e = ep(Some(map(&[("X-A", "e"), ("X-B", "b")])));
    let m = merged_headers(&global, &e).unwrap();
    assert_eq!(m.len(), 3);
    assert_eq!(m.get(&"X-A".to_string()).unwrap(), "e");
    assert_eq!(m.get(&"Content-Type".to_string()).unwrap(), "application/json");
    assert_eq!(m.get(&"X-B".to_string()).unwrap(), "b");
    assert!(merged_headers(&None, &ep(None)).is_none());
    assert_eq!(merged_headers(&None, &e).unwrap().len(), 2);
    assert_eq!(merged_headers(&global, &ep(None)).unwrap().len(), 2);
}

#[test]
fn run_statistics() {
    let results = vec![res(true, 30), res(false, 10), res(true, 20), res(true, 40)];
    let s = run_stats(&results, 30);
    assert_eq!(s.total, 4);
    assert_eq!(s.passed, 3);
    assert_eq!(s.p50, 30);
    assert_eq!(s.p95, 40);
    assert_eq!(s.p99, 40);
    assert_eq!(s.p999, 40);
    assert_eq!(s.duration_secs, 30);
    assert!(s.p50 <= s.p95 && s.p95 <= s.p99 && s.p99 <= s.p999);
    let p = progress_snapshot(3, &results);
    assert_eq!((p.elapsed_secs, p.sent, p.success, p.p99), (3, 4, 3, 40));
    let e = empty_run_stats(9);
    assert_eq!((e.total, e.passed, e.p99, e.duration_secs), (0, 0, 0, 9));
}

#[test]
fn run_timing() {
    assert_eq!(tick_interval_ms(10), 100);
    assert_eq!(tick_interval_ms(3), 333);
    assert_eq!(tick_interval_ms(1000), 1);
    assert_eq!(tick_interval_ms(2000), 0);
    assert!(time_is_up(5, 5));
    assert!(!time_is_up(4, 5));
}

#[test]
fn round_robin_cycles() {
    let mut rr = RoundRobin::new(3);
    let picks: Vec<usize> = (0..7).map(|_| rr.pick()).collect();
    assert_eq!(picks, vec![0, 1, 2, 0, 1, 2, 0]);
}

#[test]
fn load_run_ticks() {
    let mut run = LoadRun::new(2, 2);
    match run.on_tick(0) {
        TickAction::Fire { report, endpoint } => assert_eq!((report, endpoint), (false, 0)),
        TickAction::Stop => panic!("stopped early"),
    }
    match run.on_tick(1) {
        TickAction::Fire { report, endpoint } => assert_eq!((report, endpoint), (true, 1)),
        TickAction::Stop => panic!("stopped early"),
    }
    match run.on_tick(1) {
        TickAction::Fire { report, endpoint } => assert_eq!((report, endpoint), (false, 0)),
        TickAction::Stop => panic!("stopped early"),
    }
    assert!(matches!(run.on_tick(2), TickAction::Stop));
}

#[test]
fn seed_summary() {
    assert!(iteration_passed(true, &res(true, 1)));
    assert!(!iteration_passed(true, &res(false, 1)));
    assert!(!iteration_passed(false, &res(true, 1)));
    let rs = vec![
        IterationResult { passed: true, requests: 3 },
        IterationResult { passed: false, requests: 3 },
        IterationResult { passed: true, requests: 3 },
    ];
    let s = SeedResult::summarize(&rs);
    assert_eq!((s.iterations, s.passed, s.total_requests), (3, 2, 9));
    let e = SeedResult::empty();
    assert_eq!((e.iterations, e.passed, e.total_requests), (0, 0, 0));
    let j = JsSeedResult::from_seed(&s);
    assert_eq!((j.iterations, j.passed, j.total_requests), (3, 2, 9));
}

#[test]
fn stress_step_breaks_on_latency_or_errors() {
    let fast_ok: Vec<RequestResult> = (0..100).map(|_| res(true, 100)).collect();
    assert!(!step_outcome(10, &fast_ok).broke);
    let mut one_error = fast_ok.clone_like();
    one_error[0] = res(false, 100);
    let o = step_outcome(10, &one_error);
    assert!(!o.broke); // exactly 1 % is not over 1 %
    assert_eq!(o.errors, 1);
    let mut two_errors = one_error.clone_like();
    two_errors[1] = res(false, 100);
    assert!(step_outcome(10, &two_errors).broke);
    let slow: Vec<RequestResult> = (0..10).map(|i| res(true, if i == 9 { 501 } else { 10 })).collect();
    let o = step_outcome(20, &slow);
    assert!(o.broke);
    assert_eq!(o.p99, 501);
    assert_eq!(o.rps, 20);
    assert!(!step_outcome(5, &vec![]).broke);
}

trait CloneLike {
    fn clone_like(&self) -> Self;
}

impl CloneLike for Vec<RequestResult> {
    fn clone_like(&self) -> Self {
        self.iter().map(|r| res(r.passed, r.latency_ms)).collect()
    }
}

#[test]
fn stress_ramp_stops_at_breaking_point() {
    let mut ramp = StressRamp::new(10, 40, 10);
    let mut seen = Vec::new();
    while let Some(rps) = ramp.next_rps() {
        seen.push(rps);
        let results: Vec<RequestResult> = if rps >= 30 {
            (0..10).map(|_| res(false, 10)).collect()
        } else {
            (0..10).map(|_| res(true, 10)).collect()
        };
        ramp.record(step_outcome(rps, &results));
    }
    assert_eq!(seen, vec![10, 20, 30]);
    let (steps, breaking_point) = ramp.finish();
    assert_eq!(steps.len(), 3);
    assert_eq!(breaking_point, Some(30));
    assert!(steps[2].broke && !steps[0].broke && !steps[1].broke);
}

#[test]
fn stress_ramp_holds_to_max() {
    let mut ramp = StressRamp::new(10, 30, 10);
    let mut count = 0;
    while let Some(rps) = ramp.next_rps() {
        count += 1;
        let results: Vec<RequestResult> = (0..5).map(|_| res(true, 5)).collect();
        ramp.record(step_outcome(rps, &results));
    }
    assert_eq!(count, 3);
    let (steps, breaking_point) = ramp.finish();
    assert_eq!(steps.iter().map(|s| s.rps).collect::<Vec<_>>(), vec![10, 20, 30]);
    assert_eq!(breaking_point, None);
}

#[test]
fn binding_conversions() {
    let r = RequestResult {
        endpoint_name: "n".to_string(),
        method: "GET".to_string(),
        path: "/p".to_string(),
        expected_status: Some(204),
        actual_status: 204,
        latency_ms: 17,
        passed: true,
        error: None,
        body: None,
    };
    let j = JsEndpointResult::from_result(r);
    assert_eq!(j.name, "n");
    assert_eq!(j.expected_status, Some(204));
    assert_eq!(j.latency_ms, 17);
    let run = JsRunOptions { config_path: "x".to_string(), rps: 5, duration: 7 }.to_run_config(BlastConfig::template());
    assert_eq!((run.rps, run.duration), (5, 7));
    let seed = JsSeedOptions { config_path: "x".to_string(), count: 4, concurrency: 2 }
        .to_seed_config(BlastConfig::template());
    assert_eq!((seed.count, seed.concurrency), (4, 2));
    let st = JsStressOptions { config_path: "x".to_string(), min_rps: 1, max_rps: 9, step: 2, step_duration: 3 }
        .to_stress_config(BlastConfig::template());
    assert_eq!((st.min_rps, st.max_rps, st.step, st.step_duration), (1, 9, 2, 3));
}

#[test]
fn p999_is_the_99_point_9th_percentile() {
    let results: Vec<RequestResult> = (1..=2000u128).map(|l| res(true, l)).collect();
    let s = run_stats(&results, 10);
    // position 999 * 2000 / 1000 = 1998 of the sorted latencies 1..=2000
    assert_eq!(s.p999, 1999);
    assert_eq!(s.p99, 1981);
    assert_eq!(s.p50, 1001);
    assert!(s.p999 < 2000);
    let few: Vec<RequestResult> = (1..=10u128).map(|l| res(true, l)).collect();
    assert_eq!(run_stats(&few, 1).p999, 10);
}

#[test]
fn p999_reads_position_999_n_over_1000() {
    let thousand: Vec<RequestResult> = (1..=1000u128).map(|l| res(true, l)).collect();
    let s = run_stats(&thousand, 1);
    assert_eq!((s.p50, s.p95, s.p99, s.p999), (501, 951, 991, 1000));
    let none = run_stats(&vec![], 1);
    assert_eq!(none.p999, 0);
}

#[test]
fn progress_reports_once_per_second() {
    let mut run = LoadRun::new(3, 4);
    let ticks = [0u64, 0, 1, 1, 1, 2, 2, 3, 3, 4, 5];
    let mut reported = Vec::new();
    let mut fired = 0;
    for t in ticks {
        match run.on_tick(t) {
            TickAction::Fire { report, endpoint } => {
                assert_eq!(endpoint, fired % 3);
                fired += 1;
                if report {
                    reported.push(t);
                }
            }
            TickAction::Stop => break,
        }
    }
    assert_eq!(reported, vec![1, 2, 3]);
    assert_eq!(fired, 9);
}

#[test]
fn progress_counts_grow() {
    let all = vec![res(true, 5), res(false, 9), res(true, 7), res(true, 1)];
    let first_two = vec![res(true, 5), res(false, 9)];
    let early = progress_snapshot(1, &first_two);
    let late = progress_snapshot(2, &all);
    assert_eq!((early.sent, early.success), (2, 1));
    assert_eq!((late.sent, late.success), (4, 3));
    assert!(early.sent <= late.sent && early.success <= late.success);
    assert!(late.success <= late.sent);
}

#[test]
fn stress_ramp_rates_stay_within_bounds() {
    let mut ramp = StressRamp::new(5, 27, 7);
    let mut seen = Vec::new();
    while let Some(rps) = ramp.next_rps() {
        seen.push(rps);
        let results: Vec<RequestResult> = (0..4).map(|_| res(true, 3)).collect();
        ramp.record(step_outcome(rps, &results));
    }
    // 5, 12, 19, 26; the next, 33, is past the maximum
    assert_eq!(seen, vec![5, 12, 19, 26]);
    let (steps, breaking_point) = ramp.finish();
    assert!(steps.iter().all(|s| 5 <= s.rps && s.rps <= 27));
    assert!(steps.windows(2).all(|w| w[0].rps < w[1].rps));
    assert_eq!(breaking_point, None);
}
