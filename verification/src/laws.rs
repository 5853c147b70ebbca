//! Properties of the library that relate several of its operations.

use vstd::prelude::*;
use vstd::relations::sorted_by;

use crate::commands::run::{LoadRun, TickAction, reports, tick_step};
use crate::commands::seed::{IterationResult, sum_requests};
use crate::commands::stress::StressRamp;
use crate::strmap::StrMap;
use crate::config::{
    BlastConfig, Endpoint, config_problem, endpoint_problem, first_endpoint_problem, is_valid_method,
};
use crate::commands::stress::{breaks, raw_p99};
use crate::config::{filter_tagged, has_tag, select_endpoints};
use crate::extractor::{extracted_at, extracted_map, follow, path_step, spec_get_path};
use crate::json::{JsonValue, member_index, spec_member};
use crate::runner::{RequestResult, context_after, headers_resolve, sent_headers, status_passes};
use crate::stats::{
    ascending, count_passed, latencies_of, latency_percentile, latency_quantile,
    lemma_ascending_total, lemma_count_passed_bound, quantile_index, sorted_latencies,
    spec_percentile, spec_quantile,
};
use crate::template::{
    json_resolves, Piece, concat_all, lemma_concat_push, piece_outcome, renders, spec_fake_kind, str_resolves,
    template_pieces,
};
use crate::text::{
    ends_double, find_double, lemma_find_double, spec_trim, starts_double, unicode_upper,
};

verus! {

proof fn lemma_concat_single(x: Seq<char>)
    ensures
        concat_all(seq![x]) == x,
{
    lemma_concat_push(Seq::<Seq<char>>::empty(), x);
    assert(Seq::<Seq<char>>::empty().push(x) =~= seq![x]);
    assert(concat_all(Seq::<Seq<char>>::empty()) =~= Seq::<char>::empty());
    assert(Seq::<char>::empty() + x =~= x);
}

/// The placeholder `{{key}}`.
pub open spec fn placeholder(key: Seq<char>) -> Seq<char> {
    "{{"@ + key + "}}"@
}

/// `key` holds neither `{` nor `}`, as a variable name does.
pub open spec fn brace_free(key: Seq<char>) -> bool {
    forall|i: int| 0 <= i < key.len() ==> #[trigger] key[i] != '{' && key[i] != '}'
}

proof fn lemma_placeholder_pieces(key: Seq<char>)
    requires
        spec_trim(key) == key,
        brace_free(key),
    ensures
        template_pieces(placeholder(key)) == seq![Piece::Key(key)],
{
    reveal_strlit("{{");
    reveal_strlit("}}");
    let s = placeholder(key);
    let n = s.len();
    assert(forall|i: int| 2 <= i < n - 2 ==> s[i] == #[trigger] key[i - 2]);
    assert(starts_double(s, '{'));
    assert(ends_double(s, '}'));
    lemma_find_double(s, 2, '{');
    if let Some(k) = find_double(s, 2, '{') {
        if k < n - 2 {
            assert(key[k - 2] == '{');
        }
        assert(false);
    }
    lemma_find_double(s, 0, '}');
    match find_double(s, 0, '}') {
        Some(k) => {
            if k < n - 2 {
                assert(key[k - 2] == '}');
            }
        },
        None => {
            assert(s[n - 2] == '}' && s[n - 1] == '}');
        },
    }
    assert(s.subrange(2, n - 2) =~= key);
}

/// Request chaining: once an extraction rule has captured a value into the
/// context, the placeholder `{{var}}` (for a variable name without
/// surrounding whitespace or braces) resolves to exactly that value.
pub proof fn law_captured_value_fills_placeholder(
    body: JsonValue,
    rules: Map<Seq<char>, Seq<char>>,
    ctx: Map<Seq<char>, Seq<char>>,
    var: Seq<char>,
    out: Seq<char>,
)
    requires
        rules.contains_key(var),
        extracted_at(body, rules[var]) is Some,
        spec_trim(var) == var,
        brace_free(var),
        str_resolves(placeholder(var), ctx.union_prefer_right(extracted_map(body, rules)), out),
    ensures
        out == extracted_at(body, rules[var])->0,
{
    let c = ctx.union_prefer_right(extracted_map(body, rules));
    lemma_placeholder_pieces(var);
    let pieces = template_pieces(placeholder(var));
    let vals = choose|vals: Seq<Seq<char>>| #[trigger] renders(pieces, c, vals) && concat_all(vals)
        == out;
    assert(piece_outcome(pieces[0], c, vals[0]));
    assert(vals =~= seq![vals[0]]);
    lemma_concat_single(vals[0]);
}

/// A placeholder whose key is neither captured nor a `fake.*` key is left
/// as it is.
pub proof fn law_unknown_placeholder_unchanged(
    key: Seq<char>,
    ctx: Map<Seq<char>, Seq<char>>,
    out: Seq<char>,
)
    requires
        spec_trim(key) == key,
        brace_free(key),
        !ctx.contains_key(key),
        spec_fake_kind(key) is None,
    ensures
        str_resolves(placeholder(key), ctx, out) <==> out == placeholder(key),
{
    lemma_placeholder_pieces(key);
    let pieces = template_pieces(placeholder(key));
    if str_resolves(placeholder(key), ctx, out) {
        let vals = choose|vals: Seq<Seq<char>>| #[trigger] renders(pieces, ctx, vals)
            && concat_all(vals) == out;
        assert(piece_outcome(pieces[0], ctx, vals[0]));
        assert(vals =~= seq![vals[0]]);
        lemma_concat_single(vals[0]);
    }
    if out == placeholder(key) {
        let vals = seq![out];
        assert(renders(pieces, ctx, vals));
        lemma_concat_single(out);
    }
}

/// Text without `{{` is sent as it is.
pub proof fn law_plain_text_unchanged(s: Seq<char>, ctx: Map<Seq<char>, Seq<char>>, out: Seq<char>)
    requires
        find_double(s, 0, '{') is None,
    ensures
        str_resolves(s, ctx, out) <==> out == s,
{
    if starts_double(s, '{') {
        assert(find_double(s, 0, '{') == Some(0int));
    }
    let pieces = template_pieces(s);
    assert(pieces == seq![Piece::Text(s)]);
    if str_resolves(s, ctx, out) {
        let vals = choose|vals: Seq<Seq<char>>| #[trigger] renders(pieces, ctx, vals)
            && concat_all(vals) == out;
        assert(piece_outcome(pieces[0], ctx, vals[0]));
        assert(vals =~= seq![vals[0]]);
        lemma_concat_single(vals[0]);
    }
    if out == s {
        let vals = seq![out];
        assert(renders(pieces, ctx, vals));
        lemma_concat_single(out);
    }
}

/// Every placeholder of `pieces` is either captured or not a `fake.*` key.
pub open spec fn no_fresh_fakes(pieces: Seq<Piece>, ctx: Map<Seq<char>, Seq<char>>) -> bool {
    forall|i: int|
        0 <= i < pieces.len() ==> (#[trigger] pieces[i] matches Piece::Key(k) ==> (
        ctx.contains_key(k) || spec_fake_kind(k) is None))
}

proof fn lemma_concat_eq(a: Seq<Seq<char>>, b: Seq<Seq<char>>)
    requires
        a == b,
    ensures
        concat_all(a) == concat_all(b),
{
}

/// Without fake data to generate, resolving a template is deterministic:
/// any two resolutions of the same string against the same context agree.
pub proof fn law_resolution_deterministic(
    s: Seq<char>,
    ctx: Map<Seq<char>, Seq<char>>,
    o1: Seq<char>,
    o2: Seq<char>,
)
    requires
        no_fresh_fakes(template_pieces(s), ctx),
        str_resolves(s, ctx, o1),
        str_resolves(s, ctx, o2),
    ensures
        o1 == o2,
{
    let pieces = template_pieces(s);
    let v1 = choose|vals: Seq<Seq<char>>| #[trigger] renders(pieces, ctx, vals) && concat_all(vals)
        == o1;
    let v2 = choose|vals: Seq<Seq<char>>| #[trigger] renders(pieces, ctx, vals) && concat_all(vals)
        == o2;
    assert forall|i: int| 0 <= i < v1.len() implies v1[i] == v2[i] by {
        assert(piece_outcome(pieces[i], ctx, v1[i]));
        assert(piece_outcome(pieces[i], ctx, v2[i]));
        assert(pieces[i] matches Piece::Key(k) ==> (ctx.contains_key(k) || spec_fake_kind(k) is None));
    }
    assert(v1 =~= v2);
    lemma_concat_eq(v1, v2);
}

proof fn lemma_quantile_index_mono(len: nat, n1: nat, d1: nat, n2: nat, d2: nat)
    requires
        len > 0,
        d1 > 0,
        d2 > 0,
        n1 * d2 <= n2 * d1,
    ensures
        quantile_index(len, n1, d1) <= quantile_index(len, n2, d2),
        quantile_index(len, n2, d2) < len,
{
    let x = n1 * len / d1;
    assert(x * d1 <= n1 * len) by (nonlinear_arith)
        requires
            x == n1 * len / d1,
            d1 > 0,
    ;
    assert(x * d2 * d1 <= n2 * len * d1) by (nonlinear_arith)
        requires
            x * d1 <= n1 * len,
            n1 * d2 <= n2 * d1,
            d2 > 0,
    ;
    assert(x * d2 <= n2 * len) by (nonlinear_arith)
        requires
            x * d2 * d1 <= n2 * len * d1,
            d1 > 0,
    ;
    assert(x <= n2 * len / d2) by (nonlinear_arith)
        requires
            x * d2 <= n2 * len,
            d2 > 0,
    ;
}

/// Quantiles of ascending values grow with the fraction asked for: where
/// `n1 / d1 <= n2 / d2`, the quantile `n1 / d1` is at most the quantile
/// `n2 / d2`.
pub proof fn law_quantile_monotone(sorted: Seq<u128>, n1: nat, d1: nat, n2: nat, d2: nat)
    requires
        sorted_by(sorted, ascending()),
        d1 > 0,
        d2 > 0,
        n1 * d2 <= n2 * d1,
    ensures
        spec_quantile(sorted, n1, d1) <= spec_quantile(sorted, n2, d2),
{
    if sorted.len() > 0 {
        lemma_quantile_index_mono(sorted.len(), n1, d1, n2, d2);
        let i = quantile_index(sorted.len(), n1, d1) as int;
        let j = quantile_index(sorted.len(), n2, d2) as int;
        if i < j {
            assert(ascending()(sorted[i], sorted[j]));
        }
    }
}

/// Percentiles of ascending values grow with the percentile asked for.
pub proof fn law_percentile_monotone(sorted: Seq<u128>, p: nat, q: nat)
    requires
        sorted_by(sorted, ascending()),
        p <= q,
    ensures
        spec_percentile(sorted, p) <= spec_percentile(sorted, q),
{
    assert(p * 100 <= q * 100) by (nonlinear_arith)
        requires
            p <= q,
    ;
    law_quantile_monotone(sorted, p, 100, q, 100);
}

/// The latency percentiles that a finished run reports are ordered,
/// p50 <= p95 <= p99 <= p999 (the 99.9th percentile), when every latency
/// fits in 32 bits.
pub proof fn law_reported_percentiles_ordered(rs: Seq<RequestResult>)
    requires
        forall|i: int| 0 <= i < rs.len() ==> (#[trigger] rs[i]).latency_ms <= u32::MAX,
    ensures
        latency_percentile(rs, 50) <= latency_percentile(rs, 95),
        latency_percentile(rs, 95) <= latency_percentile(rs, 99),
        latency_percentile(rs, 99) <= latency_quantile(rs, 999, 1000),
{
    let lat = latencies_of(rs);
    let s = sorted_latencies(lat);
    lemma_ascending_total();
    lat.lemma_sort_by_ensures(ascending());
    assert forall|i: int| 0 <= i < s.len() implies #[trigger] s[i] <= u32::MAX by {
        assert(s.contains(s[i]));
        assert(lat.contains(s[i]));
        let j = choose|j: int| 0 <= j < lat.len() && lat[j] == s[i];
        assert(rs[j].latency_ms == lat[j]);
    }
    law_percentile_monotone(s, 50, 95);
    law_percentile_monotone(s, 95, 99);
    law_quantile_monotone(s, 99, 100, 999, 1000);
    if s.len() > 0 {
        let a = spec_percentile(s, 50);
        let b = spec_percentile(s, 95);
        let c = spec_percentile(s, 99);
        let d = spec_quantile(s, 999, 1000);
        assert(a <= u32::MAX && b <= u32::MAX && c <= u32::MAX && d <= u32::MAX) by {
            lemma_quantile_index_mono(s.len(), 50, 100, 999, 1000);
            lemma_quantile_index_mono(s.len(), 95, 100, 999, 1000);
            lemma_quantile_index_mono(s.len(), 99, 100, 999, 1000);
        }
    }
}

/// A summary never counts more passed results than results.
pub proof fn law_passed_at_most_total(rs: Seq<RequestResult>)
    requires
        rs.len() <= u32::MAX,
    ensures
        count_passed(rs) as u32 <= rs.len() as u32,
{
    lemma_count_passed_bound(rs);
}

/// When every pass of a seed run sends the same `n` requests, the run sends
/// `passes * n` requests in all.
pub proof fn law_seed_total_requests(rs: Seq<IterationResult>, n: usize)
    requires
        forall|i: int| 0 <= i < rs.len() ==> (#[trigger] rs[i]).requests == n,
    ensures
        sum_requests(rs) == rs.len() * n,
    decreases rs.len(),
{
    if rs.len() > 0 {
        law_seed_total_requests(rs.drop_last(), n);
        assert(rs.last().requests == n);
        assert((rs.len() - 1) * n + n == rs.len() * n) by (nonlinear_arith);
    }
}

/// Request chaining: after a request that passed, whose endpoint captures
/// `var` from a path that reaches a string, number or boolean, a later
/// `{{var}}` placeholder resolves to the captured text.
pub proof fn law_chained_request(
    ep: Endpoint,
    result: RequestResult,
    ctx: Map<Seq<char>, Seq<char>>,
    var: Seq<char>,
    out: Seq<char>,
)
    requires
        result.passed,
        ep.extract is Some,
        result.body is Some,
        ep.extract->0@.contains_key(var),
        extracted_at(result.body->0, ep.extract->0@[var]) is Some,
        spec_trim(var) == var,
        brace_free(var),
        str_resolves(placeholder(var), context_after(ep, result, ctx), out),
    ensures
        out == extracted_at(result.body->0, ep.extract->0@[var])->0,
{
    law_captured_value_fills_placeholder(result.body->0, ep.extract->0@, ctx, var, out);
}

proof fn lemma_ticks_keep(runs: Seq<LoadRun>, ticks: Seq<u64>, actions: Seq<TickAction>, u: int)
    requires
        runs.len() == ticks.len() + 1,
        actions.len() == ticks.len(),
        forall|t: int|
            0 <= t < ticks.len() ==> #[trigger] tick_step(runs[t], ticks[t], runs[t + 1], actions[t]),
        0 <= u < runs.len(),
    ensures
        runs[u].duration_secs == runs[0].duration_secs,
        forall|t: int| 0 <= t <= u ==> #[trigger] runs[t].last_print <= runs[u].last_print,
    decreases u,
{
    if u > 0 {
        lemma_ticks_keep(runs, ticks, actions, u - 1);
        let t = u - 1;
        assert(tick_step(runs[t], ticks[t], runs[t + 1], actions[t]));
    }
}

/// Progress reports during a run: over any sequence of ticks that starts
/// from a fresh run (no second reported yet), two ticks that report do so
/// at whole seconds that strictly increase, at least 1 and below the
/// duration; so there is at most one report per elapsed second.
pub proof fn law_progress_reports(
    runs: Seq<LoadRun>,
    ticks: Seq<u64>,
    actions: Seq<TickAction>,
    k: int,
    l: int,
)
    requires
        runs.len() == ticks.len() + 1,
        actions.len() == ticks.len(),
        runs[0].last_print == 0,
        forall|t: int|
            0 <= t < ticks.len() ==> #[trigger] tick_step(runs[t], ticks[t], runs[t + 1], actions[t]),
        0 <= k < l < ticks.len(),
        reports(actions[k]),
        reports(actions[l]),
    ensures
        1 <= ticks[k] < ticks[l] < runs[0].duration_secs,
{
    lemma_ticks_keep(runs, ticks, actions, l);
    lemma_ticks_keep(runs, ticks, actions, k);
    assert(tick_step(runs[k], ticks[k], runs[k + 1], actions[k]));
    assert(tick_step(runs[l], ticks[l], runs[l + 1], actions[l]));
    assert(runs[0].last_print <= runs[k].last_print);
    assert(runs[k + 1].last_print <= runs[l].last_print);
}

/// The counts that progress reports give never shrink: the results of an
/// earlier report are a prefix of those of a later one, so the later one
/// has at least as many requests and at least as many passed, and no
/// report has more passed than sent.
pub proof fn law_progress_counts_grow(earlier: Seq<RequestResult>, later: Seq<RequestResult>)
    requires
        earlier.len() <= later.len(),
        earlier == later.subrange(0, earlier.len() as int),
    ensures
        count_passed(earlier) <= count_passed(later),
        count_passed(earlier) <= earlier.len(),
        count_passed(later) <= later.len(),
    decreases later.len(),
{
    lemma_count_passed_bound(earlier);
    lemma_count_passed_bound(later);
    if later.len() > earlier.len() {
        let shorter = later.drop_last();
        assert(earlier =~= shorter.subrange(0, earlier.len() as int));
        law_progress_counts_grow(earlier, shorter);
    } else {
        assert(earlier =~= later);
    }
}

/// The stress ramp's steps run at rising rates, each between the minimum
/// and the maximum rate (when the maximum fits the 32-bit rates reported);
/// with a positive step, strictly rising.
pub proof fn law_ramp_rates(r: StressRamp, i: int, j: int)
    requires
        r.wf(),
        r.max_rps() <= u32::MAX,
        0 <= i < j < r.steps().len(),
    ensures
        r.min_rps() <= r.steps()[i].rps <= r.steps()[j].rps <= r.max_rps(),
        r.step() > 0 ==> r.steps()[i].rps < r.steps()[j].rps,
{
    r.lemma_ramp();
    let a = r.min_rps() + i * r.step();
    let b = r.min_rps() + j * r.step();
    assert(a <= r.max_rps() && b <= r.max_rps());
    assert(i * r.step() <= j * r.step()) by (nonlinear_arith)
        requires
            0 <= i < j,
    ;
    assert(r.step() > 0 ==> i * r.step() < j * r.step()) by (nonlinear_arith)
        requires
            0 <= i < j,
    ;
    assert(0 <= i * r.step()) by (nonlinear_arith)
        requires
            0 <= i,
    ;
}

/// A breaking point, once found, is the rate of the last step run, which is
/// within the ramp's maximum rate (when that fits the 32-bit rates reported).
pub proof fn law_breaking_point_in_range(r: StressRamp)
    requires
        r.wf(),
        r.max_rps() <= u32::MAX,
    ensures
        r.breaking_point() matches Some(b) ==> (r.steps().len() > 0 && b == r.steps().last().rps
            && r.min_rps() <= b <= r.max_rps()),
{
    r.lemma_ramp();
    if r.breaking_point() is Some {
        let n = r.steps().len() - 1;
        assert(r.min_rps() + n * r.step() <= r.max_rps());
        assert(0 <= n * r.step()) by (nonlinear_arith)
            requires
                0 <= n,
        ;
    }
}

/// The headers sent with a request: every header of the endpoint is sent,
/// its value resolved; a global header is sent, its value resolved, unless
/// the endpoint sets the same name, which then overrides it; no other
/// header is sent.
pub proof fn law_endpoint_headers_override(
    global: Option<StrMap>,
    ep: Endpoint,
    ctx: Map<Seq<char>, Seq<char>>,
    out: StrMap,
    k: Seq<char>,
)
    requires
        headers_resolve(sent_headers(global, ep.headers), ctx, out),
    ensures
        ep.headers is Some && ep.headers->0@.contains_key(k) ==> out@.contains_key(k)
            && str_resolves(ep.headers->0@[k], ctx, out@[k]),
        global is Some && global->0@.contains_key(k) && !(ep.headers is Some
            && ep.headers->0@.contains_key(k)) ==> out@.contains_key(k) && str_resolves(
            global->0@[k],
            ctx,
            out@[k],
        ),
        out@.contains_key(k) ==> (global matches Some(g) && g@.contains_key(k)) || (
        ep.headers matches Some(h) && h@.contains_key(k)),
{
    let sent = sent_headers(global, ep.headers);
    if sent is Some {
        let m = sent->0;
        let own_has = ep.headers is Some && ep.headers->0@.contains_key(k);
        let global_has = global is Some && global->0@.contains_key(k);
        if own_has {
            let h = ep.headers->0@;
            if global is Some {
                assert(m == global->0@.union_prefer_right(h));
            }
            assert(m.contains_key(k) && m[k] == h[k]);
            assert(str_resolves(m[k], ctx, out@[k]));
        } else if global_has {
            let g = global->0@;
            if ep.headers is Some {
                assert(m == g.union_prefer_right(ep.headers->0@));
            }
            assert(m.contains_key(k) && m[k] == g[k]);
            assert(str_resolves(m[k], ctx, out@[k]));
        }
    }
}

proof fn lemma_no_endpoint_problem(eps: Seq<Endpoint>, i: nat, k: int)
    requires
        first_endpoint_problem(eps, i) is None,
        i <= k < eps.len(),
    ensures
        endpoint_problem(eps[k], k as nat) is None,
    decreases k - i,
{
    if i < k {
        lemma_no_endpoint_problem(eps, i + 1, k);
    }
}

proof fn lemma_endpoints_fine(eps: Seq<Endpoint>, i: nat)
    requires
        forall|k: int| i <= k < eps.len() ==> endpoint_fine(#[trigger] eps[k]),
    ensures
        first_endpoint_problem(eps, i) is None,
    decreases eps.len() - i,
{
    if i < eps.len() {
        assert(endpoint_fine(eps[i as int]));
        lemma_endpoints_fine(eps, i + 1);
    }
}

/// An endpoint has a name, a path, and a method that is one of POST, GET,
/// PATCH, DELETE and PUT in any case.
pub open spec fn endpoint_fine(ep: Endpoint) -> bool {
    &&& ep.name@.len() > 0
    &&& ep.path@.len() > 0
    &&& is_valid_method(unicode_upper(ep.method@))
}

/// A configuration passes validation exactly when it has a base URL and at
/// least one endpoint, and every endpoint has a name, a path, and a method
/// that is one of POST, GET, PATCH, DELETE and PUT in any case.
pub proof fn law_valid_config(c: BlastConfig)
    ensures
        config_problem(c) is None <==> {
            &&& c.base_url@.len() > 0
            &&& c.endpoints@.len() > 0
            &&& forall|k: int| 0 <= k < c.endpoints@.len() ==> endpoint_fine(#[trigger] c.endpoints@[k])
        },
{
    if config_problem(c) is None {
        assert forall|k: int| 0 <= k < c.endpoints@.len() implies endpoint_fine(
            #[trigger] c.endpoints@[k],
        ) by {
            lemma_no_endpoint_problem(c.endpoints@, 0, k);
        }
    }
    if c.base_url@.len() > 0 && c.endpoints@.len() > 0 && forall|k: int|
        0 <= k < c.endpoints@.len() ==> endpoint_fine(#[trigger] c.endpoints@[k]) {
        lemma_endpoints_fine(c.endpoints@, 0);
    }
}

/// Resolving a JSON value leaves its booleans, nulls and numbers as they
/// are: a boolean `b` comes out as `b`, null as null, and a number with the
/// same text; only strings are rewritten, and a string stays a string.
pub proof fn law_resolve_keeps_scalars(v: JsonValue, ctx: Map<Seq<char>, Seq<char>>, out: JsonValue)
    requires
        json_resolves(v, ctx, out),
    ensures
        v matches JsonValue::Bool(b) ==> out == JsonValue::Bool(b),
        v is Null ==> out is Null,
        v matches JsonValue::Number(t) ==> (out matches JsonValue::Number(u) && u@ == t@),
        v is String ==> out is String,
{
}

proof fn lemma_member_index_same_names(
    m: Seq<(String, JsonValue)>,
    n: Seq<(String, JsonValue)>,
    k: Seq<char>,
    from: int,
)
    requires
        m.len() == n.len(),
        forall|i: int| 0 <= i < m.len() ==> (#[trigger] n[i]).0@ == m[i].0@,
    ensures
        member_index(m, k, from) == member_index(n, k, from),
    decreases m.len() - from,
{
    if 0 <= from < m.len() {
        assert(n[from].0@ == m[from].0@);
        lemma_member_index_same_names(m, n, k, from + 1);
    }
}

proof fn lemma_member_index_bounds(m: Seq<(String, JsonValue)>, k: Seq<char>, from: int)
    requires
        0 <= from,
    ensures
        member_index(m, k, from) matches Some(i) ==> from <= i < m.len() && m[i].0@ == k
            && forall|j: int| from <= j < i ==> (#[trigger] m[j]).0@ != k,
        member_index(m, k, from) is None ==> forall|j: int|
            from <= j < m.len() ==> (#[trigger] m[j]).0@ != k,
    decreases m.len() - from,
{
    if 0 <= from < m.len() && m[from].0@ != k {
        lemma_member_index_bounds(m, k, from + 1);
    }
}

/// An object member is found by its exact name: the member that a segment
/// `k` reaches is the first member named exactly `k`, and no member is
/// reached when none is named `k` (a member whose name merely begins or
/// ends like `k` is never taken).
pub proof fn law_member_exact_name(m: Seq<(String, JsonValue)>, k: Seq<char>)
    ensures
        spec_member(m, k) matches Some(v) ==> exists|i: int|
            0 <= i < m.len() && (#[trigger] m[i]).0@ == k && m[i].1 == v && forall|j: int|
                0 <= j < i ==> (#[trigger] m[j]).0@ != k,
        spec_member(m, k) is None <==> forall|i: int| 0 <= i < m.len() ==> (#[trigger] m[i]).0@ != k,
{
    lemma_member_index_bounds(m, k, 0);
    if let Some(i) = member_index(m, k, 0) {
        assert(m[i].0@ == k);
    }
}

proof fn lemma_follow_resolves(
    v: JsonValue,
    ctx: Map<Seq<char>, Seq<char>>,
    out: JsonValue,
    segs: Seq<Seq<char>>,
)
    requires
        json_resolves(v, ctx, out),
    ensures
        follow(v, segs) is None <==> follow(out, segs) is None,
        follow(v, segs) is Some ==> json_resolves(follow(v, segs)->0, ctx, follow(out, segs)->0),
    decreases segs.len(),
{
    if segs.len() > 0 {
        let seg = segs[0];
        match v {
            JsonValue::Object(m) => {
                let n = out->Object_0;
                assert forall|i: int| 0 <= i < m@.len() implies (#[trigger] n@[i]).0@ == m@[i].0@ by {
                    assert((n@[i]).0@ == m@[i].0@ && json_resolves(m@[i].1, ctx, n@[i].1));
                }
                lemma_member_index_same_names(m@, n@, seg, 0);
                lemma_member_index_bounds(m@, seg, 0);
                if let Some(i) = member_index(m@, seg, 0) {
                    assert((n@[i]).0@ == m@[i].0@ && json_resolves(m@[i].1, ctx, n@[i].1));
                    lemma_follow_resolves(m@[i].1, ctx, n@[i].1, segs.drop_first());
                }
            },
            JsonValue::Array(a) => {
                let b = out->Array_0;
                if let Some(idx) = crate::text::spec_parse_usize(seg) {
                    if idx < a@.len() {
                        assert(json_resolves(a@[idx as int], ctx, b@[idx as int]));
                        lemma_follow_resolves(a@[idx as int], ctx, b@[idx as int], segs.drop_first());
                    }
                }
            },
            _ => {},
        }
    }
}

/// Resolving a request body leaves every boolean where it is: whatever path
/// reaches a boolean `b` in the body reaches the same boolean `b` in the
/// resolved body, and a path that reaches a number reaches a number with the
/// same text.
pub proof fn law_resolve_keeps_nested_scalars(
    v: JsonValue,
    ctx: Map<Seq<char>, Seq<char>>,
    out: JsonValue,
    path: Seq<char>,
)
    requires
        json_resolves(v, ctx, out),
    ensures
        spec_get_path(v, path) matches Some(JsonValue::Bool(b)) ==> spec_get_path(out, path)
            == Some(JsonValue::Bool(b)),
        spec_get_path(v, path) matches Some(JsonValue::Number(t)) ==> (spec_get_path(out, path)
            matches Some(JsonValue::Number(u)) && u@ == t@),
        spec_get_path(v, path) is None <==> spec_get_path(out, path) is None,
{
    let segs = crate::text::spec_split(path, '.');
    lemma_follow_resolves(v, ctx, out, segs);
    if let Some(w) = follow(v, segs) {
        law_resolve_keeps_scalars(w, ctx, follow(out, segs)->0);
    }
}

/// Selecting endpoints by tag: when any endpoint, at any position, carries a
/// tag, the selection is exactly the endpoints whose tags include `tag`, in
/// order; only when no endpoint carries a tag is the whole list selected.
pub proof fn law_tag_selection(eps: Seq<Endpoint>, tag: Seq<char>)
    ensures
        (exists|i: int|
            0 <= i < eps.len() && (#[trigger] eps[i]).tags is Some && eps[i].tags->0@.len() > 0)
            ==> select_endpoints(eps, tag) == eps.filter(|e: Endpoint| has_tag(e, tag)),
        (forall|i: int|
            0 <= i < eps.len() ==> !((#[trigger] eps[i]).tags is Some && eps[i].tags->0@.len()
                > 0))
            ==> select_endpoints(eps, tag) == eps,
{
    lemma_filter_tagged(eps, tag);
}

proof fn lemma_filter_tagged(eps: Seq<Endpoint>, tag: Seq<char>)
    ensures
        filter_tagged(eps, tag) == eps.filter(|e: Endpoint| has_tag(e, tag)),
    decreases eps.len(),
{
    reveal(Seq::filter);
    if eps.len() > 0 {
        lemma_filter_tagged(eps.drop_last(), tag);
    }
}

/// Whether a tag is carried is decided by the tag lists themselves: an
/// endpoint carries `tag` exactly when its tag list holds an entry equal to
/// `tag`.
pub proof fn law_has_tag_exact(ep: Endpoint, tag: Seq<char>)
    ensures
        has_tag(ep, tag) <==> (ep.tags is Some && exists|j: int|
            0 <= j < ep.tags->0@.len() && (#[trigger] ep.tags->0@[j])@ == tag),
{
}

/// A stress step breaks exactly when the p99 latency that it reports exceeds
/// 500 ms or more than 1 % of its requests failed (every latency fitting the
/// 32-bit milliseconds reported).
pub proof fn law_step_breaks_on_reported_p99(rs: Seq<RequestResult>)
    requires
        forall|i: int| 0 <= i < rs.len() ==> (#[trigger] rs[i]).latency_ms <= u32::MAX,
    ensures
        breaks(raw_p99(rs), (rs.len() - count_passed(rs)) as nat, rs.len()) <==> (
        latency_percentile(rs, 99) > 500 || (rs.len() > 0 && (rs.len() - count_passed(rs)) * 100
            > rs.len())),
{
    lemma_count_passed_bound(rs);
    let lat = latencies_of(rs);
    let s = sorted_latencies(lat);
    lemma_ascending_total();
    lat.lemma_sort_by_ensures(ascending());
    if s.len() > 0 {
        let i = quantile_index(s.len(), 99, 100) as int;
        assert(99 * s.len() / 100 <= s.len()) by (nonlinear_arith);
        assert(s.contains(s[i]));
        assert(lat.contains(s[i]));
        let j = choose|j: int| 0 <= j < lat.len() && lat[j] == s[i];
        assert(rs[j].latency_ms == lat[j]);
        assert(raw_p99(rs) == s[i]);
    }
}

/// A response with an expected status passes exactly when its status is
/// that status; with none, exactly when its status is below 500.
pub proof fn law_status_pass_rule(expected: Option<u16>, actual: u16)
    ensures
        expected matches Some(e) ==> (status_passes(expected, actual) <==> actual == e),
        expected is None ==> (status_passes(expected, actual) <==> actual < 500),
{
}

} // verus!
