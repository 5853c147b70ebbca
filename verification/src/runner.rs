//! One request: how it is built from an endpoint, and how its outcome is judged.

use vstd::prelude::*;

use crate::config::Endpoint;
use crate::extractor::{
    MissedExtraction, extract, extracted_map, missed_extractions, missed_view, spec_missed,
};
use crate::json::{JsonValue, parse_json, parsed_json};
use crate::strmap::StrMap;
use crate::template::{Context, json_resolves, resolve, resolve_map, str_resolves};
use crate::text::{
    all_ascii, ascii_upper, chars_of, eq_literal, push_str, string_of_range, to_uppercase,
    unicode_upper,
};

verus! {

/// The HTTP methods a request can use.
#[derive(Debug, Clone, Copy, PartialEq, Eq, Structural)]
pub enum HttpMethod {
    Get,
    Post,
    Put,
    Patch,
    Delete,
    Head,
}

/// The method that an upper-cased method name selects; any other name selects GET.
pub open spec fn method_for(upper: Seq<char>) -> HttpMethod {
    if upper == "GET"@ {
        HttpMethod::Get
    } else if upper == "POST"@ {
        HttpMethod::Post
    } else if upper == "PUT"@ {
        HttpMethod::Put
    } else if upper == "PATCH"@ {
        HttpMethod::Patch
    } else if upper == "DELETE"@ {
        HttpMethod::Delete
    } else if upper == "HEAD"@ {
        HttpMethod::Head
    } else {
        HttpMethod::Get
    }
}

/// The method of a request, from the method name of its endpoint, matched
/// without regard to case.
pub fn method_of(method: &str) -> (m: HttpMethod)
    ensures
        m == method_for(unicode_upper(method@)),
        all_ascii(method@) ==> m == method_for(ascii_upper(method@)),
{
    let upper = to_uppercase(method);
    if eq_literal(&upper, "GET") {
        HttpMethod::Get
    } else if eq_literal(&upper, "POST") {
        HttpMethod::Post
    } else if eq_literal(&upper, "PUT") {
        HttpMethod::Put
    } else if eq_literal(&upper, "PATCH") {
        HttpMethod::Patch
    } else if eq_literal(&upper, "DELETE") {
        HttpMethod::Delete
    } else if eq_literal(&upper, "HEAD") {
        HttpMethod::Head
    } else {
        HttpMethod::Get
    }
}

/// `s` without its trailing `/` characters.
pub open spec fn trim_trailing_slashes(s: Seq<char>) -> Seq<char>
    decreases s.len(),
{
    if s.len() > 0 && s.last() == '/' {
        trim_trailing_slashes(s.drop_last())
    } else {
        s
    }
}

/// The URL of a request: the base URL without trailing slashes, then the path.
pub fn request_url(base_url: &str, path: &str) -> (u: String)
    ensures
        u@ == trim_trailing_slashes(base_url@) + path@,
{
    let v = chars_of(base_url);
    let mut n = v.len();
    assert(v@.subrange(0, n as int) =~= v@);
    while n > 0 && v[n - 1] == '/'
        invariant
            n <= v@.len(),
            trim_trailing_slashes(v@.subrange(0, n as int)) == trim_trailing_slashes(base_url@),
            v@ == base_url@,
        decreases n,
    {
        assert(v@.subrange(0, n as int).drop_last() =~= v@.subrange(0, n - 1));
        n = n - 1;
    }
    assert(v@.subrange(0, 0) =~= Seq::<char>::empty());
    let mut u = string_of_range(&v, 0, n);
    push_str(&mut u, path);
    u
}

/// A request ready to send.
pub struct PreparedRequest {
    pub method: HttpMethod,
    pub url: String,
    pub headers: StrMap,
    pub body: Option<JsonValue>,
}

/// The headers sent with a request, as a map: the global headers with the
/// endpoint's own headers over them; the endpoint's own headers when there
/// are no global ones; none when there are neither.
pub open spec fn sent_headers(global: Option<StrMap>, own: Option<StrMap>) -> Option<
    Map<Seq<char>, Seq<char>>,
> {
    match global {
        Some(g) => Some(
            match own {
                Some(h) => g@.union_prefer_right(h@),
                None => g@,
            },
        ),
        None => match own {
            Some(h) => Some(h@),
            None => None,
        },
    }
}

/// The headers sent with a request for `endpoint`, given the global headers.
pub fn merged_headers(global: &Option<StrMap>, endpoint: &Endpoint) -> (r: Option<StrMap>)
    ensures
        r is Some <==> sent_headers(*global, endpoint.headers) is Some,
        r matches Some(m) ==> sent_headers(*global, endpoint.headers) == Some(m@),
{
    match global {
        Some(g) => {
            let mut merged = g.copy();
            match &endpoint.headers {
                Some(h) => merged.extend(h),
                None => {},
            }
            Some(merged)
        },
        None => match &endpoint.headers {
            Some(h) => Some(h.copy()),
            None => None,
        },
    }
}

/// `out` is `headers` with placeholders resolved in every value; no headers
/// give an empty map.
pub open spec fn headers_resolve(
    headers: Option<Map<Seq<char>, Seq<char>>>,
    ctx: Map<Seq<char>, Seq<char>>,
    out: StrMap,
) -> bool {
    match headers {
        Some(h) => {
            &&& forall|k: Seq<char>| #[trigger] out@.contains_key(k) <==> h.contains_key(k)
            &&& forall|k: Seq<char>| #[trigger] h.contains_key(k) ==> str_resolves(h[k], ctx, out@[k])
        },
        None => out@ == Map::<Seq<char>, Seq<char>>::empty(),
    }
}

/// Builds the request for `endpoint` against `base_url`. It sends the global
/// headers `global` with the endpoint's own headers over them. Placeholders
/// in the header values and in the body are resolved against `ctx`.
pub fn prepare_request(
    endpoint: &Endpoint,
    global: &Option<StrMap>,
    base_url: &str,
    ctx: &Context,
) -> (r: PreparedRequest)
    ensures
        r.method == method_for(unicode_upper(endpoint.method@)),
        r.url@ == trim_trailing_slashes(base_url@) + endpoint.path@,
        headers_resolve(sent_headers(*global, endpoint.headers), ctx@, r.headers),
        endpoint.body is None ==> r.body is None,
        endpoint.body matches Some(b) ==> (r.body matches Some(o) && json_resolves(b, ctx@, o)),
{
    let url = request_url(base_url, endpoint.path.as_str());
    let headers = merged_headers(global, endpoint);
    let resolved_headers = match &headers {
        Some(h) => resolve_map(h, ctx),
        None => StrMap::new(),
    };
    let body = match &endpoint.body {
        Some(b) => Some(resolve(b, ctx)),
        None => None,
    };
    PreparedRequest { method: method_of(endpoint.method.as_str()), url, headers: resolved_headers, body }
}

/// The outcome of one request.
pub struct RequestResult {
    pub endpoint_name: String,
    pub method: String,
    pub path: String,
    pub expected_status: Option<u16>,
    /// `0` when the request never reached the server.
    pub actual_status: u16,
    pub latency_ms: u128,
    pub passed: bool,
    /// The response body on failure, or the network error.
    pub error: Option<String>,
    pub body: Option<JsonValue>,
}

/// A response passes when its status is the expected one, or, with no
/// expectation, when it is below 500.
pub open spec fn status_passes(expected: Option<u16>, actual: u16) -> bool {
    match expected {
        Some(e) => actual == e,
        None => actual < 500,
    }
}

/// Exec form of `status_passes`.
pub fn status_passed(expected: Option<u16>, actual: u16) -> (r: bool)
    ensures
        r == status_passes(expected, actual),
{
    match expected {
        Some(e) => actual == e,
        None => actual < 500,
    }
}

/// The result of a request that got a response with status `actual_status`
/// and body text `body_text`, where `body` is what that text reads as JSON.
pub fn judge_response(
    endpoint: &Endpoint,
    actual_status: u16,
    latency_ms: u128,
    body_text: String,
    body: Option<JsonValue>,
) -> (r: RequestResult)
    ensures
        r.endpoint_name@ == endpoint.name@,
        r.method@ == endpoint.method@,
        r.path@ == endpoint.path@,
        r.expected_status == endpoint.expect_status,
        r.actual_status == actual_status,
        r.latency_ms == latency_ms,
        r.passed == status_passes(endpoint.expect_status, actual_status),
        r.passed ==> r.error is None,
        !r.passed ==> (r.error matches Some(e) && e@ == body_text@),
        r.body == body,
{
    let passed = status_passed(endpoint.expect_status, actual_status);
    let error = if !passed {
        Some(body_text)
    } else {
        None
    };
    RequestResult {
        endpoint_name: endpoint.name.clone(),
        method: endpoint.method.clone(),
        path: endpoint.path.clone(),
        expected_status: endpoint.expect_status,
        actual_status,
        latency_ms,
        passed,
        error,
        body,
    }
}

/// The result of a request that got a response with status `actual_status`
/// and body text `body_text`; the body is kept as JSON when the text is JSON.
pub fn response_result(
    endpoint: &Endpoint,
    actual_status: u16,
    latency_ms: u128,
    body_text: String,
) -> (r: RequestResult)
    ensures
        r.endpoint_name@ == endpoint.name@,
        r.method@ == endpoint.method@,
        r.path@ == endpoint.path@,
        r.expected_status == endpoint.expect_status,
        r.actual_status == actual_status,
        r.latency_ms == latency_ms,
        r.passed == status_passes(endpoint.expect_status, actual_status),
        r.passed ==> r.error is None,
        !r.passed ==> (r.error matches Some(e) && e@ == body_text@),
        r.body == parsed_json(body_text@),
{
    let body = parse_json(body_text.as_str());
    judge_response(endpoint, actual_status, latency_ms, body_text, body)
}

/// The result of a request that never reached the server; `message` says why.
pub fn network_error_result(endpoint: &Endpoint, latency_ms: u128, message: &str) -> (r:
    RequestResult)
    ensures
        r.endpoint_name@ == endpoint.name@,
        r.method@ == endpoint.method@,
        r.path@ == endpoint.path@,
        r.expected_status == endpoint.expect_status,
        r.actual_status == 0,
        r.latency_ms == latency_ms,
        !r.passed,
        r.error matches Some(e) && e@ == "network error: "@ + message@,
        r.body is None,
{
    let mut e = String::new();
    push_str(&mut e, "network error: ");
    push_str(&mut e, message);
    RequestResult {
        endpoint_name: endpoint.name.clone(),
        method: endpoint.method.clone(),
        path: endpoint.path.clone(),
        expected_status: endpoint.expect_status,
        actual_status: 0,
        latency_ms,
        passed: false,
        error: Some(e),
        body: None,
    }
}

/// The context after a request: when the request passed and its endpoint
/// has extraction rules and the response had a JSON body, the captured
/// variables are set; otherwise the context stays as it was.
pub open spec fn context_after(
    ep: Endpoint,
    result: RequestResult,
    ctx: Map<Seq<char>, Seq<char>>,
) -> Map<Seq<char>, Seq<char>> {
    if result.passed && ep.extract is Some && result.body is Some {
        ctx.union_prefer_right(extracted_map(result.body->0, ep.extract->0@))
    } else {
        ctx
    }
}

/// Captures the variables of a passed request into the context.
pub fn capture_on_pass(endpoint: &Endpoint, result: &RequestResult, ctx: &mut Context)
    ensures
        final(ctx)@ == context_after(*endpoint, *result, old(ctx)@),
{
    if result.passed {
        match (&endpoint.extract, &result.body) {
            (Some(rules), Some(body)) => extract(body, rules, ctx),
            _ => {},
        }
    }
}

/// The extraction rules of `endpoint` that set nothing after `result`: none
/// unless the request passed, the endpoint has extraction rules and the
/// response had a JSON body (as for `capture_on_pass`).
pub fn capture_misses(endpoint: &Endpoint, result: &RequestResult) -> (r: Vec<MissedExtraction>)
    ensures
        r@.map_values(|m: MissedExtraction| missed_view(m)) == if result.passed
            && endpoint.extract is Some && result.body is Some {
            spec_missed(result.body->0, endpoint.extract->0.pairs())
        } else {
            Seq::<(Seq<char>, Seq<char>, bool)>::empty()
        },
{
    if result.passed {
        match (&endpoint.extract, &result.body) {
            (Some(rules), Some(body)) => {
                return missed_extractions(body, rules);
            },
            _ => {},
        }
    }
    let r: Vec<MissedExtraction> = Vec::new();
    assert(r@.map_values(|m: MissedExtraction| missed_view(m)) =~= Seq::<
        (Seq<char>, Seq<char>, bool),
    >::empty());
    r
}

} // verus!
