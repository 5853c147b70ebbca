use blast::config::Endpoint;
use blast::json::JsonValue;
use blast::runner::{
    capture_misses, capture_on_pass, judge_response, method_of, network_error_result, prepare_request, request_url,
    response_result, status_passed, HttpMethod,
};
use blast::strmap::StrMap;

fn map(pairs: &[(&str, &str)]) -> StrMap {
    StrMap::from_pairs(pairs.iter().map(|(k, v)| (k.to_string(), v.to_string())).collect())
}

fn ep(expect: Option<u16>) -> Endpoint {
    Endpoint {
        name: "users".to_string(),
        method: "post".to_string(),
        path: "/api/users/{{id}}".to_string(),
        headers: Some(map(&[("Authorization", "Bearer {{tok}}")])),
        body: Some(JsonValue::Object(vec![("name".to_string(), JsonValue::String("{{who}}".to_string()))])),
        expect_status: expect,
        extract: Some(map(&[("uid", "id")])),
        tags: None,
    }
}

#[test]
fn methods_ignore_case() {
    assert_eq!(method_of("get"), HttpMethod::Get);
    assert_eq!(method_of("Post"), HttpMethod::Post);
    assert_eq!(method_of("put"), HttpMethod::Put);
    assert_eq!(method_of("PATCH"), HttpMethod::Patch);
    assert_eq!(method_of("delete"), HttpMethod::Delete);
    assert_eq!(method_of("head"), HttpMethod::Head);
    assert_eq!(method_of("FETCH"), HttpMethod::Get);
}

#[test]
fn url_joins_base_and_path() {
    assert_eq!(request_url("http://localhost:3000/", "/health"), "http://localhost:3000/health");
    assert_eq!(request_url("http://localhost:3000///", "/health"), "http://localhost:3000/health");
    assert_eq!(request_url("http://localhost:3000", "/health"), "http://localhost:3000/health");
    assert_eq!(request_url("", "/x"), "/x");
}

#[test]
fn prepared_request_resolves_placeholders() {
    let ctx = map(&[("tok", "T"), ("who", "ann")]);
    let e = ep(Some(201));
    let r = prepare_request(&e, &None, "http://h/", &ctx);
    assert_eq!(r.method, HttpMethod::Post);
    // the path is not templated
    assert_eq!(r.url, "http://h/api/users/{{id}}");
    assert_eq!(r.headers.get(&"Authorization".to_string()).unwrap(), "Bearer T");
    assert_eq!(
        r.body,
        Some(JsonValue::Object(vec![("name".to_string(), JsonValue::String("ann".to_string()))]))
    );
    let mut bare = ep(Some(201));
    bare.headers = None;
    let none = prepare_request(&bare, &None, "http://h", &ctx);
    assert_eq!(none.headers.len(), 0);
}

#[test]
fn global_headers_are_sent_with_every_request() {
    let ctx = map(&[("tok", "T"), ("who", "ann")]);
    let global = Some(map(&[("X-Env", "{{who}}"), ("Authorization", "Basic old")]));
    let e = ep(Some(201));
    let r = prepare_request(&e, &global, "http://h", &ctx);
    assert_eq!(r.headers.len(), 2);
    // the endpoint's own header overrides the global one of the same name
    assert_eq!(r.headers.get(&"Authorization".to_string()).unwrap(), "Bearer T");
    assert_eq!(r.headers.get(&"X-Env".to_string()).unwrap(), "ann");
    let mut bare = ep(Some(201));
    bare.headers = None;
    let g = prepare_request(&bare, &global, "http://h", &ctx);
    assert_eq!(g.headers.len(), 2);
    assert_eq!(g.headers.get(&"Authorization".to_string()).unwrap(), "Basic old");
}

#[test]
fn pass_rule() {
    assert!(status_passed(Some(201), 201));
    assert!(!status_passed(Some(201), 200));
    assert!(status_passed(None, 499));
    assert!(!status_passed(None, 500));
}

#[test]
fn response_result_keeps_body_on_failure() {
    let e = ep(Some(201));
    let r = response_result(&e, 400, 12, "bad".to_string());
    assert!(!r.passed);
    assert_eq!(r.error.as_deref(), Some("bad"));
    assert_eq!(r.actual_status, 400);
    assert_eq!(r.latency_ms, 12);
    assert_eq!(r.method, "post");
    // not JSON: no body
    assert!(r.body.is_none());
    let ok = response_result(&e, 201, 3, "{}".to_string());
    assert!(ok.passed);
    assert!(ok.error.is_none());
    assert_eq!(ok.body, Some(JsonValue::Object(vec![])));
}

#[test]
fn response_body_is_read_as_json() {
    let e = ep(None);
    let r = response_result(
        &e,
        200,
        5,
        r#"{"id": 42, "name": "ann", "ok": true, "tags": ["a", null], "score": 1.5}"#.to_string(),
    );
    assert_eq!(
        r.body,
        Some(JsonValue::Object(vec![
            ("id".to_string(), JsonValue::Number("42".to_string())),
            ("name".to_string(), JsonValue::String("ann".to_string())),
            ("ok".to_string(), JsonValue::Bool(true)),
            ("score".to_string(), JsonValue::Number("1.5".to_string())),
            (
                "tags".to_string(),
                JsonValue::Array(vec![JsonValue::String("a".to_string()), JsonValue::Null])
            ),
        ]))
    );
    let text = response_result(&e, 200, 5, "7".to_string());
    assert_eq!(text.body, Some(JsonValue::Number("7".to_string())));
    let empty = response_result(&e, 200, 5, String::new());
    assert!(empty.body.is_none());
}

#[test]
fn judged_response_keeps_what_it_is_given() {
    let e = ep(Some(201));
    let body = Some(JsonValue::Bool(false));
    let r = judge_response(&e, 404, 8, "nope".to_string(), body);
    assert!(!r.passed);
    assert_eq!(r.error.as_deref(), Some("nope"));
    assert_eq!(r.body, Some(JsonValue::Bool(false)));
    assert_eq!(r.expected_status, Some(201));
    assert_eq!(r.endpoint_name, "users");
    assert_eq!(r.path, "/api/users/{{id}}");
    let ok = judge_response(&e, 201, 8, "x".to_string(), None);
    assert!(ok.passed);
    assert!(ok.body.is_none());
}

#[test]
fn network_error() {
    let e = ep(None);
    let r = network_error_result(&e, 30, "connection refused");
    assert!(!r.passed);
    assert_eq!(r.actual_status, 0);
    assert_eq!(r.error.as_deref(), Some("network error: connection refused"));
    assert!(r.body.is_none());
}

#[test]
fn capture_only_on_pass() {
    let e = ep(None);
    let failed = response_result(&e, 500, 1, r#"{"id": 9}"#.to_string());
    let mut ctx = StrMap::new();
    capture_on_pass(&e, &failed, &mut ctx);
    assert_eq!(ctx.len(), 0);
    let passed = response_result(&e, 200, 1, r#"{"id": 9}"#.to_string());
    capture_on_pass(&e, &passed, &mut ctx);
    assert_eq!(ctx.get(&"uid".to_string()).unwrap(), "9");
}

#[test]
fn chained_request_fills_later_placeholder() {
    let e = ep(None);
    let passed = response_result(&e, 200, 1, r#"{"id": "u-77"}"#.to_string());
    let mut ctx = StrMap::new();
    capture_on_pass(&e, &passed, &mut ctx);
    assert_eq!(blast::template::resolve_str("{{uid}}", &ctx), "u-77");
    let later = Endpoint {
        name: "profile".to_string(),
        method: "GET".to_string(),
        path: "/me".to_string(),
        headers: Some(map(&[("X-User", "{{uid}}")])),
        body: None,
        expect_status: Some(200),
        extract: None,
        tags: None,
    };
    let r = prepare_request(&later, &None, "http://h", &ctx);
    assert_eq!(r.headers.get(&"X-User".to_string()).unwrap(), "u-77");
    assert_eq!(r.method, HttpMethod::Get);
    assert!(r.body.is_none());
}

#[test]
fn capture_misses_only_after_a_pass() {
    let e = ep(None);
    let failed = response_result(&e, 500, 1, r#"{"other": 1}"#.to_string());
    assert!(capture_misses(&e, &failed).is_empty());
    let passed = response_result(&e, 200, 1, r#"{"other": 1}"#.to_string());
    let misses = capture_misses(&e, &passed);
    assert_eq!(misses.len(), 1);
    assert_eq!((misses[0].var.as_str(), misses[0].path.as_str(), misses[0].reached), ("uid", "id", false));
    let not_json = response_result(&e, 200, 1, "plain".to_string());
    assert!(capture_misses(&e, &not_json).is_empty());
    let found = response_result(&e, 200, 1, r#"{"id": 3}"#.to_string());
    assert!(capture_misses(&e, &found).is_empty());
}
