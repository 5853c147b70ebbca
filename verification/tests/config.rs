use blast::config::{method_name_valid, BlastConfig, Endpoint, CONFIG_FILENAME};
use blast::error::BlastError;
use blast::json::JsonValue;
use blast::runner::RequestResult;
use blast::strmap::StrMap;

fn ep(name: &str, method: &str, path: &str, tags: Option<&[&str]>) -> Endpoint {
    Endpoint {
        name: name.to_string(),
        method: method.to_string(),
        path: path.to_string(),
        headers: None,
        body: None,
        expect_status: None,
        extract: None,
        tags: tags.map(|t| t.iter().map(|x| x.to_string()).collect()),
    }
}

fn config(endpoints: Vec<Endpoint>) -> BlastConfig {
    BlastConfig { base_url: "http://localhost:3000".to_string(), headers: None, endpoints, setup: None }
}

fn config_message(r: Result<(), BlastError>) -> String {
    match r {
        Err(BlastError::Config(m)) => m,
        other => panic!("expected a config error, got {:?}", other),
    }
}

#[test]
fn template_is_valid() {
    let t = BlastConfig::template();
    assert!(t.validate().is_ok());
    assert_eq!(t.base_url, "http://localhost:3000/");
    assert_eq!(t.endpoints.len(), 3);
    assert_eq!(t.endpoints[2].name, "login");
    let x = t.endpoints[2].extract.as_ref().unwrap();
    assert_eq!(x.get(&"access_token".to_string()).unwrap(), "data.access_token");
    assert_eq!(t.setup.as_ref().unwrap().len(), 1);
    assert_eq!(t.headers.as_ref().unwrap().get(&"Content-Type".to_string()).unwrap(), "application/json");
    assert_eq!(CONFIG_FILENAME, "blast.config.json");
}

#[test]
fn validate_reports_empty_base_url() {
    let mut c = config(vec![ep("a", "GET", "/", None)]);
    c.base_url = String::new();
    assert_eq!(config_message(c.validate()), "base_url cannot be empty");
}

#[test]
fn validate_reports_no_endpoints() {
    let c = config(vec![]);
    assert_eq!(config_message(c.validate()), "endpoints cannot be empty");
}

#[test]
fn validate_reports_missing_name_with_index() {
    let c = config(vec![ep("a", "GET", "/", None), ep("", "GET", "/", None)]);
    assert_eq!(config_message(c.validate()), "endpoint 1 is missing a name");
}

#[test]
fn validate_reports_missing_path() {
    let c = config(vec![ep("users", "GET", "", None)]);
    assert_eq!(config_message(c.validate()), "endpoint \"users\" is missing a path");
}

#[test]
fn validate_reports_invalid_method() {
    let c = config(vec![ep("users", "FETCH", "/u", None)]);
    assert_eq!(
        config_message(c.validate()),
        "endpoint \"users\" has invalid method \"FETCH\"\nvalid: POST, GET, PATCH, DELETE, PUT"
    );
    // HEAD is sent by the runner but not accepted by validation
    let c = config(vec![ep("h", "HEAD", "/", None)]);
    assert!(c.validate().is_err());
}

#[test]
fn validate_accepts_lower_case_methods() {
    let c = config(vec![
        ep("a", "get", "/", None),
        ep("b", "Post", "/", None),
        ep("c", "patch", "/", None),
        ep("d", "delete", "/", None),
        ep("e", "put", "/", None),
    ]);
    assert!(c.validate().is_ok());
}

#[test]
fn endpoint_for_without_tags_selects_all() {
    let c = config(vec![ep("a", "GET", "/a", None), ep("b", "GET", "/b", None)]);
    let r = c.endpoint_for("run");
    assert_eq!(r.len(), 2);
    assert_eq!(r[0].name, "a");
    assert_eq!(r[1].name, "b");
}

#[test]
fn endpoint_for_with_tags_filters() {
    let c = config(vec![
        ep("a", "GET", "/a", Some(&["seed"])),
        ep("b", "GET", "/b", None),
        ep("c", "GET", "/c", Some(&["run", "stress"])),
        ep("d", "GET", "/d", Some(&["stress"])),
    ]);
    let names = |tag: &str| c.endpoint_for(tag).iter().map(|e| e.name.clone()).collect::<Vec<_>>();
    assert_eq!(names("seed"), vec!["a"]);
    assert_eq!(names("run"), vec!["c"]);
    assert_eq!(names("stress"), vec!["c", "d"]);
    assert!(names("check").is_empty());
}

#[test]
fn endpoint_for_with_only_empty_tag_lists_selects_all() {
    let c = config(vec![ep("a", "GET", "/a", Some(&[])), ep("b", "GET", "/b", None)]);
    let r = c.endpoint_for("seed");
    assert_eq!(r.len(), 2);
    assert_eq!(r[0].name, "a");
    assert_eq!(r[1].name, "b");
    // one tagged endpoint turns the filter on; the empty list then matches nothing
    let d = config(vec![ep("a", "GET", "/a", Some(&[])), ep("b", "GET", "/b", Some(&["seed"]))]);
    let names: Vec<String> = d.endpoint_for("seed").iter().map(|e| e.name.clone()).collect();
    assert_eq!(names, vec!["b"]);
}

fn result(passed: bool, status: u16, error: Option<&str>, body: Option<JsonValue>) -> RequestResult {
    RequestResult {
        endpoint_name: "login".to_string(),
        method: "POST".to_string(),
        path: "/login".to_string(),
        expected_status: Some(200),
        actual_status: status,
        latency_ms: 5,
        passed,
        error: error.map(|e| e.to_string()),
        body,
    }
}

#[test]
fn setup_step_fails_on_failed_request() {
    let mut e = ep("login", "POST", "/login", None);
    e.extract = Some(StrMap::from_pairs(vec![("t".to_string(), "token".to_string())]));
    let mut ctx = StrMap::new();
    let r = BlastConfig::setup_step(&e, &result(false, 401, Some("denied"), None), &mut ctx);
    match r {
        Err(BlastError::Setup(m)) => assert_eq!(
            m,
            "setup endpoint \"login\" failed with status 401 \u{2014} cannot continue\nresponse: denied"
        ),
        other => panic!("unexpected {:?}", other),
    }
    assert_eq!(ctx.len(), 0);
    let r = BlastConfig::setup_step(&e, &result(false, 0, None, None), &mut ctx);
    match r {
        Err(BlastError::Setup(m)) => {
            assert_eq!(m, "setup endpoint \"login\" failed with status 0 \u{2014} cannot continue\nresponse: ")
        }
        other => panic!("unexpected {:?}", other),
    }
}

#[test]
fn setup_step_captures_on_success() {
    let mut e = ep("login", "POST", "/login", None);
    e.extract = Some(StrMap::from_pairs(vec![("t".to_string(), "token".to_string())]));
    let body = JsonValue::Object(vec![("token".to_string(), JsonValue::String("abc".to_string()))]);
    let mut ctx = StrMap::new();
    let r = BlastConfig::setup_step(&e, &result(true, 200, None, Some(body)), &mut ctx);
    assert!(r.is_ok());
    assert_eq!(ctx.get(&"t".to_string()).unwrap(), "abc");
}

#[test]
fn setup_endpoints_of_config() {
    let mut c = config(vec![ep("a", "GET", "/", None)]);
    assert_eq!(c.setup_endpoints().len(), 0);
    c.setup = Some(vec![ep("s", "GET", "/s", None)]);
    assert_eq!(c.setup_endpoints()[0].name, "s");
}

#[test]
fn other_error_variants_carry_messages() {
    let errors = [
        BlastError::Request("r".to_string()),
        BlastError::Io("i".to_string()),
        BlastError::Json("j".to_string()),
    ];
    assert!(format!("{:?}", errors[0]).contains("Request"));
    assert!(format!("{:?}", errors[1]).contains("Io"));
    assert!(format!("{:?}", errors[2]).contains("Json"));
}

#[test]
fn method_names_are_checked_without_regard_to_case() {
    for m in ["GET", "get", "Post", "patch", "DELETE", "put"] {
        assert!(method_name_valid(m), "{m}");
    }
    for m in ["HEAD", "FETCH", "", "G ET"] {
        assert!(!method_name_valid(m), "{m}");
    }
}
