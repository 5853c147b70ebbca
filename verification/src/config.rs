//! The configuration: base URL, global headers, endpoints and setup requests;
//! its validation, the default template, and selection of endpoints by tag.

use vstd::prelude::*;

use crate::error::BlastError;
use crate::json::JsonValue;
use crate::runner::{RequestResult, capture_on_pass, context_after};
use crate::strmap::StrMap;
use crate::text::{
    all_ascii, ascii_upper, decimal, decimal_of, eq_literal, push_str, to_uppercase, unicode_upper,
};

verus! {

/// The name of the configuration file in a project directory.
pub const CONFIG_FILENAME: &'static str = "blast.config.json";

/// One HTTP endpoint to exercise.
pub struct Endpoint {
    pub name: String,
    pub method: String,
    pub path: String,
    pub headers: Option<StrMap>,
    pub body: Option<JsonValue>,
    pub expect_status: Option<u16>,
    pub extract: Option<StrMap>,
    pub tags: Option<Vec<String>>,
}

/// A whole configuration.
pub struct BlastConfig {
    pub base_url: String,
    pub headers: Option<StrMap>,
    pub endpoints: Vec<Endpoint>,
    pub setup: Option<Vec<Endpoint>>,
}

/// The methods that a configuration may name, in upper case.
pub open spec fn is_valid_method(upper: Seq<char>) -> bool {
    ||| upper == "POST"@
    ||| upper == "GET"@
    ||| upper == "PATCH"@
    ||| upper == "DELETE"@
    ||| upper == "PUT"@
}

/// What is wrong with endpoint number `i` (counting from 0), if anything.
pub open spec fn endpoint_problem(ep: Endpoint, i: nat) -> Option<Seq<char>> {
    if ep.name@.len() == 0 {
        Some("endpoint "@ + decimal(i) + " is missing a name"@)
    } else if ep.path@.len() == 0 {
        Some("endpoint \""@ + ep.name@ + "\" is missing a path"@)
    } else if !is_valid_method(unicode_upper(ep.method@)) {
        Some(
            "endpoint \""@ + ep.name@ + "\" has invalid method \""@ + ep.method@
                + "\"\nvalid: POST, GET, PATCH, DELETE, PUT"@,
        )
    } else {
        None
    }
}

/// The problem of the first endpoint from position `i` on that has one.
pub open spec fn first_endpoint_problem(eps: Seq<Endpoint>, i: nat) -> Option<Seq<char>>
    decreases eps.len() - i,
{
    if i >= eps.len() {
        None
    } else {
        match endpoint_problem(eps[i as int], i) {
            Some(m) => Some(m),
            None => first_endpoint_problem(eps, i + 1),
        }
    }
}

/// What is wrong with a configuration, if anything: the first failed check,
/// in the order base URL, endpoint list, then each endpoint in turn.
pub open spec fn config_problem(c: BlastConfig) -> Option<Seq<char>> {
    if c.base_url@.len() == 0 {
        Some("base_url cannot be empty"@)
    } else if c.endpoints@.len() == 0 {
        Some("endpoints cannot be empty"@)
    } else {
        first_endpoint_problem(c.endpoints@, 0)
    }
}

/// Endpoint `ep` carries the tag `tag`.
pub open spec fn has_tag(ep: Endpoint, tag: Seq<char>) -> bool {
    ep.tags matches Some(ts) && exists|j: int| 0 <= j < ts@.len() && (#[trigger] ts@[j])@ == tag
}

/// Endpoint `ep` carries at least one tag.
pub open spec fn is_tagged(ep: Endpoint) -> bool {
    ep.tags matches Some(ts) && ts@.len() > 0
}

/// Some endpoint carries at least one tag.
pub open spec fn any_tagged(eps: Seq<Endpoint>) -> bool {
    exists|i: int| 0 <= i < eps.len() && is_tagged(#[trigger] eps[i])
}

/// The endpoints that carry `tag`, in order.
pub open spec fn filter_tagged(eps: Seq<Endpoint>, tag: Seq<char>) -> Seq<Endpoint>
    decreases eps.len(),
{
    if eps.len() == 0 {
        seq![]
    } else {
        let rest = filter_tagged(eps.drop_last(), tag);
        if has_tag(eps.last(), tag) {
            rest.push(eps.last())
        } else {
            rest
        }
    }
}

/// The endpoints that a command with tag `tag` targets: all of them when
/// no endpoint carries tags, else those that carry `tag`.
pub open spec fn select_endpoints(eps: Seq<Endpoint>, tag: Seq<char>) -> Seq<Endpoint> {
    if any_tagged(eps) {
        filter_tagged(eps, tag)
    } else {
        eps
    }
}

fn has_tag_exec(ep: &Endpoint, tag: &String) -> (r: bool)
    ensures
        r == has_tag(*ep, tag@),
{
    match &ep.tags {
        None => false,
        Some(ts) => {
            let mut j: usize = 0;
            while j < ts.len()
                invariant
                    0 <= j <= ts@.len(),
                    ep.tags == Some(*ts),
                    forall|k: int| 0 <= k < j ==> (#[trigger] ts@[k])@ != tag@,
                decreases ts.len() - j,
            {
                if ts[j] == *tag {
                    assert((ts@[j as int])@ == tag@);
                    assert(ep.tags matches Some(tt) && tt@ == ts@);
                    assert(has_tag(*ep, tag@));
                    return true;
                }
                j = j + 1;
            }
            false
        },
    }
}

/// Whether a configuration may name the method `method`: POST, GET, PATCH,
/// DELETE or PUT, in any case.
pub fn method_name_valid(method: &str) -> (r: bool)
    ensures
        r == is_valid_method(unicode_upper(method@)),
        all_ascii(method@) ==> r == is_valid_method(ascii_upper(method@)),
{
    let upper = to_uppercase(method);
    eq_literal(&upper, "POST") || eq_literal(&upper, "GET") || eq_literal(&upper, "PATCH")
        || eq_literal(&upper, "DELETE") || eq_literal(&upper, "PUT")
}

/// An endpoint with an ASCII method name passes its checks: it has a name,
/// a path, and a method that is one of POST, GET, PATCH, DELETE and PUT in
/// ASCII upper case.
pub open spec fn ascii_endpoint_fine(ep: Endpoint) -> bool {
    &&& ep.name@.len() > 0
    &&& ep.path@.len() > 0
    &&& is_valid_method(ascii_upper(ep.method@))
}

/// Every endpoint of `c` names its method in ASCII.
pub open spec fn ascii_methods(c: BlastConfig) -> bool {
    forall|k: int| 0 <= k < c.endpoints@.len() ==> all_ascii(#[trigger] c.endpoints@[k].method@)
}

/// A configuration whose method names are ASCII passes validation: a base
/// URL, at least one endpoint, and every endpoint passes its checks.
pub open spec fn ascii_config_fine(c: BlastConfig) -> bool {
    &&& c.base_url@.len() > 0
    &&& c.endpoints@.len() > 0
    &&& forall|k: int| 0 <= k < c.endpoints@.len() ==> ascii_endpoint_fine(#[trigger] c.endpoints@[k])
}

fn build_problem(ep: &Endpoint, i: usize) -> (r: Option<String>)
    ensures
        r matches Some(m) ==> endpoint_problem(*ep, i as nat) == Some(m@),
        r is None ==> endpoint_problem(*ep, i as nat) is None,
        all_ascii(ep.method@) ==> (r is None <==> ascii_endpoint_fine(*ep)),
{
    if ep.name.as_str().unicode_len() == 0 {
        let mut m = String::new();
        push_str(&mut m, "endpoint ");
        let d = decimal_of(i as u128);
        push_str(&mut m, d.as_str());
        push_str(&mut m, " is missing a name");
        return Some(m);
    }
    if ep.path.as_str().unicode_len() == 0 {
        let mut m = String::new();
        push_str(&mut m, "endpoint \"");
        push_str(&mut m, ep.name.as_str());
        push_str(&mut m, "\" is missing a path");
        return Some(m);
    }
    if !method_name_valid(ep.method.as_str()) {
        let mut m = String::new();
        push_str(&mut m, "endpoint \"");
        push_str(&mut m, ep.name.as_str());
        push_str(&mut m, "\" has invalid method \"");
        push_str(&mut m, ep.method.as_str());
        push_str(&mut m, "\"\nvalid: POST, GET, PATCH, DELETE, PUT");
        return Some(m);
    }
    None
}

fn config_error(msg: &str) -> (e: BlastError)
    ensures
        e matches BlastError::Config(m) && m@ == msg@,
{
    BlastError::Config(String::from_str(msg))
}

impl BlastConfig {
    /// Checks a loaded configuration. Fails with `BlastError::Config` and the
    /// message of the first problem that `config_problem` finds.
    pub fn validate(&self) -> (r: Result<(), BlastError>)
        ensures
            r is Ok <==> config_problem(*self) is None,
            r matches Err(e) ==> e matches BlastError::Config(m) && config_problem(*self) == Some(
                m@,
            ),
            ascii_methods(*self) ==> (r is Ok <==> ascii_config_fine(*self)),
    {
        if self.base_url.as_str().unicode_len() == 0 {
            return Err(config_error("base_url cannot be empty"));
        }
        if self.endpoints.len() == 0 {
            return Err(config_error("endpoints cannot be empty"));
        }
        let mut i: usize = 0;
        while i < self.endpoints.len()
            invariant
                0 <= i <= self.endpoints@.len(),
                self.base_url@.len() != 0,
                self.endpoints@.len() != 0,
                first_endpoint_problem(self.endpoints@, i as nat) == config_problem(*self),
                ascii_methods(*self) ==> forall|j: int|
                    0 <= j < i ==> ascii_endpoint_fine(#[trigger] self.endpoints@[j]),
            decreases self.endpoints.len() - i,
        {
            proof {
                if ascii_methods(*self) {
                    assert(all_ascii(self.endpoints@[i as int].method@));
                }
            }
            match build_problem(&self.endpoints[i], i) {
                Some(m) => {
                    proof {
                        if ascii_methods(*self) {
                            assert(!ascii_endpoint_fine(self.endpoints@[i as int]));
                        }
                    }
                    return Err(BlastError::Config(m));
                },
                None => {},
            }
            i = i + 1;
        }
        Ok(())
    }

    /// The endpoints that the command with tag `tag` targets: every endpoint
    /// when none carries a tag (an empty tag list carries none), else those
    /// that carry `tag`, in order.
    pub fn endpoint_for(&self, tag: &str) -> (r: Vec<&Endpoint>)
        ensures
            r@.map_values(|e: &Endpoint| *e) == select_endpoints(self.endpoints@, tag@),
    {
        let eps = &self.endpoints;
        let mut any = false;
        let mut i: usize = 0;
        while i < eps.len()
            invariant
                0 <= i <= eps@.len(),
                any <==> exists|k: int| 0 <= k < i && is_tagged(#[trigger] eps@[k]),
            decreases eps.len() - i,
        {
            let tagged = match &eps[i].tags {
                Some(ts) => ts.len() > 0,
                None => false,
            };
            if tagged {
                any = true;
            }
            i = i + 1;
        }
        let t = String::from_str(tag);
        let mut out: Vec<&Endpoint> = Vec::new();
        let mut i: usize = 0;
        while i < eps.len()
            invariant
                0 <= i <= eps@.len(),
                t@ == tag@,
                any == any_tagged(eps@),
                out@.map_values(|e: &Endpoint| *e) == (if any {
                    filter_tagged(eps@.subrange(0, i as int), tag@)
                } else {
                    eps@.subrange(0, i as int)
                }),
            decreases eps.len() - i,
        {
            let ghost before = out@;
            let ep = &eps[i];
            let keep = !any || has_tag_exec(ep, &t);
            if keep {
                out.push(ep);
            }
            proof {
                let pre = eps@.subrange(0, i as int);
                let post = eps@.subrange(0, i + 1);
                assert(post.drop_last() =~= pre);
                assert(post.last() == *ep);
                if keep {
                    assert(out@.map_values(|e: &Endpoint| *e) =~= before.map_values(
                        |e: &Endpoint| *e,
                    ).push(*ep));
                } else {
                    assert(out@ == before);
                }
            }
            i = i + 1;
        }
        assert(eps@.subrange(0, eps@.len() as int) =~= eps@);
        out
    }
}

/// A string with the characters of `lit`.
fn owned(lit: &str) -> (r: String)
    ensures
        r@ == lit@,
{
    String::from_str(lit)
}

/// `ts` holds exactly the tags `check` and `seed`, in that order.
pub open spec fn tags_check_seed(ts: Option<Vec<String>>) -> bool {
    ts matches Some(v) && v@.len() == 2 && v@[0]@ == "check"@ && v@[1]@ == "seed"@
}

/// A JSON object with the two string members `email` and `password`.
pub open spec fn credentials(body: Option<JsonValue>, email: Seq<char>, password: Seq<char>) -> bool {
    &&& body matches Some(JsonValue::Object(ms))
    &&& ms@.len() == 2
    &&& ms@[0].0@ == "email"@
    &&& ms@[0].1 matches JsonValue::String(e) && e@ == email
    &&& ms@[1].0@ == "password"@
    &&& ms@[1].1 matches JsonValue::String(p) && p@ == password
}

/// The health check endpoint of the template.
pub open spec fn is_template_health_check(ep: Endpoint) -> bool {
    &&& ep.name@ == "health check"@
    &&& ep.method@ == "GET"@
    &&& ep.path@ == "/health"@
    &&& ep.headers is None
    &&& ep.body is None
    &&& ep.expect_status == Some(200u16)
    &&& ep.extract is None
    &&& tags_check_seed(ep.tags)
}

/// The registration endpoint of the template.
pub open spec fn is_template_register(ep: Endpoint) -> bool {
    &&& ep.name@ == "register user"@
    &&& ep.method@ == "POST"@
    &&& ep.path@ == "/api/v1/auth/register"@
    &&& ep.headers is None
    &&& credentials(ep.body, "{{fake.email}}"@, "{{fake.password}}"@)
    &&& ep.expect_status == Some(201u16)
    &&& ep.extract is None
    &&& ep.tags is None
}

/// The login endpoint of the template.
pub open spec fn is_template_login(ep: Endpoint) -> bool {
    &&& ep.name@ == "login"@
    &&& ep.method@ == "POST"@
    &&& ep.path@ == "/api/v1/auth/login"@
    &&& ep.headers is None
    &&& credentials(ep.body, "test@example.com"@, "Seed1234!"@)
    &&& ep.expect_status == Some(200u16)
    &&& ep.extract matches Some(x) && x@ == map!["access_token"@ => "data.access_token"@]
    &&& tags_check_seed(ep.tags)
}

/// The configuration that `init` writes.
pub open spec fn is_template(c: BlastConfig) -> bool {
    &&& c.base_url@ == "http://localhost:3000/"@
    &&& c.headers matches Some(h) && h@ == map!["Content-Type"@ => "application/json"@]
    &&& c.setup matches Some(s) && s@.len() == 1 && is_template_health_check(s@[0])
    &&& c.endpoints@.len() == 3
    &&& is_template_health_check(c.endpoints@[0])
    &&& is_template_register(c.endpoints@[1])
    &&& is_template_login(c.endpoints@[2])
}

fn template_tags() -> (r: Option<Vec<String>>)
    ensures
        tags_check_seed(r),
{
    let mut v: Vec<String> = Vec::new();
    v.push(owned("check"));
    v.push(owned("seed"));
    Some(v)
}

fn template_credentials(email: &str, password: &str) -> (r: Option<JsonValue>)
    ensures
        credentials(r, email@, password@),
{
    let mut ms: Vec<(String, JsonValue)> = Vec::new();
    ms.push((owned("email"), JsonValue::String(owned(email))));
    ms.push((owned("password"), JsonValue::String(owned(password))));
    Some(JsonValue::Object(ms))
}

fn template_health_check() -> (ep: Endpoint)
    ensures
        is_template_health_check(ep),
{
    Endpoint {
        name: owned("health check"),
        method: owned("GET"),
        path: owned("/health"),
        headers: None,
        body: None,
        expect_status: Some(200),
        extract: None,
        tags: template_tags(),
    }
}

fn single(k: &str, v: &str) -> (m: StrMap)
    ensures
        m@ == map![k@ => v@],
{
    let mut m = StrMap::new();
    m.insert(owned(k), owned(v));
    assert(m@ =~= map![k@ => v@]);
    m
}

impl BlastConfig {
    /// The starting configuration that `init` writes: a local base URL, a
    /// JSON content type, a health check (also run as setup), a registration
    /// with fake credentials, and a login that captures an access token.
    pub fn template() -> (c: BlastConfig)
        ensures
            is_template(c),
    {
        let mut setup: Vec<Endpoint> = Vec::new();
        setup.push(template_health_check());
        let mut endpoints: Vec<Endpoint> = Vec::new();
        endpoints.push(template_health_check());
        endpoints.push(
            Endpoint {
                name: owned("register user"),
                method: owned("POST"),
                path: owned("/api/v1/auth/register"),
                headers: None,
                body: template_credentials("{{fake.email}}", "{{fake.password}}"),
                expect_status: Some(201),
                extract: None,
                tags: None,
            },
        );
        endpoints.push(
            Endpoint {
                name: owned("login"),
                method: owned("POST"),
                path: owned("/api/v1/auth/login"),
                headers: None,
                body: template_credentials("test@example.com", "Seed1234!"),
                expect_status: Some(200),
                extract: Some(single("access_token", "data.access_token")),
                tags: template_tags(),
            },
        );
        BlastConfig {
            base_url: owned("http://localhost:3000/"),
            headers: Some(single("Content-Type", "application/json")),
            endpoints,
            setup: Some(setup),
        }
    }
}

/// The message with which the setup phase stops when a request fails.
pub open spec fn setup_failure_message(ep: Endpoint, result: RequestResult) -> Seq<char> {
    "setup endpoint \""@ + ep.name@ + "\" failed with status "@ + decimal(
        result.actual_status as nat,
    ) + " \u{2014} cannot continue\nresponse: "@ + match result.error {
        Some(e) => e@,
        None => Seq::<char>::empty(),
    }
}

impl BlastConfig {
    /// The requests of the setup phase, in order; none without a setup section.
    pub fn setup_endpoints(&self) -> (r: &[Endpoint])
        ensures
            self.setup matches Some(s) ==> r@ == s@,
            self.setup is None ==> r@.len() == 0,
    {
        match &self.setup {
            Some(s) => s.as_slice(),
            None => {
                let empty: &[Endpoint] = &[];
                assert(empty@.len() == 0);
                empty
            },
        }
    }

    /// What the setup phase does with the result of one of its requests: a
    /// failed request stops the phase with `BlastError::Setup`; a passed one
    /// captures its variables into the context that later requests use.
    pub fn setup_step(endpoint: &Endpoint, result: &RequestResult, ctx: &mut StrMap) -> (r: Result<
        (),
        BlastError,
    >)
        ensures
            r is Ok <==> result.passed,
            r matches Err(e) ==> (e matches BlastError::Setup(m) && m@ == setup_failure_message(
                *endpoint,
                *result,
            )),
            final(ctx)@ == context_after(*endpoint, *result, old(ctx)@),
    {
        if !result.passed {
            let mut m = String::new();
            push_str(&mut m, "setup endpoint \"");
            push_str(&mut m, endpoint.name.as_str());
            push_str(&mut m, "\" failed with status ");
            let d = decimal_of(result.actual_status as u128);
            push_str(&mut m, d.as_str());
            push_str(&mut m, " \u{2014} cannot continue\nresponse: ");
            match &result.error {
                Some(e) => push_str(&mut m, e.as_str()),
                None => {},
            }
            assert(m@ == setup_failure_message(*endpoint, *result));
            return Err(BlastError::Setup(m));
        }
        capture_on_pass(endpoint, result, ctx);
        Ok(())
    }
}

} // verus!
