use blast::json::JsonValue;
use blast::strmap::StrMap;
use blast::template::{
    fake_kind, json_unknown_placeholders, map_unknown_placeholders, resolve, resolve_key, resolve_map,
    resolve_str, resolved_mixed, unknown_placeholders, FakeKind,
};

fn ctx(pairs: &[(&str, &str)]) -> StrMap {
    StrMap::from_pairs(pairs.iter().map(|(k, v)| (k.to_string(), v.to_string())).collect())
}

#[test]
fn plain_text_is_unchanged() {
    let c = ctx(&[("a", "1")]);
    assert_eq!(resolve_str("hello world", &c), "hello world");
    assert_eq!(resolve_str("", &c), "");
    assert_eq!(resolve_str("{ not } a placeholder }}", &c), "{ not } a placeholder }}");
}

#[test]
fn whole_placeholder_uses_context() {
    let c = ctx(&[("access_token", "abc123")]);
    assert_eq!(resolve_str("{{access_token}}", &c), "abc123");
    assert_eq!(resolve_str("{{  access_token  }}", &c), "abc123");
}

#[test]
fn mixed_placeholders_use_context() {
    let c = ctx(&[("access_token", "abc123"), ("id", "7")]);
    assert_eq!(resolve_str("Bearer {{access_token}}", &c), "Bearer abc123");
    assert_eq!(resolve_str("/users/{{ id }}/posts", &c), "/users/7/posts");
    assert_eq!(resolved_mixed("a{{id}}b{{id}}c", &c), "a7b7c");
}

#[test]
fn unknown_placeholder_left_unchanged() {
    let c = ctx(&[]);
    assert_eq!(resolve_str("{{nope}}", &c), "{{nope}}");
    assert_eq!(resolve_str("x {{nope}} y", &c), "x {{nope}} y");
    assert_eq!(resolve_key(&"nope".to_string(), &c), "{{nope}}");
}

#[test]
fn unterminated_placeholder_kept_as_text() {
    let c = ctx(&[("a", "1")]);
    assert_eq!(resolve_str("x {{a", &c), "x {{a");
    assert_eq!(resolve_str("{{a}} and {{a", &c), "1 and {{a");
}

#[test]
fn placeholders_anywhere_in_a_string() {
    // a string that starts with "{{" and ends with "}}" may still hold several placeholders
    let c = ctx(&[("a", "1"), ("b", "2")]);
    assert_eq!(resolve_str("{{a}}-{{b}}", &c), "1-2");
    assert_eq!(resolve_str("{{a}} and {{b}}", &c), "1 and 2");
    assert_eq!(resolve_str("{{a}}{{b}}", &c), "12");
    assert_eq!(resolve_str("{{ b }}", &c), "2");
}

#[test]
fn context_wins_over_fake() {
    let c = ctx(&[("fake.email", "fixed@example.com")]);
    assert_eq!(resolve_str("{{fake.email}}", &c), "fixed@example.com");
}

#[test]
fn fake_uuid_has_uuid_shape() {
    let c = ctx(&[]);
    let u = resolve_str("{{fake.uuid}}", &c);
    assert_eq!(u.len(), 36);
    let chars: Vec<char> = u.chars().collect();
    assert_eq!(chars[8], '-');
    assert_eq!(chars[13], '-');
    assert_eq!(chars[14], '4');
    assert_eq!(chars[18], '-');
    assert_eq!(chars[23], '-');
    for (i, ch) in chars.iter().enumerate() {
        if ![8, 13, 18, 23].contains(&i) {
            assert!(ch.is_ascii_digit() || ('a'..='f').contains(ch));
        }
    }
}

#[test]
fn fake_values_have_their_shapes() {
    let c = ctx(&[]);
    for _ in 0..20 {
        let w = resolve_key(&"fake.word".to_string(), &c);
        assert!(!w.is_empty() && w.chars().all(|ch| ch.is_ascii_lowercase()));
        let s = resolve_key(&"fake.sentence".to_string(), &c);
        assert!(s.ends_with('.'));
        let spaces = s.matches(' ').count();
        assert!((2..=6).contains(&spaces));
        let p = resolve_key(&"fake.paragraph".to_string(), &c);
        assert!(p.ends_with('.'));
        assert!(p.matches('\n').count() <= 1);
        let n = resolve_key(&"fake.name".to_string(), &c);
        let parts: Vec<&str> = n.split(' ').collect();
        assert_eq!(parts.len(), 2);
        assert!(parts[0].starts_with(|ch: char| ch.is_ascii_uppercase()));
        assert!(parts[1].starts_with(|ch: char| ch.is_ascii_uppercase()));
        let city = resolve_key(&"fake.city".to_string(), &c);
        let last = city.rsplit(' ').next().unwrap();
        assert!(city.contains(' ') && !last.is_empty() && last.chars().all(|ch| ch.is_ascii_lowercase()));
        let co = resolve_key(&"fake.company".to_string(), &c);
        assert!(["Inc", "and Sons", "LLC", "Group"].iter().any(|sfx| co.ends_with(&format!(" {sfx}"))));
        let e = resolve_key(&"fake.email".to_string(), &c);
        assert!(e.contains('@') && e.ends_with(".com"));
        let u = resolve_key(&"fake.username".to_string(), &c);
        assert!(u.starts_with(|ch: char| ch.is_ascii_lowercase()));
        assert!(u.chars().all(|ch| ch.is_ascii_lowercase() || ch.is_ascii_digit() || ch == '.' || ch == '_'));
        let d = resolve_key(&"fake.url".to_string(), &c);
        assert!((2..=4).contains(&d.len()) && d.chars().all(|ch| ch.is_ascii_lowercase()));
        let country = resolve_key(&"fake.country".to_string(), &c);
        assert!(country.starts_with(|ch: char| ch.is_ascii_uppercase()));
    }
}

#[test]
fn fake_email_and_password() {
    let c = ctx(&[]);
    let e = resolve_str("{{fake.email}}", &c);
    assert!(e.contains('@'));
    assert_ne!(e, "{{fake.email}}");
    let p = resolve_str("{{fake.password}}", &c);
    assert!(p.len() >= 8 && p.len() < 16);
    assert!(p.chars().all(|ch| ch.is_ascii_alphanumeric()));
}

#[test]
fn every_fake_key_generates_something_else() {
    let c = ctx(&[]);
    for key in [
        "fake.username", "fake.url", "fake.name", "fake.firstname", "fake.lastname", "fake.word",
        "fake.sentence", "fake.paragraph", "fake.company", "fake.city", "fake.country",
    ] {
        let placeholder = format!("{{{{{key}}}}}");
        let out = resolve_str(&placeholder, &c);
        assert_ne!(out, placeholder);
        assert!(fake_kind(&key.to_string()).is_some());
    }
    assert_eq!(fake_kind(&"fake.uuid".to_string()), Some(FakeKind::Uuid));
    assert_eq!(fake_kind(&"fake.nothing".to_string()), None);
}

#[test]
fn resolve_map_keeps_keys() {
    let c = ctx(&[("tok", "T")]);
    let h = ctx(&[("Authorization", "Bearer {{tok}}"), ("X-Plain", "v")]);
    let r = resolve_map(&h, &c);
    assert_eq!(r.len(), 2);
    assert_eq!(r.get(&"Authorization".to_string()).unwrap(), "Bearer T");
    assert_eq!(r.get(&"X-Plain".to_string()).unwrap(), "v");
}

#[test]
fn resolve_json_keeps_shape() {
    let c = ctx(&[("tok", "T")]);
    let v = JsonValue::Object(vec![
        ("a".to_string(), JsonValue::String("{{tok}}".to_string())),
        ("b".to_string(), JsonValue::Array(vec![
            JsonValue::Number("3".to_string()),
            JsonValue::Bool(true),
            JsonValue::Null,
            JsonValue::String("x{{tok}}".to_string()),
        ])),
    ]);
    let expected = JsonValue::Object(vec![
        ("a".to_string(), JsonValue::String("T".to_string())),
        ("b".to_string(), JsonValue::Array(vec![
            JsonValue::Number("3".to_string()),
            JsonValue::Bool(true),
            JsonValue::Null,
            JsonValue::String("xT".to_string()),
        ])),
    ]);
    assert_eq!(resolve(&v, &c), expected);
}

#[test]
fn resolution_without_fakes_is_deterministic() {
    let c = ctx(&[("a", "1"), ("b", "two")]);
    let t = "x{{a}}y{{ b }}z{{unknown}}";
    let first = resolve_str(t, &c);
    let second = resolve_str(t, &c);
    assert_eq!(first, second);
    assert_eq!(first, "x1ytwoz{{unknown}}");
}

#[test]
fn unknown_placeholders_are_reported_in_order() {
    let c = ctx(&[("a", "1")]);
    let keys = unknown_placeholders("{{a}} {{ b }} {{fake.email}} {{c}}{{b}} {{d", &c);
    assert_eq!(keys, vec!["b".to_string(), "c".to_string(), "b".to_string()]);
    assert_eq!(unknown_placeholders("{{ x }}", &c), vec!["x".to_string()]);
    assert!(unknown_placeholders("{{a}}", &c).is_empty());
    assert!(unknown_placeholders("plain", &c).is_empty());
    let h = ctx(&[("Authorization", "Bearer {{tok}}"), ("X-Id", "{{a}}-{{id}}")]);
    assert_eq!(map_unknown_placeholders(&h, &c), vec!["tok".to_string(), "id".to_string()]);
    let body = JsonValue::Object(vec![
        ("name".to_string(), JsonValue::String("{{who}}".to_string())),
        (
            "list".to_string(),
            JsonValue::Array(vec![
                JsonValue::String("{{a}}".to_string()),
                JsonValue::Number("3".to_string()),
                JsonValue::String("{{x}} and {{y}}".to_string()),
            ]),
        ),
    ]);
    assert_eq!(
        json_unknown_placeholders(&body, &c),
        vec!["who".to_string(), "x".to_string(), "y".to_string()]
    );
    assert!(json_unknown_placeholders(&JsonValue::Null, &c).is_empty());
}
