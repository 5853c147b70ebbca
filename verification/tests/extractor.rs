use blast::extractor::{extract, get_path, missed_extractions};
use blast::json::JsonValue;
use blast::strmap::StrMap;
use blast::template::resolve_str;

fn s(x: &str) -> JsonValue {
    JsonValue::String(x.to_string())
}

fn obj(members: Vec<(&str, JsonValue)>) -> JsonValue {
    JsonValue::Object(members.into_iter().map(|(k, v)| (k.to_string(), v)).collect())
}

fn map(pairs: &[(&str, &str)]) -> StrMap {
    StrMap::from_pairs(pairs.iter().map(|(k, v)| (k.to_string(), v.to_string())).collect())
}

fn body() -> JsonValue {
    obj(vec![
        ("data", obj(vec![("access_token", s("tok-1")), ("count", JsonValue::Number("42".to_string()))])),
        ("items", JsonValue::Array(vec![obj(vec![("id", s("first"))]), obj(vec![("id", s("second"))])])),
        ("ok", JsonValue::Bool(true)),
        ("nothing", JsonValue::Null),
    ])
}

#[test]
fn get_path_follows_objects_and_arrays() {
    let b = body();
    assert_eq!(get_path(&b, "data.access_token"), Some(&s("tok-1")));
    assert_eq!(get_path(&b, "items.1.id"), Some(&s("second")));
    assert_eq!(get_path(&b, "items.+0.id"), Some(&s("first")));
    assert_eq!(get_path(&b, "items.2.id"), None);
    assert_eq!(get_path(&b, "items.-1.id"), None);
    assert_eq!(get_path(&b, "items.x"), None);
    assert_eq!(get_path(&b, "data.missing"), None);
    assert_eq!(get_path(&b, "ok.deeper"), None);
    assert_eq!(get_path(&b, ""), None);
}

#[test]
fn extract_sets_scalars_only() {
    let b = body();
    let rules = map(&[
        ("token", "data.access_token"),
        ("count", "data.count"),
        ("ok", "ok"),
        ("obj", "data"),
        ("arr", "items"),
        ("null", "nothing"),
        ("missing", "data.nope"),
    ]);
    let mut ctx = map(&[("keep", "me"), ("token", "old")]);
    extract(&b, &rules, &mut ctx);
    assert_eq!(ctx.get(&"token".to_string()).unwrap(), "tok-1");
    assert_eq!(ctx.get(&"count".to_string()).unwrap(), "42");
    assert_eq!(ctx.get(&"ok".to_string()).unwrap(), "true");
    assert_eq!(ctx.get(&"keep".to_string()).unwrap(), "me");
    assert!(ctx.get(&"obj".to_string()).is_none());
    assert!(ctx.get(&"arr".to_string()).is_none());
    assert!(ctx.get(&"null".to_string()).is_none());
    assert!(ctx.get(&"missing".to_string()).is_none());
    assert_eq!(ctx.len(), 4);
}

#[test]
fn captured_value_fills_placeholder() {
    let b = body();
    let rules = map(&[("access_token", "data.access_token")]);
    let mut ctx = StrMap::new();
    extract(&b, &rules, &mut ctx);
    assert_eq!(resolve_str("{{access_token}}", &ctx), "tok-1");
    assert_eq!(resolve_str("Bearer {{access_token}}", &ctx), "Bearer tok-1");
}

#[test]
fn extract_false_boolean() {
    let b = obj(vec![("flag", JsonValue::Bool(false))]);
    let mut ctx = StrMap::new();
    extract(&b, &map(&[("f", "flag")]), &mut ctx);
    assert_eq!(ctx.get(&"f".to_string()).unwrap(), "false");
}

#[test]
fn missed_extractions_say_why() {
    let b = body();
    let rules = map(&[
        ("tok", "data.access_token"),
        ("gone", "data.missing"),
        ("whole", "data"),
        ("n", "nothing"),
        ("first", "items.0.id"),
    ]);
    let missed: Vec<(String, String, bool)> =
        missed_extractions(&b, &rules).into_iter().map(|m| (m.var, m.path, m.reached)).collect();
    assert_eq!(
        missed,
        vec![
            ("gone".to_string(), "data.missing".to_string(), false),
            ("whole".to_string(), "data".to_string(), true),
            ("n".to_string(), "nothing".to_string(), true),
        ]
    );
    assert!(missed_extractions(&b, &map(&[("ok", "ok")])).is_empty());
}
