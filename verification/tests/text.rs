use blast::strmap::StrMap;
use blast::runner::{method_of, HttpMethod};
use blast::text::{decimal_of, parse_usize, split_char, trim_bounds};

#[test]
fn parse_usize_like_std() {
    for s in ["0", "7", "+7", "0042", "18446744073709551615", "", "+", "-1", "1.5", " 1", "x", "18446744073709551616"] {
        assert_eq!(parse_usize(s), s.parse::<usize>().ok(), "input {:?}", s);
    }
}

#[test]
fn decimal_text() {
    assert_eq!(decimal_of(0), "0");
    assert_eq!(decimal_of(401), "401");
    assert_eq!(decimal_of(u128::MAX), u128::MAX.to_string());
}

#[test]
fn split_like_std() {
    for s in ["a.b.c", "", ".", "a.", ".a", "items.0.id"] {
        let mine = split_char(s, '.');
        let std: Vec<String> = s.split('.').map(|x| x.to_string()).collect();
        assert_eq!(mine, std);
    }
}

#[test]
fn trim_like_std() {
    for s in ["  a b  ", "", "   ", "\u{3000}x\u{85}", "x"] {
        let v: Vec<char> = s.chars().collect();
        let (a, b) = trim_bounds(&v, 0, v.len());
        let mine: String = v[a..b].iter().collect();
        assert_eq!(mine, s.trim());
    }
}

#[test]
fn methods_ignore_case_in_any_mix() {
    assert_eq!(method_of("dElEtE"), HttpMethod::Delete);
}

#[test]
fn map_insert_then_get() {
    let mut m = StrMap::new();
    m.insert("k".to_string(), "v1".to_string());
    m.insert("k".to_string(), "v2".to_string());
    m.insert("j".to_string(), "w".to_string());
    assert_eq!(m.len(), 2);
    assert_eq!(m.get(&"k".to_string()).unwrap(), "v2");
    let c = m.copy();
    assert_eq!(c.get(&"j".to_string()).unwrap(), "w");
    let (k0, v0) = m.entry(0);
    assert_eq!((k0.as_str(), v0.as_str()), ("k", "v2"));
    let mut e = StrMap::from_pairs(vec![("a".to_string(), "1".to_string()), ("a".to_string(), "2".to_string())]);
    assert_eq!(e.get(&"a".to_string()).unwrap(), "2");
    e.extend(&m);
    assert_eq!(e.len(), 3);
}
