//! Extraction rules: values picked out of a JSON response by a dot path
//! (such as `data.access_token` or `items.0.id`) and stored in the context.

use vstd::prelude::*;

use crate::json::{JsonValue, member, spec_member};
use crate::strmap::{StrMap, has_key, keys_distinct, lemma_map_of_push, map_of};
use crate::text::{parse_usize, push_str, spec_parse_usize, spec_split, split_char};

verus! {

/// One step of a path: a member of an object, or an element of an array
/// whose index the segment spells in decimal.
pub open spec fn path_step(v: JsonValue, segment: Seq<char>) -> Option<JsonValue> {
    match v {
        JsonValue::Object(m) => spec_member(m@, segment),
        JsonValue::Array(a) => match spec_parse_usize(segment) {
            Some(n) => if n < a@.len() {
                Some(a@[n as int])
            } else {
                None
            },
            None => None,
        },
        _ => None,
    }
}

/// The value reached from `v` by following `segments` in turn.
pub open spec fn follow(v: JsonValue, segments: Seq<Seq<char>>) -> Option<JsonValue>
    decreases segments.len(),
{
    if segments.len() == 0 {
        Some(v)
    } else {
        match path_step(v, segments[0]) {
            Some(w) => follow(w, segments.drop_first()),
            None => None,
        }
    }
}

/// The value at a dot-separated path.
pub open spec fn spec_get_path(v: JsonValue, path: Seq<char>) -> Option<JsonValue> {
    follow(v, spec_split(path, '.'))
}

/// The value at a dot-separated path inside `value`.
pub fn get_path<'a>(value: &'a JsonValue, path: &str) -> (r: Option<&'a JsonValue>)
    ensures
        r matches Some(v) ==> spec_get_path(*value, path@) == Some(*v),
        r is None ==> spec_get_path(*value, path@) is None,
{
    let segments = split_char(path, '.');
    let ghost segs = spec_split(path@, '.');
    let mut current: &JsonValue = value;
    let mut i: usize = 0;
    assert(segs.skip(0) =~= segs);
    while i < segments.len()
        invariant
            0 <= i <= segments@.len(),
            segments@.len() == segs.len(),
            segs == spec_split(path@, '.'),
            forall|k: int| 0 <= k < segments@.len() ==> #[trigger] segments@[k]@ == segs[k],
            follow(*value, segs) == follow(*current, segs.skip(i as int)),
        decreases segments.len() - i,
    {
        let seg = &segments[i];
        assert(segs.skip(i as int)[0] == seg@);
        assert(segs.skip(i as int).drop_first() =~= segs.skip(i + 1));
        let next: Option<&JsonValue> = match current {
            JsonValue::Object(m) => member(m, seg),
            JsonValue::Array(a) => match parse_usize(seg.as_str()) {
                Some(n) => if n < a.len() {
                    Some(&a[n])
                } else {
                    None
                },
                None => None,
            },
            _ => None,
        };
        match next {
            Some(w) => {
                current = w;
            },
            None => {
                return None;
            },
        }
        i = i + 1;
    }
    assert(segs.skip(i as int) =~= Seq::<Seq<char>>::empty());
    Some(current)
}

/// The text that extraction stores for a value: a string as it is, a number
/// as its JSON text, a boolean as `true` or `false`; objects, arrays and
/// null give nothing.
pub open spec fn extracted_text(v: Option<JsonValue>) -> Option<Seq<char>> {
    match v {
        Some(JsonValue::String(s)) => Some(s@),
        Some(JsonValue::Number(t)) => Some(t@),
        Some(JsonValue::Bool(b)) => Some(
            if b {
                "true"@
            } else {
                "false"@
            },
        ),
        _ => None,
    }
}

/// The text extracted from `body` at `path`.
pub open spec fn extracted_at(body: JsonValue, path: Seq<char>) -> Option<Seq<char>> {
    extracted_text(spec_get_path(body, path))
}

/// The variables that the rules `rules` (variable name to path) capture from `body`.
pub open spec fn extracted_map(body: JsonValue, rules: Map<Seq<char>, Seq<char>>) -> Map<
    Seq<char>,
    Seq<char>,
> {
    Map::new(
        |k: Seq<char>| rules.contains_key(k) && extracted_at(body, rules[k]) is Some,
        |k: Seq<char>| extracted_at(body, rules[k])->0,
    )
}

fn scalar_text(v: &JsonValue) -> (r: Option<String>)
    ensures
        r matches Some(t) ==> extracted_text(Some(*v)) == Some(t@),
        r is None ==> extracted_text(Some(*v)) is None,
{
    match v {
        JsonValue::String(s) => Some(s.clone()),
        JsonValue::Number(t) => Some(t.clone()),
        JsonValue::Bool(b) => {
            let mut s = String::new();
            if *b {
                push_str(&mut s, "true");
            } else {
                push_str(&mut s, "false");
            }
            Some(s)
        },
        _ => None,
    }
}

proof fn lemma_extracted_map_insert(
    body: JsonValue,
    m: Map<Seq<char>, Seq<char>>,
    k: Seq<char>,
    p: Seq<char>,
    ctx: Map<Seq<char>, Seq<char>>,
)
    requires
        !m.contains_key(k),
    ensures
        extracted_at(body, p) matches Some(t) ==> ctx.union_prefer_right(
            extracted_map(body, m.insert(k, p)),
        ) == ctx.union_prefer_right(extracted_map(body, m)).insert(k, t),
        extracted_at(body, p) is None ==> ctx.union_prefer_right(
            extracted_map(body, m.insert(k, p)),
        ) == ctx.union_prefer_right(extracted_map(body, m)),
{
    let a = ctx.union_prefer_right(extracted_map(body, m.insert(k, p)));
    let b = ctx.union_prefer_right(extracted_map(body, m));
    if let Some(t) = extracted_at(body, p) {
        assert(a =~= b.insert(k, t));
    } else {
        assert(a =~= b);
    }
}

/// Applies extraction rules (variable name to dot path) to a response
/// body: each path that reaches a string, number or boolean sets its
/// variable in the context; other paths leave the context as it was.
pub fn extract(body: &JsonValue, extract_rule: &StrMap, ctx: &mut StrMap)
    ensures
        final(ctx)@ == old(ctx)@.union_prefer_right(extracted_map(*body, extract_rule@)),
{
    let n = extract_rule.len();
    let ghost ps = extract_rule.pairs();
    let ghost start = ctx@;
    let mut i: usize = 0;
    assert(map_of(ps.subrange(0, 0)) =~= Map::<Seq<char>, Seq<char>>::empty());
    assert(start.union_prefer_right(extracted_map(*body, Map::<Seq<char>, Seq<char>>::empty()))
        =~= start);
    while i < n
        invariant
            0 <= i <= n,
            n == ps.len(),
            ps == extract_rule.pairs(),
            keys_distinct(ps),
            ctx@ == start.union_prefer_right(
                extracted_map(*body, map_of(ps.subrange(0, i as int))),
            ),
        decreases n - i,
    {
        let (var_name, path) = extract_rule.entry(i);
        let ghost pre = ps.subrange(0, i as int);
        proof {
            assert(keys_distinct(pre));
            if has_key(pre, var_name@) {
                let j = choose|j: int| 0 <= j < pre.len() && #[trigger] pre[j].0 == var_name@;
                assert(ps[j].0 != ps[i as int].0);
            }
            lemma_map_of_push(pre, var_name@, path@);
            assert(ps.subrange(0, i + 1) =~= pre.push((var_name@, path@)));
            lemma_extracted_map_insert(*body, map_of(pre), var_name@, path@, start);
        }
        match get_path(body, path.as_str()) {
            Some(value) => match scalar_text(value) {
                Some(val) => {
                    ctx.insert(var_name.clone(), val);
                },
                None => {},
            },
            None => {},
        }
        i = i + 1;
    }
    assert(ps.subrange(0, n as int) =~= ps);
}

/// An extraction rule that set nothing: its variable, its path, and whether
/// the path reached a value at all (then an object, an array or null, which
/// is skipped) or reached nothing.
pub struct MissedExtraction {
    pub var: String,
    pub path: String,
    pub reached: bool,
}

/// A missed extraction by its views.
pub open spec fn missed_view(m: MissedExtraction) -> (Seq<char>, Seq<char>, bool) {
    (m.var@, m.path@, m.reached)
}

/// The rules among `ps` (variable name, path), in order, that set nothing
/// from `body`, with whether their path reached a value.
pub open spec fn spec_missed(body: JsonValue, ps: Seq<(Seq<char>, Seq<char>)>) -> Seq<
    (Seq<char>, Seq<char>, bool),
>
    decreases ps.len(),
{
    if ps.len() == 0 {
        seq![]
    } else {
        let rest = spec_missed(body, ps.drop_last());
        let (var, path) = ps.last();
        if extracted_at(body, path) is None {
            rest.push((var, path, spec_get_path(body, path) is Some))
        } else {
            rest
        }
    }
}

/// The extraction rules that set nothing from `body`, in the order of the
/// rules, each with whether its path reached a value that is not a string,
/// number or boolean, or reached nothing.
pub fn missed_extractions(body: &JsonValue, extract_rule: &StrMap) -> (r: Vec<MissedExtraction>)
    ensures
        r@.map_values(|m: MissedExtraction| missed_view(m)) == spec_missed(*body, extract_rule.pairs()),
{
    let n = extract_rule.len();
    let ghost ps = extract_rule.pairs();
    let mut out: Vec<MissedExtraction> = Vec::new();
    let mut i: usize = 0;
    assert(out@.map_values(|m: MissedExtraction| missed_view(m)) =~= spec_missed(
        *body,
        ps.subrange(0, 0),
    ));
    while i < n
        invariant
            0 <= i <= n,
            n == ps.len(),
            ps == extract_rule.pairs(),
            out@.map_values(|m: MissedExtraction| missed_view(m)) == spec_missed(
                *body,
                ps.subrange(0, i as int),
            ),
        decreases n - i,
    {
        let (var_name, path) = extract_rule.entry(i);
        proof {
            assert(ps.subrange(0, i + 1).drop_last() =~= ps.subrange(0, i as int));
            assert(ps.subrange(0, i + 1).last() == (var_name@, path@));
        }
        let ghost before = out@;
        match get_path(body, path.as_str()) {
            Some(value) => match scalar_text(value) {
                Some(_) => {},
                None => {
                    out.push(MissedExtraction { var: var_name.clone(), path: path.clone(), reached: true });
                },
            },
            None => {
                out.push(MissedExtraction { var: var_name.clone(), path: path.clone(), reached: false });
            },
        }
        proof {
            if out@.len() > before.len() {
                assert(out@ == before.push(out@.last()));
                assert(out@.map_values(|m: MissedExtraction| missed_view(m)) =~= before.map_values(
                    |m: MissedExtraction| missed_view(m),
                ).push(missed_view(out@.last())));
            }
        }
        i = i + 1;
    }
    assert(ps.subrange(0, n as int) =~= ps);
    out
}

} // verus!
