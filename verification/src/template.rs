//! Placeholder substitution: `{{name}}` in headers and request bodies is
//! replaced by a captured value or by generated fake data.

use fake::{Fake, faker};
use vstd::prelude::*;

use crate::json::JsonValue;
use crate::strmap::{StrMap, lemma_map_of_entry};
use crate::text::{
    chars_of, ends_double, eq_literal, find_double, find_double_from, lemma_find_double, push_str, spec_trim,
    starts_double, string_of_range, trim_bounds,
};

verus! {

/// Captured values, by variable name.
pub type Context = StrMap;

/// The kinds of fake data that `{{fake.*}}` placeholders generate.
#[derive(Debug, Clone, Copy, PartialEq, Eq, Structural)]
pub enum FakeKind {
    Email,
    Username,
    Password,
    Url,
    Name,
    FirstName,
    LastName,
    Word,
    Sentence,
    Paragraph,
    Company,
    City,
    Country,
    Uuid,
}

/// The kind of fake data that a placeholder key asks for.
pub open spec fn spec_fake_kind(key: Seq<char>) -> Option<FakeKind> {
    if key == "fake.email"@ {
        Some(FakeKind::Email)
    } else if key == "fake.username"@ {
        Some(FakeKind::Username)
    } else if key == "fake.password"@ {
        Some(FakeKind::Password)
    } else if key == "fake.url"@ {
        Some(FakeKind::Url)
    } else if key == "fake.name"@ {
        Some(FakeKind::Name)
    } else if key == "fake.firstname"@ {
        Some(FakeKind::FirstName)
    } else if key == "fake.lastname"@ {
        Some(FakeKind::LastName)
    } else if key == "fake.word"@ {
        Some(FakeKind::Word)
    } else if key == "fake.sentence"@ {
        Some(FakeKind::Sentence)
    } else if key == "fake.paragraph"@ {
        Some(FakeKind::Paragraph)
    } else if key == "fake.company"@ {
        Some(FakeKind::Company)
    } else if key == "fake.city"@ {
        Some(FakeKind::City)
    } else if key == "fake.country"@ {
        Some(FakeKind::Country)
    } else if key == "fake.uuid"@ {
        Some(FakeKind::Uuid)
    } else {
        None
    }
}

/// Exec form of `spec_fake_kind`.
pub fn fake_kind(key: &String) -> (r: Option<FakeKind>)
    ensures
        r == spec_fake_kind(key@),
{
    if eq_literal(key, "fake.email") {
        Some(FakeKind::Email)
    } else if eq_literal(key, "fake.username") {
        Some(FakeKind::Username)
    } else if eq_literal(key, "fake.password") {
        Some(FakeKind::Password)
    } else if eq_literal(key, "fake.url") {
        Some(FakeKind::Url)
    } else if eq_literal(key, "fake.name") {
        Some(FakeKind::Name)
    } else if eq_literal(key, "fake.firstname") {
        Some(FakeKind::FirstName)
    } else if eq_literal(key, "fake.lastname") {
        Some(FakeKind::LastName)
    } else if eq_literal(key, "fake.word") {
        Some(FakeKind::Word)
    } else if eq_literal(key, "fake.sentence") {
        Some(FakeKind::Sentence)
    } else if eq_literal(key, "fake.paragraph") {
        Some(FakeKind::Paragraph)
    } else if eq_literal(key, "fake.company") {
        Some(FakeKind::Company)
    } else if eq_literal(key, "fake.city") {
        Some(FakeKind::City)
    } else if eq_literal(key, "fake.country") {
        Some(FakeKind::Country)
    } else if eq_literal(key, "fake.uuid") {
        Some(FakeKind::Uuid)
    } else {
        None
    }
}

/// An ASCII lower-case letter.
pub open spec fn is_lower_ascii(c: char) -> bool {
    'a' <= c && c <= 'z'
}

/// An ASCII upper-case letter.
pub open spec fn is_upper_ascii(c: char) -> bool {
    'A' <= c && c <= 'Z'
}

/// An ASCII letter or digit.
pub open spec fn is_alphanumeric_ascii(c: char) -> bool {
    ('0' <= c && c <= '9') || is_upper_ascii(c) || is_lower_ascii(c)
}

/// A digit of lower-case hexadecimal.
pub open spec fn is_lower_hex(c: char) -> bool {
    ('0' <= c && c <= '9') || ('a' <= c && c <= 'f')
}

/// The number of times `c` occurs in `s`.
pub open spec fn count_char(s: Seq<char>, c: char) -> nat {
    s.filter(|x: char| x == c).len()
}

/// A hyphenated version-4 UUID as its `Display` writes it: 36 characters,
/// hyphens at positions 8, 13, 18 and 23, the version digit `4` at 14, and
/// lower-case hexadecimal digits everywhere else.
pub open spec fn uuid_shape(s: Seq<char>) -> bool {
    &&& s.len() == 36
    &&& s[8] == '-'
    &&& s[13] == '-'
    &&& s[18] == '-'
    &&& s[23] == '-'
    &&& s[14] == '4'
    &&& forall|i: int|
        0 <= i < 36 && i != 8 && i != 13 && i != 18 && i != 23 ==> is_lower_hex(#[trigger] s[i])
}

/// A word of the lorem list: lower-case ASCII letters, at least one.
pub open spec fn word_shape(s: Seq<char>) -> bool {
    s.len() > 0 && forall|i: int| 0 <= i < s.len() ==> is_lower_ascii(#[trigger] s[i])
}

/// A lorem sentence of 3 to 7 words: lower-case words split by single
/// spaces, closed by a full stop.
pub open spec fn sentence_shape(s: Seq<char>) -> bool {
    &&& s.len() >= 2
    &&& s.last() == '.'
    &&& 2 <= count_char(s, ' ') <= 6
    &&& forall|i: int| 0 <= i < s.len() - 1 ==> is_lower_ascii(#[trigger] s[i]) || s[i] == ' '
}

/// A lorem paragraph of one or two sentences of 4 to 9 words each, split by
/// a line break: it ends with a full stop.
pub open spec fn paragraph_shape(s: Seq<char>) -> bool {
    &&& s.len() >= 2
    &&& s.last() == '.'
    &&& 3 <= count_char(s, ' ') <= 16
    &&& count_char(s, '\n') <= 1
    &&& forall|i: int|
        0 <= i < s.len() ==> is_lower_ascii(#[trigger] s[i]) || s[i] == ' ' || s[i] == '.' || s[i]
            == '\n'
}

/// A first name of the name list: ASCII letters, the first one upper-case.
pub open spec fn first_name_shape(s: Seq<char>) -> bool {
    &&& s.len() > 0
    &&& is_upper_ascii(s[0])
    &&& forall|i: int| 0 <= i < s.len() ==> is_upper_ascii(#[trigger] s[i]) || is_lower_ascii(s[i])
}

/// A last name of the name list: ASCII letters and apostrophes, the first
/// character an upper-case letter.
pub open spec fn last_name_shape(s: Seq<char>) -> bool {
    &&& s.len() > 0
    &&& is_upper_ascii(s[0])
    &&& forall|i: int|
        0 <= i < s.len() ==> is_upper_ascii(#[trigger] s[i]) || is_lower_ascii(s[i]) || s[i] == '\''
}

/// A full name: a first name, one space, a last name.
pub open spec fn full_name_shape(s: Seq<char>) -> bool {
    exists|i: int|
        0 < i < s.len() && #[trigger] s[i] == ' ' && first_name_shape(s.subrange(0, i))
            && last_name_shape(s.subrange(i + 1, s.len() as int))
}

/// One of the company suffixes with its leading space: ` Inc`, ` and Sons`,
/// ` LLC` or ` Group`.
pub open spec fn company_suffix(t: Seq<char>) -> bool {
    t == " Inc"@ || t == " and Sons"@ || t == " LLC"@ || t == " Group"@
}

/// A company name: it starts with an upper-case letter (a last name) and
/// ends with a company suffix.
pub open spec fn company_shape(s: Seq<char>) -> bool {
    &&& s.len() > 0
    &&& is_upper_ascii(s[0])
    &&& exists|i: int| 0 < i < s.len() && company_suffix(#[trigger] s.subrange(i, s.len() as int))
}

/// A city name: it starts with an upper-case letter and ends with a space
/// and a lower-case suffix such as `ville` or `port`.
pub open spec fn city_shape(s: Seq<char>) -> bool {
    &&& s.len() > 0
    &&& is_upper_ascii(s[0])
    &&& exists|i: int|
        0 < i < s.len() && #[trigger] s[i] == ' ' && word_shape(s.subrange(i + 1, s.len() as int))
}

/// A country name of the country list: it starts with an upper-case letter.
pub open spec fn country_shape(s: Seq<char>) -> bool {
    s.len() > 0 && is_upper_ascii(s[0])
}

/// A user name: it starts with a lower-case letter, and holds only
/// lower-case letters, digits, `.` and `_`.
pub open spec fn username_shape(s: Seq<char>) -> bool {
    &&& s.len() > 0
    &&& is_lower_ascii(s[0])
    &&& forall|i: int|
        0 <= i < s.len() ==> is_lower_ascii(#[trigger] s[i]) || ('0' <= s[i] && s[i] <= '9')
            || s[i] == '.' || s[i] == '_'
}

/// A free e-mail address: it holds an `@` and ends with `.com`, as each of
/// the free providers does.
pub open spec fn email_shape(s: Seq<char>) -> bool {
    &&& s.contains('@')
    &&& s.len() >= 4
    &&& s[s.len() - 4] == '.'
    &&& s[s.len() - 3] == 'c'
    &&& s[s.len() - 2] == 'o'
    &&& s[s.len() - 1] == 'm'
}

/// A domain suffix of the suffix list: 2 to 4 lower-case letters.
pub open spec fn domain_suffix_shape(s: Seq<char>) -> bool {
    2 <= s.len() <= 4 && word_shape(s)
}

/// A password: between 8 and 15 ASCII letters and digits.
pub open spec fn password_shape(s: Seq<char>) -> bool {
    8 <= s.len() < 16 && forall|i: int| 0 <= i < s.len() ==> is_alphanumeric_ascii(#[trigger] s[i])
}

/// What holds of every value that a fake generator of kind `kind` returns.
pub open spec fn fake_shape(kind: FakeKind, s: Seq<char>) -> bool {
    match kind {
        FakeKind::Email => email_shape(s),
        FakeKind::Username => username_shape(s),
        FakeKind::Password => password_shape(s),
        FakeKind::Url => domain_suffix_shape(s),
        FakeKind::Name => full_name_shape(s),
        FakeKind::FirstName => first_name_shape(s),
        FakeKind::LastName => last_name_shape(s),
        FakeKind::Word => word_shape(s),
        FakeKind::Sentence => sentence_shape(s),
        FakeKind::Paragraph => paragraph_shape(s),
        FakeKind::Company => company_shape(s),
        FakeKind::City => city_shape(s),
        FakeKind::Country => country_shape(s),
        FakeKind::Uuid => uuid_shape(s),
    }
}

/// `faker::internet::en::FreeEmail`: `username@provider`, where every free
/// provider of the English list is a `.com` domain (see `email_shape`).
/// Which address comes out is left to chance.
#[verifier::external_body]
fn fake_free_email() -> (s: String)
    ensures
        email_shape(s@),
{
    faker::internet::en::FreeEmail().fake()
}

/// `faker::internet::en::Username`: a lower-cased first name, alone or
/// joined to a lorem word by `.` or `_`, or followed by a number (see
/// `username_shape`).
#[verifier::external_body]
fn fake_username() -> (s: String)
    ensures
        username_shape(s@),
{
    faker::internet::en::Username().fake()
}

/// `faker::internet::en::Password(8..16)`: between 8 and 15 characters, each
/// drawn from the ASCII letters and digits.
#[verifier::external_body]
fn fake_password() -> (s: String)
    ensures
        password_shape(s@),
{
    faker::internet::en::Password(8..16).fake()
}

/// `faker::internet::en::DomainSuffix`: one of `com`, `biz`, `info`, `name`,
/// `net`, `org`, `io`, `co` (see `domain_suffix_shape`).
#[verifier::external_body]
fn fake_domain_suffix() -> (s: String)
    ensures
        domain_suffix_shape(s@),
{
    faker::internet::en::DomainSuffix().fake::<String>()
}

/// `faker::name::en::Name`: a first name and a last name, joined by a space.
#[verifier::external_body]
fn fake_name() -> (s: String)
    ensures
        full_name_shape(s@),
{
    faker::name::en::Name().fake()
}

/// `faker::name::en::FirstName`: an entry of the first-name list.
#[verifier::external_body]
fn fake_first_name() -> (s: String)
    ensures
        first_name_shape(s@),
{
    faker::name::en::FirstName().fake()
}

/// `faker::name::en::LastName`: an entry of the last-name list.
#[verifier::external_body]
fn fake_last_name() -> (s: String)
    ensures
        last_name_shape(s@),
{
    faker::name::en::LastName().fake()
}

/// `faker::lorem::en::Word`: an entry of the lorem word list.
#[verifier::external_body]
fn fake_word() -> (s: String)
    ensures
        word_shape(s@),
{
    faker::lorem::en::Word().fake()
}

/// `faker::lorem::en::Sentence(3..8)`: 3 to 7 lorem words joined by spaces,
/// followed by a full stop.
#[verifier::external_body]
fn fake_sentence() -> (s: String)
    ensures
        sentence_shape(s@),
{
    faker::lorem::en::Sentence(3..8).fake()
}

/// `faker::lorem::en::Paragraph(1..3)`: one or two sentences of 4 to 9 lorem
/// words each, joined by a line break.
#[verifier::external_body]
fn fake_paragraph() -> (s: String)
    ensures
        paragraph_shape(s@),
{
    faker::lorem::en::Paragraph(1..3).fake()
}

/// `faker::company::en::CompanyName`: `{last name} {suffix}` or
/// `{last name} and {last name} {suffix}`, the suffix one of `Inc`,
/// `and Sons`, `LLC`, `Group`.
#[verifier::external_body]
fn fake_company() -> (s: String)
    ensures
        company_shape(s@),
{
    faker::company::en::CompanyName().fake()
}

/// `faker::address::en::CityName`: a first name, a last name or a prefixed
/// full name, then a space and a lower-case city suffix.
#[verifier::external_body]
fn fake_city() -> (s: String)
    ensures
        city_shape(s@),
{
    faker::address::en::CityName().fake()
}

/// `faker::address::en::CountryName`: an entry of the country list, each of
/// which starts with an upper-case letter.
#[verifier::external_body]
fn fake_country() -> (s: String)
    ensures
        country_shape(s@),
{
    faker::address::en::CountryName().fake()
}

/// `uuid::Uuid::new_v4` written by its `Display`: a random version-4 UUID in
/// hyphenated lower-case form (see `uuid_shape`).
#[verifier::external_body]
fn fake_uuid() -> (s: String)
    ensures
        uuid_shape(s@),
{
    uuid::Uuid::new_v4().to_string()
}

/// Fresh fake data of the given kind.
pub fn generate(kind: FakeKind) -> (s: String)
    ensures
        fake_shape(kind, s@),
{
    match kind {
        FakeKind::Email => fake_free_email(),
        FakeKind::Username => fake_username(),
        FakeKind::Password => fake_password(),
        FakeKind::Url => fake_domain_suffix(),
        FakeKind::Name => fake_name(),
        FakeKind::FirstName => fake_first_name(),
        FakeKind::LastName => fake_last_name(),
        FakeKind::Word => fake_word(),
        FakeKind::Sentence => fake_sentence(),
        FakeKind::Paragraph => fake_paragraph(),
        FakeKind::Company => fake_company(),
        FakeKind::City => fake_city(),
        FakeKind::Country => fake_country(),
        FakeKind::Uuid => fake_uuid(),
    }
}

/// What a placeholder key may resolve to: the captured value when the
/// context holds the key; otherwise fresh fake data for a `fake.*` key;
/// otherwise the placeholder itself, `{{key}}`, left unchanged.
pub open spec fn key_outcome(key: Seq<char>, ctx: Map<Seq<char>, Seq<char>>, out: Seq<char>) -> bool {
    if ctx.contains_key(key) {
        out == ctx[key]
    } else {
        match spec_fake_kind(key) {
            Some(kind) => fake_shape(kind, out),
            None => out == "{{"@ + key + "}}"@,
        }
    }
}

/// Resolves one placeholder key.
pub fn resolve_key(key: &String, ctx: &Context) -> (r: String)
    ensures
        key_outcome(key@, ctx@, r@),
{
    match ctx.get(key) {
        Some(v) => v.clone(),
        None => match fake_kind(key) {
            Some(kind) => generate(kind),
            None => {
                let mut s = String::new();
                push_str(&mut s, "{{");
                push_str(&mut s, key.as_str());
                push_str(&mut s, "}}");
                s
            },
        },
    }
}

/// A piece of a template: literal text, or a placeholder key.
pub enum Piece {
    Text(Seq<char>),
    Key(Seq<char>),
}

/// The pieces of `s[pos..]` when it is read as text with `{{key}}`
/// placeholders: each `{{` up to the next `}}` is a placeholder whose key is
/// trimmed; a `{{` without a closing `}}` is kept as text.
pub open spec fn mixed_pieces(s: Seq<char>, pos: int) -> Seq<Piece>
    decreases s.len() - pos,
{
    if pos < 0 || pos > s.len() {
        seq![]
    } else {
        match find_double(s, pos, '{') {
            None => seq![Piece::Text(s.subrange(pos, s.len() as int))],
            Some(a) => match find_double(s, a, '}') {
                Some(b) => if pos <= a && a + 2 <= b && b + 2 <= s.len() {
                    seq![
                        Piece::Text(s.subrange(pos, a)),
                        Piece::Key(spec_trim(s.subrange(a + 2, b))),
                    ] + mixed_pieces(s, b + 2)
                } else {
                    seq![]
                },
                None => seq![
                    Piece::Text(s.subrange(pos, a)),
                    Piece::Text(s.subrange(a, s.len() as int)),
                ],
            },
        }
    }
}

/// `s` is one placeholder as a whole: it starts with `{{`, ends with `}}`,
/// and holds no other `{{` or `}}` between them.
pub open spec fn whole_placeholder(s: Seq<char>) -> bool {
    &&& starts_double(s, '{')
    &&& ends_double(s, '}')
    &&& find_double(s, 2, '{') is None
    &&& find_double(s, 0, '}') == Some(s.len() - 2)
}

/// The pieces of a template string. A string that is one placeholder as a
/// whole gives that placeholder, whose key is everything between `{{` and
/// `}}`, trimmed; a string that holds `{{` elsewhere is cut into text and
/// placeholders; a string without `{{` is plain text.
pub open spec fn template_pieces(s: Seq<char>) -> Seq<Piece> {
    if whole_placeholder(s) {
        seq![Piece::Key(spec_trim(s.subrange(2, s.len() - 2)))]
    } else if find_double(s, 0, '{') is Some {
        mixed_pieces(s, 0)
    } else {
        seq![Piece::Text(s)]
    }
}

/// The concatenation of a list of strings.
pub open spec fn concat_all(vals: Seq<Seq<char>>) -> Seq<char>
    decreases vals.len(),
{
    if vals.len() == 0 {
        seq![]
    } else {
        concat_all(vals.drop_last()) + vals.last()
    }
}

pub proof fn lemma_concat_push(vals: Seq<Seq<char>>, x: Seq<char>)
    ensures
        concat_all(vals.push(x)) == concat_all(vals) + x,
{
    assert(vals.push(x).drop_last() =~= vals);
}

/// What a piece may be replaced by.
pub open spec fn piece_outcome(p: Piece, ctx: Map<Seq<char>, Seq<char>>, out: Seq<char>) -> bool {
    match p {
        Piece::Text(t) => out == t,
        Piece::Key(k) => key_outcome(k, ctx, out),
    }
}

/// `vals` replaces each piece by one of its outcomes.
pub open spec fn renders(pieces: Seq<Piece>, ctx: Map<Seq<char>, Seq<char>>, vals: Seq<Seq<char>>) -> bool {
    &&& vals.len() == pieces.len()
    &&& forall|i: int| 0 <= i < pieces.len() ==> #[trigger] piece_outcome(pieces[i], ctx, vals[i])
}

/// `out` is the pieces with each replaced by one of its outcomes.
pub open spec fn resolves_pieces(pieces: Seq<Piece>, ctx: Map<Seq<char>, Seq<char>>, out: Seq<char>) -> bool {
    exists|vals: Seq<Seq<char>>| #[trigger] renders(pieces, ctx, vals) && concat_all(vals) == out
}

/// `out` is `s` with its placeholders resolved against `ctx`.
pub open spec fn str_resolves(s: Seq<char>, ctx: Map<Seq<char>, Seq<char>>, out: Seq<char>) -> bool {
    resolves_pieces(template_pieces(s), ctx, out)
}

proof fn lemma_renders_push(
    pieces: Seq<Piece>,
    ctx: Map<Seq<char>, Seq<char>>,
    vals: Seq<Seq<char>>,
    p: Piece,
    v: Seq<char>,
)
    requires
        renders(pieces, ctx, vals),
        piece_outcome(p, ctx, v),
    ensures
        renders(pieces.push(p), ctx, vals.push(v)),
        concat_all(vals.push(v)) == concat_all(vals) + v,
{
    lemma_concat_push(vals, v);
    assert forall|i: int| 0 <= i < pieces.push(p).len() implies #[trigger] piece_outcome(
        pieces.push(p)[i],
        ctx,
        vals.push(v)[i],
    ) by {
        if i < pieces.len() {
            assert(piece_outcome(pieces[i], ctx, vals[i]));
        }
    }
}

/// Resolves the placeholders of a string that holds `{{` somewhere, piece by piece.
pub fn resolved_mixed(s: &str, ctx: &Context) -> (r: String)
    ensures
        resolves_pieces(mixed_pieces(s@, 0), ctx@, r@),
{
    let v = chars_of(s);
    let mut result = String::new();
    let mut pos: usize = 0;
    let ghost mut done: Seq<Piece> = seq![];
    let ghost mut vals: Seq<Seq<char>> = seq![];
    assert(concat_all(vals) =~= result@);
    loop
        invariant
            v@ == s@,
            0 <= pos <= v@.len(),
            mixed_pieces(s@, 0) == done + mixed_pieces(s@, pos as int),
            renders(done, ctx@, vals),
            concat_all(vals) == result@,
        decreases v@.len() - pos,
    {
        proof {
            lemma_find_double(v@, pos as int, '{');
        }
        match find_double_from(&v, pos, '{') {
            None => {
                let text = string_of_range(&v, pos, v.len());
                push_str(&mut result, text.as_str());
                proof {
                    lemma_renders_push(done, ctx@, vals, Piece::Text(text@), text@);
                    assert(mixed_pieces(s@, pos as int) == seq![Piece::Text(text@)]);
                    assert(done.push(Piece::Text(text@)) =~= done + mixed_pieces(s@, pos as int));
                    assert(renders(mixed_pieces(s@, 0), ctx@, vals.push(text@)));
                }
                return result;
            },
            Some(a) => {
                proof {
                    lemma_find_double(v@, a as int, '}');
                }
                let text = string_of_range(&v, pos, a);
                push_str(&mut result, text.as_str());
                proof {
                    lemma_renders_push(done, ctx@, vals, Piece::Text(text@), text@);
                    vals = vals.push(text@);
                    done = done.push(Piece::Text(text@));
                }
                match find_double_from(&v, a, '}') {
                    Some(b) => {
                        assert(b != a && b != a + 1);
                        let (ka, kb) = trim_bounds(&v, a + 2, b);
                        let key = string_of_range(&v, ka, kb);
                        let val = resolve_key(&key, ctx);
                        push_str(&mut result, val.as_str());
                        proof {
                            lemma_renders_push(done, ctx@, vals, Piece::Key(key@), val@);
                            let rest = mixed_pieces(s@, b + 2);
                            assert(mixed_pieces(s@, pos as int) == seq![
                                Piece::Text(text@),
                                Piece::Key(key@),
                            ] + rest);
                            vals = vals.push(val@);
                            done = done.push(Piece::Key(key@));
                            assert(mixed_pieces(s@, 0) =~= done + rest);
                        }
                        pos = b + 2;
                    },
                    None => {
                        let tail = string_of_range(&v, a, v.len());
                        push_str(&mut result, tail.as_str());
                        proof {
                            lemma_renders_push(done, ctx@, vals, Piece::Text(tail@), tail@);
                            assert(mixed_pieces(s@, pos as int) == seq![
                                Piece::Text(text@),
                                Piece::Text(tail@),
                            ]);
                            assert(mixed_pieces(s@, 0) =~= done.push(Piece::Text(tail@)));
                            assert(renders(mixed_pieces(s@, 0), ctx@, vals.push(tail@)));
                        }
                        return result;
                    },
                }
            },
        }
    }
}

/// Resolves the placeholders of a template string against a context.
pub fn resolve_str(s: &str, ctx: &Context) -> (r: String)
    ensures
        str_resolves(s@, ctx@, r@),
{
    let v = chars_of(s);
    let n = v.len();
    proof {
        lemma_find_double(v@, 0, '}');
    }
    let closes_at_end = match find_double_from(&v, 0, '}') {
        Some(b) => b + 2 == n,
        None => false,
    };
    if n >= 2 && v[0] == '{' && v[1] == '{' && v[n - 2] == '}' && v[n - 1] == '}'
        && find_double_from(&v, 2, '{').is_none() && closes_at_end {
        proof {
            lemma_find_double(v@, 0, '}');
            assert(whole_placeholder(s@));
        }
        let (ka, kb) = trim_bounds(&v, 2, n - 2);
        let key = string_of_range(&v, ka, kb);
        let val = resolve_key(&key, ctx);
        proof {
            let vals = seq![val@];
            assert(renders(template_pieces(s@), ctx@, vals));
            lemma_concat_push(Seq::<Seq<char>>::empty(), val@);
            assert(Seq::<Seq<char>>::empty().push(val@) =~= vals);
            assert(concat_all(Seq::<Seq<char>>::empty()) =~= Seq::<char>::empty());
            assert(concat_all(vals) =~= val@);
        }
        val
    } else if find_double_from(&v, 0, '{').is_some() {
        resolved_mixed(s, ctx)
    } else {
        let out = String::from_str(s);
        proof {
            let vals = seq![out@];
            assert(renders(template_pieces(s@), ctx@, vals));
            lemma_concat_push(Seq::<Seq<char>>::empty(), out@);
            assert(Seq::<Seq<char>>::empty().push(out@) =~= vals);
            assert(concat_all(Seq::<Seq<char>>::empty()) =~= Seq::<char>::empty());
            assert(concat_all(vals) =~= out@);
        }
        out
    }
}

/// Resolves the placeholders in every value of a map; the keys stay as they are.
pub fn resolve_map(map: &StrMap, ctx: &Context) -> (r: StrMap)
    ensures
        forall|k: Seq<char>| #[trigger] r@.contains_key(k) <==> map@.contains_key(k),
        forall|k: Seq<char>| #[trigger]
            map@.contains_key(k) ==> str_resolves(map@[k], ctx@, r@[k]),
{
    let mut out = StrMap::new();
    let n = map.len();
    let ghost ps = map.pairs();
    let mut i: usize = 0;
    while i < n
        invariant
            0 <= i <= n,
            n == ps.len(),
            ps == map.pairs(),
            crate::strmap::keys_distinct(ps),
            forall|j: int|
                0 <= j < i ==> #[trigger] out@.contains_key(ps[j].0) && str_resolves(
                    ps[j].1,
                    ctx@,
                    out@[ps[j].0],
                ),
            forall|k: Seq<char>| #[trigger]
                out@.contains_key(k) ==> exists|j: int| 0 <= j < i && #[trigger] ps[j].0 == k,
        decreases n - i,
    {
        let (k, v) = map.entry(i);
        let rv = resolve_str(v.as_str(), ctx);
        let ghost before = out@;
        out.insert(k.clone(), rv);
        proof {
            assert forall|j: int| 0 <= j < i + 1 implies #[trigger] out@.contains_key(ps[j].0)
                && str_resolves(ps[j].1, ctx@, out@[ps[j].0]) by {
                if j < i {
                    assert(ps[j].0 != ps[i as int].0);
                }
            }
            assert forall|key: Seq<char>| #[trigger] out@.contains_key(key) implies exists|j: int|
                0 <= j < i + 1 && #[trigger] ps[j].0 == key by {
                if key == ps[i as int].0 {
                    assert(ps[i as int].0 == key);
                } else {
                    assert(before.contains_key(key));
                }
            }
        }
        i = i + 1;
    }
    proof {
        assert forall|k: Seq<char>| #[trigger] map@.contains_key(k) implies out@.contains_key(k) by {
            let j = choose|j: int| 0 <= j < ps.len() && #[trigger] ps[j].0 == k;
            assert(out@.contains_key(ps[j].0));
        }
        assert forall|k: Seq<char>| #[trigger] out@.contains_key(k) implies map@.contains_key(k) by {
            let j = choose|j: int| 0 <= j < n && #[trigger] ps[j].0 == k;
            assert(crate::strmap::has_key(ps, k));
        }
        assert forall|k: Seq<char>| #[trigger] map@.contains_key(k) implies str_resolves(
            map@[k],
            ctx@,
            out@[k],
        ) by {
            let j = choose|j: int| 0 <= j < ps.len() && #[trigger] ps[j].0 == k;
            lemma_map_of_entry(ps, j);
            assert(out@.contains_key(ps[j].0));
        }
    }
    out
}

/// `out` is the JSON value `v` with the placeholders in all of its strings
/// resolved: arrays keep their length, objects keep their member names in
/// order, and null, booleans and numbers stay as they are.
pub open spec fn json_resolves(v: JsonValue, ctx: Map<Seq<char>, Seq<char>>, out: JsonValue) -> bool
    decreases v,
{
    match v {
        JsonValue::Null => out is Null,
        JsonValue::Bool(b) => out == JsonValue::Bool(b),
        JsonValue::Number(t) => out matches JsonValue::Number(u) && u@ == t@,
        JsonValue::String(s) => out matches JsonValue::String(o) && str_resolves(s@, ctx, o@),
        JsonValue::Array(a) => match out {
            JsonValue::Array(b) => a.len() == b.len() && forall|i: int|
                0 <= i < a.len() ==> json_resolves(#[trigger] a@[i], ctx, b@[i]),
            _ => false,
        },
        JsonValue::Object(m) => match out {
            JsonValue::Object(n) => m.len() == n.len() && forall|i: int|
                0 <= i < m.len() ==> (#[trigger] n@[i]).0@ == m@[i].0@ && json_resolves(
                    m@[i].1,
                    ctx,
                    n@[i].1,
                ),
            _ => false,
        },
    }
}

/// Resolves the placeholders in every string of a JSON value.
pub fn resolve(value: &JsonValue, ctx: &Context) -> (r: JsonValue)
    ensures
        json_resolves(*value, ctx@, r),
    decreases value,
{
    match value {
        JsonValue::Null => JsonValue::Null,
        JsonValue::Bool(b) => JsonValue::Bool(*b),
        JsonValue::Number(t) => JsonValue::Number(t.clone()),
        JsonValue::String(s) => JsonValue::String(resolve_str(s.as_str(), ctx)),
        JsonValue::Array(a) => {
            let mut out: Vec<JsonValue> = Vec::new();
            let mut i: usize = 0;
            while i < a.len()
                invariant
                    0 <= i <= a@.len(),
                    *value == JsonValue::Array(*a),
                    out@.len() == i,
                    forall|j: int| 0 <= j < i ==> json_resolves(#[trigger] a@[j], ctx@, out@[j]),
                decreases a.len() - i,
            {
                proof {
                    vstd::std_specs::vec::axiom_vec_index_decreases(*a, i as int);
                    assert(decreases_to!(*value => value->Array_0));
                    assert(decreases_to!(*value => a@[i as int]));
                }
                let x = resolve(&a[i], ctx);
                out.push(x);
                i = i + 1;
            }
            JsonValue::Array(out)
        },
        JsonValue::Object(m) => {
            let mut out: Vec<(String, JsonValue)> = Vec::new();
            let mut i: usize = 0;
            while i < m.len()
                invariant
                    0 <= i <= m@.len(),
                    *value == JsonValue::Object(*m),
                    out@.len() == i,
                    forall|j: int|
                        0 <= j < i ==> (#[trigger] out@[j]).0@ == m@[j].0@ && json_resolves(
                            m@[j].1,
                            ctx@,
                            out@[j].1,
                        ),
                decreases m.len() - i,
            {
                proof {
                    vstd::std_specs::vec::axiom_vec_index_decreases(*m, i as int);
                    assert(decreases_to!(*value => value->Object_0));
                    assert(decreases_to!(*value => m@[i as int]));
                    assert(decreases_to!(*value => m@[i as int].1));
                }
                let x = resolve(&m[i].1, ctx);
                out.push((m[i].0.clone(), x));
                i = i + 1;
            }
            JsonValue::Object(out)
        },
    }
}

/// A placeholder key that resolution leaves unchanged: it is neither in the
/// context nor a `fake.*` key.
pub open spec fn is_unknown_key(key: Seq<char>, ctx: Map<Seq<char>, Seq<char>>) -> bool {
    !ctx.contains_key(key) && spec_fake_kind(key) is None
}

/// The keys of the unknown placeholders among `pieces`, in order.
pub open spec fn unknown_keys(pieces: Seq<Piece>, ctx: Map<Seq<char>, Seq<char>>) -> Seq<Seq<char>>
    decreases pieces.len(),
{
    if pieces.len() == 0 {
        seq![]
    } else {
        let rest = unknown_keys(pieces.drop_last(), ctx);
        match pieces.last() {
            Piece::Key(k) => if is_unknown_key(k, ctx) {
                rest.push(k)
            } else {
                rest
            },
            Piece::Text(_) => rest,
        }
    }
}

/// The keys of the unknown placeholders of a template string, in order.
pub open spec fn str_unknowns(s: Seq<char>, ctx: Map<Seq<char>, Seq<char>>) -> Seq<Seq<char>> {
    unknown_keys(template_pieces(s), ctx)
}

/// The keys of the unknown placeholders in the strings of a JSON value, in
/// the order in which `resolve` meets them.
pub open spec fn json_unknowns(v: JsonValue, ctx: Map<Seq<char>, Seq<char>>) -> Seq<Seq<char>>
    decreases v, 1int,
{
    match v {
        JsonValue::String(s) => str_unknowns(s@, ctx),
        JsonValue::Array(_) => json_parts(v, ctx).flatten_alt(),
        JsonValue::Object(_) => json_parts(v, ctx).flatten_alt(),
        _ => seq![],
    }
}

/// The unknown placeholder keys of each element of an array, or of each
/// member value of an object, in order.
pub open spec fn json_parts(v: JsonValue, ctx: Map<Seq<char>, Seq<char>>) -> Seq<Seq<Seq<char>>>
    decreases v, 0int,
{
    match v {
        JsonValue::Array(a) => Seq::new(
            a@.len(),
            |i: int|
                if 0 <= i < a@.len() {
                    json_unknowns(a@[i], ctx)
                } else {
                    seq![]
                },
        ),
        JsonValue::Object(m) => Seq::new(
            m@.len(),
            |i: int|
                if 0 <= i < m@.len() {
                    json_unknowns(m@[i].1, ctx)
                } else {
                    seq![]
                },
        ),
        _ => seq![],
    }
}

/// The keys of the unknown placeholders in the values of a map, taken in
/// the order of its entries.
pub open spec fn map_unknowns(ps: Seq<(Seq<char>, Seq<char>)>, ctx: Map<Seq<char>, Seq<char>>) -> Seq<
    Seq<char>,
> {
    Seq::new(ps.len(), |i: int| str_unknowns(ps[i].1, ctx)).flatten_alt()
}

/// The views of a list of strings.
pub open spec fn views(v: Seq<String>) -> Seq<Seq<char>> {
    v.map_values(|x: String| x@)
}

proof fn lemma_views_push(v: Seq<String>, x: String)
    ensures
        views(v.push(x)) == views(v).push(x@),
{
    assert(views(v.push(x)) =~= views(v).push(x@));
}

proof fn lemma_flatten_step(f: spec_fn(int) -> Seq<Seq<char>>, i: int)
    requires
        0 <= i,
    ensures
        Seq::new((i + 1) as nat, f).flatten_alt() == Seq::new(i as nat, f).flatten_alt() + f(i),
{
    let a = Seq::new((i + 1) as nat, f);
    assert(a.drop_last() =~= Seq::new(i as nat, f));
}

fn is_unknown(key: &String, ctx: &Context) -> (r: bool)
    ensures
        r == is_unknown_key(key@, ctx@),
{
    ctx.get(key).is_none() && fake_kind(key).is_none()
}

/// Appends the keys of the unknown placeholders of `s` to `out`.
fn note_unknowns(s: &str, ctx: &Context, out: &mut Vec<String>)
    ensures
        views(final(out)@) == views(old(out)@) + str_unknowns(s@, ctx@),
{
    let v = chars_of(s);
    let n = v.len();
    proof {
        lemma_find_double(v@, 0, '}');
    }
    let closes_at_end = match find_double_from(&v, 0, '}') {
        Some(b) => b + 2 == n,
        None => false,
    };
    if n >= 2 && v[0] == '{' && v[1] == '{' && v[n - 2] == '}' && v[n - 1] == '}'
        && find_double_from(&v, 2, '{').is_none() && closes_at_end {
        proof {
            assert(whole_placeholder(s@));
        }
        let (ka, kb) = trim_bounds(&v, 2, n - 2);
        let key = string_of_range(&v, ka, kb);
        let ghost pieces = template_pieces(s@);
        proof {
            assert(pieces == seq![Piece::Key(key@)]);
            assert(Seq::<Piece>::empty().push(Piece::Key(key@)) =~= pieces);
            lemma_unknown_keys_push(Seq::<Piece>::empty(), Piece::Key(key@), ctx@);
            assert(unknown_keys(Seq::<Piece>::empty(), ctx@) == Seq::<Seq<char>>::empty());
        }
        if is_unknown(&key, ctx) {
            let ghost before = views(out@);
            proof {
                lemma_views_push(out@, key);
            }
            out.push(key);
            assert(views(out@) =~= before + str_unknowns(s@, ctx@));
        } else {
            assert(views(out@) =~= views(out@) + str_unknowns(s@, ctx@));
        }
    } else if find_double_from(&v, 0, '{').is_some() {
        note_mixed_unknowns(&v, ctx, out);
    } else {
        proof {
            let pieces = template_pieces(s@);
            assert(pieces == seq![Piece::Text(s@)]);
            assert(Seq::<Piece>::empty().push(Piece::Text(s@)) =~= pieces);
            lemma_unknown_keys_push(Seq::<Piece>::empty(), Piece::Text(s@), ctx@);
            assert(unknown_keys(Seq::<Piece>::empty(), ctx@) == Seq::<Seq<char>>::empty());
            assert(views(out@) =~= views(out@) + str_unknowns(s@, ctx@));
        }
    }
}

proof fn lemma_unknown_keys_push(done: Seq<Piece>, p: Piece, ctx: Map<Seq<char>, Seq<char>>)
    ensures
        unknown_keys(done.push(p), ctx) == unknown_keys(done, ctx) + match p {
            Piece::Key(k) => if is_unknown_key(k, ctx) {
                seq![k]
            } else {
                seq![]
            },
            Piece::Text(_) => seq![],
        },
{
    assert(done.push(p).drop_last() =~= done);
    let r = unknown_keys(done, ctx);
    assert(r.push(p->Key_0) =~= r + seq![p->Key_0]);
    assert(r =~= r + Seq::<Seq<char>>::empty());
}

/// Appends the keys of the unknown placeholders of `v`, read piece by piece
/// as a string that holds `{{` somewhere, to `out`.
fn note_mixed_unknowns(v: &Vec<char>, ctx: &Context, out: &mut Vec<String>)
    ensures
        views(final(out)@) == views(old(out)@) + unknown_keys(mixed_pieces(v@, 0), ctx@),
{
    let mut pos: usize = 0;
    let n = v.len();
    let ghost start = views(out@);
    let ghost mut done: Seq<Piece> = seq![];
    assert(start + unknown_keys(done, ctx@) =~= views(out@));
    loop
        invariant
            0 <= pos <= v@.len(),
            n == v@.len(),
            start == views(old(out)@),
            mixed_pieces(v@, 0) == done + mixed_pieces(v@, pos as int),
            views(out@) == start + unknown_keys(done, ctx@),
        decreases v@.len() - pos,
    {
        proof {
            lemma_find_double(v@, pos as int, '{');
        }
        match find_double_from(v, pos, '{') {
            None => {
                proof {
                    let t = Piece::Text(v@.subrange(pos as int, v@.len() as int));
                    lemma_unknown_keys_push(done, t, ctx@);
                    assert(mixed_pieces(v@, pos as int) == seq![t]);
                    assert(done.push(t) =~= done + mixed_pieces(v@, pos as int));
                    assert(mixed_pieces(v@, 0) == done.push(t));
                    assert(unknown_keys(done.push(t), ctx@) =~= unknown_keys(done, ctx@));
                    assert(views(out@) == start + unknown_keys(mixed_pieces(v@, 0), ctx@));
                }
                return ;
            },
            Some(a) => {
                proof {
                    lemma_find_double(v@, a as int, '}');
                    let t = Piece::Text(v@.subrange(pos as int, a as int));
                    lemma_unknown_keys_push(done, t, ctx@);
                    assert(unknown_keys(done.push(t), ctx@) =~= unknown_keys(done, ctx@));
                    done = done.push(t);
                }
                match find_double_from(v, a, '}') {
                    Some(b) => {
                        assert(b != a && b != a + 1);
                        let (ka, kb) = trim_bounds(v, a + 2, b);
                        let key = string_of_range(v, ka, kb);
                        let ghost kp = Piece::Key(key@);
                        proof {
                            let rest = mixed_pieces(v@, b + 2);
                            assert(mixed_pieces(v@, pos as int) == seq![
                                Piece::Text(v@.subrange(pos as int, a as int)),
                                kp,
                            ] + rest);
                            lemma_unknown_keys_push(done, kp, ctx@);
                        }
                        assert(b + 2 <= v@.len());
                        if is_unknown(&key, ctx) {
                            proof {
                                lemma_views_push(out@, key);
                            }
                            out.push(key);
                        }
                        proof {
                            let rest = mixed_pieces(v@, b + 2);
                            assert(views(out@) =~= start + unknown_keys(done.push(kp), ctx@));
                            done = done.push(kp);
                            assert(mixed_pieces(v@, 0) =~= done + rest);
                        }
                        pos = b + 2;
                    },
                    None => {
                        proof {
                            let t = Piece::Text(v@.subrange(a as int, v@.len() as int));
                            assert(mixed_pieces(v@, pos as int) == seq![
                                Piece::Text(v@.subrange(pos as int, a as int)),
                                t,
                            ]);
                            lemma_unknown_keys_push(done, t, ctx@);
                            assert(mixed_pieces(v@, 0) =~= done.push(t));
                            assert(unknown_keys(done.push(t), ctx@) =~= unknown_keys(done, ctx@));
                            assert(views(out@) == start + unknown_keys(mixed_pieces(v@, 0), ctx@));
                        }
                        return ;
                    },
                }
            },
        }
    }
}

/// The keys of the placeholders of `s` that resolution leaves unchanged
/// (neither captured nor `fake.*`), in order.
pub fn unknown_placeholders(s: &str, ctx: &Context) -> (r: Vec<String>)
    ensures
        views(r@) == str_unknowns(s@, ctx@),
{
    let mut out: Vec<String> = Vec::new();
    note_unknowns(s, ctx, &mut out);
    assert(views(out@) =~= str_unknowns(s@, ctx@));
    out
}

/// Appends `more` to `out`.
fn append_strings(out: &mut Vec<String>, more: Vec<String>)
    ensures
        views(final(out)@) == views(old(out)@) + views(more@),
{
    let ghost start = views(out@);
    let mut i: usize = 0;
    assert(start + views(more@.subrange(0, 0)) =~= start);
    while i < more.len()
        invariant
            0 <= i <= more@.len(),
            start == views(old(out)@),
            views(out@) == start + views(more@.subrange(0, i as int)),
        decreases more.len() - i,
    {
        let x = more[i].clone();
        proof {
            lemma_views_push(out@, x);
            assert(views(more@.subrange(0, i + 1)) =~= views(more@.subrange(0, i as int)).push(
                more@[i as int]@,
            ));
        }
        out.push(x);
        i = i + 1;
    }
    assert(more@.subrange(0, i as int) =~= more@);
}

/// The keys of the unknown placeholders in the strings of a JSON value, in
/// the order in which `resolve` meets them.
pub fn json_unknown_placeholders(value: &JsonValue, ctx: &Context) -> (r: Vec<String>)
    ensures
        views(r@) == json_unknowns(*value, ctx@),
    decreases value,
{
    match value {
        JsonValue::String(s) => {
            let r = unknown_placeholders(s.as_str(), ctx);
            assert(json_unknowns(*value, ctx@) == str_unknowns(s@, ctx@));
            assert(views(r@) == json_unknowns(*value, ctx@));
            r
        },
        JsonValue::Array(a) => {
            let ghost f = |i: int|
                if 0 <= i < a@.len() {
                    json_unknowns(a@[i], ctx@)
                } else {
                    seq![]
                };
            let mut out: Vec<String> = Vec::new();
            let mut i: usize = 0;
            assert(Seq::new(0, f).flatten_alt() =~= views(out@));
            while i < a.len()
                invariant
                    0 <= i <= a@.len(),
                    *value == JsonValue::Array(*a),
                    forall|j: int| #[trigger] f(j) == if 0 <= j < a@.len() {
                        json_unknowns(a@[j], ctx@)
                    } else {
                        seq![]
                    },
                    views(out@) == Seq::new(i as nat, f).flatten_alt(),
                decreases a.len() - i,
            {
                proof {
                    vstd::std_specs::vec::axiom_vec_index_decreases(*a, i as int);
                    assert(decreases_to!(*value => value->Array_0));
                    assert(decreases_to!(*value => a@[i as int]));
                    lemma_flatten_step(f, i as int);
                }
                let sub = json_unknown_placeholders(&a[i], ctx);
                append_strings(&mut out, sub);
                assert(f(i as int) == json_unknowns(a@[i as int], ctx@));
                assert(views(out@) =~= Seq::new((i + 1) as nat, f).flatten_alt());
                i = i + 1;
            }
            assert(Seq::new(a@.len(), f) =~= json_parts(*value, ctx@));
            assert(views(out@) == json_unknowns(*value, ctx@));
            out
        },
        JsonValue::Object(m) => {
            let ghost f = |i: int|
                if 0 <= i < m@.len() {
                    json_unknowns(m@[i].1, ctx@)
                } else {
                    seq![]
                };
            let mut out: Vec<String> = Vec::new();
            let mut i: usize = 0;
            assert(Seq::new(0, f).flatten_alt() =~= views(out@));
            while i < m.len()
                invariant
                    0 <= i <= m@.len(),
                    *value == JsonValue::Object(*m),
                    forall|j: int| #[trigger] f(j) == if 0 <= j < m@.len() {
                        json_unknowns(m@[j].1, ctx@)
                    } else {
                        seq![]
                    },
                    views(out@) == Seq::new(i as nat, f).flatten_alt(),
                decreases m.len() - i,
            {
                proof {
                    vstd::std_specs::vec::axiom_vec_index_decreases(*m, i as int);
                    assert(decreases_to!(*value => value->Object_0));
                    assert(decreases_to!(*value => m@[i as int]));
                    assert(decreases_to!(*value => m@[i as int].1));
                    lemma_flatten_step(f, i as int);
                }
                let sub = json_unknown_placeholders(&m[i].1, ctx);
                append_strings(&mut out, sub);
                assert(f(i as int) == json_unknowns(m@[i as int].1, ctx@));
                assert(views(out@) =~= Seq::new((i + 1) as nat, f).flatten_alt());
                i = i + 1;
            }
            assert(Seq::new(m@.len(), f) =~= json_parts(*value, ctx@));
            assert(views(out@) == json_unknowns(*value, ctx@));
            out
        },
        _ => {
            let out: Vec<String> = Vec::new();
            assert(views(out@) =~= json_unknowns(*value, ctx@));
            out
        },
    }
}

/// The keys of the unknown placeholders in the values of a map, taken in
/// the order of its entries.
pub fn map_unknown_placeholders(map: &StrMap, ctx: &Context) -> (r: Vec<String>)
    ensures
        views(r@) == map_unknowns(map.pairs(), ctx@),
{
    let ghost ps = map.pairs();
    let ghost f = |i: int| str_unknowns(ps[i].1, ctx@);
    let mut out: Vec<String> = Vec::new();
    let n = map.len();
    let mut i: usize = 0;
    assert(Seq::new(0, f).flatten_alt() =~= views(out@));
    while i < n
        invariant
            0 <= i <= n,
            n == ps.len(),
            ps == map.pairs(),
            forall|j: int| #[trigger] f(j) == str_unknowns(ps[j].1, ctx@),
            views(out@) == Seq::new(i as nat, f).flatten_alt(),
        decreases n - i,
    {
        let (_k, v) = map.entry(i);
        proof {
            lemma_flatten_step(f, i as int);
        }
        let ghost before = views(out@);
        note_unknowns(v.as_str(), ctx, &mut out);
        assert(f(i as int) == str_unknowns(v@, ctx@));
        assert(views(out@) =~= Seq::new((i + 1) as nat, f).flatten_alt());
        i = i + 1;
    }
    assert(Seq::new(n as nat, f) =~= Seq::new(ps.len(), |i: int| str_unknowns(ps[i].1, ctx@)));
    out
}

} // verus!
