//! Declarative, ordered normalizers applied to JSON Pointer targets.

use vstd::prelude::*;

use crate::json::{Json, JsonNumber, JsonValue, NumberModel};
use crate::pointer::{path_get, path_set, pointer_text, JsonPointer, JsonPointerError};
use crate::text::{
    all_digits, append_str, chars_of, digits_value, is_digit, is_whitespace, is_ws, string_from_chars,
    trim, trim_chars,
};

verus! {

// ---------------------------------------------------------------------------
// What the outside calls give
// ---------------------------------------------------------------------------

/// `str::to_lowercase` of `s` (Unicode lowercase mapping).
pub uninterp spec fn unicode_lowercase(s: Seq<char>) -> Seq<char>;

/// `str::to_uppercase` of `s` (Unicode uppercase mapping).
pub uninterp spec fn unicode_uppercase(s: Seq<char>) -> Seq<char>;

/// The display text of the `ParseIntError` that `i64::from_str` gives for `s`.
pub uninterp spec fn int_parse_error(s: Seq<char>) -> Seq<char>;

/// What `serde_json::Number::from_str` gives for `s`: the number, or the
/// display text of its error.
pub uninterp spec fn json_number_text(s: Seq<char>) -> Result<NumberModel, Seq<char>>;

/// `chrono::NaiveDate::parse_from_str(text, format)` rendered with
/// `format("%Y-%m-%d")`, when the text parses.
pub uninterp spec fn iso_date(text: Seq<char>, format: Seq<char>) -> Option<Seq<char>>;

/// The `Debug` text of the string slice `s` (quoted and escaped).
pub uninterp spec fn debug_text(s: Seq<char>) -> Seq<char>;

/// Trusted: `str::to_lowercase`.
#[verifier::external_body]
fn to_lowercase(s: &str) -> (r: String)
    ensures
        r@ == unicode_lowercase(s@),
{
    s.to_lowercase()
}

/// Trusted: `str::to_uppercase`.
#[verifier::external_body]
fn to_uppercase(s: &str) -> (r: String)
    ensures
        r@ == unicode_uppercase(s@),
{
    s.to_uppercase()
}

/// A decimal `i64` literal as `i64::from_str` reads it: an optional `+` or
/// `-`, then at least one ASCII digit, with a value in range.
pub open spec fn i64_decimal(s: Seq<char>) -> Option<int> {
    let negative = s.len() > 0 && s[0] == '-';
    let d = if s.len() > 0 && (s[0] == '+' || s[0] == '-') { s.drop_first() } else { s };
    if d.len() > 0 && all_digits(d) {
        let v = if negative { -digits_value(d) } else { digits_value(d) };
        if i64::MIN <= v <= i64::MAX {
            Some(v)
        } else {
            None
        }
    } else {
        None
    }
}

/// Trusted: `str::parse::<i64>`. Its documentation gives the accepted
/// syntax (an optional sign, then only digits) and the value; the error's
/// text is left to its name.
#[verifier::external_body]
fn parse_i64(s: &str) -> (r: Result<i64, String>)
    ensures
        match r {
            Ok(n) => i64_decimal(s@) == Some(n as int),
            Err(e) => i64_decimal(s@).is_none() && e@ == int_parse_error(s@),
        },
{
    s.parse::<i64>().map_err(|error| error.to_string())
}

/// Trusted: `serde_json::Number::from_str`. An integer that fits `u64` (or,
/// when negative, `i64`) comes back in that representation; any other number
/// as a float carried by its display text.
#[verifier::external_body]
fn parse_number(s: &str) -> (r: Result<JsonNumber, String>)
    ensures
        match r {
            Ok(n) => json_number_text(s@) == Ok::<NumberModel, Seq<char>>(n@),
            Err(e) => json_number_text(s@) == Err::<NumberModel, Seq<char>>(e@),
        },
{
    match s.parse::<serde_json::Number>() {
        Ok(number) => match (number.as_u64(), number.as_i64()) {
            (Some(n), _) => Ok(JsonNumber::PosInt(n)),
            (None, Some(n)) => Ok(JsonNumber::NegInt(n)),
            (None, None) => Ok(JsonNumber::Float(number.to_string())),
        },
        Err(error) => Err(error.to_string()),
    }
}

/// Trusted: `chrono::NaiveDate::parse_from_str`, and `NaiveDate::format`
/// with `%Y-%m-%d` on the date it gives.
#[verifier::external_body]
fn parse_date(text: &str, format: &str) -> (r: Option<String>)
    ensures
        match r {
            Some(d) => iso_date(text@, format@) == Some(d@),
            None => iso_date(text@, format@).is_none(),
        },
{
    chrono::NaiveDate::parse_from_str(text, format).ok().map(|date| date.format("%Y-%m-%d").to_string())
}

/// Trusted: `Debug` for `str`.
#[verifier::external_body]
fn debug_str(s: &str) -> (r: String)
    ensures
        r@ == debug_text(s@),
{
    format!("{:?}", s)
}

// ---------------------------------------------------------------------------
// Normalizers
// ---------------------------------------------------------------------------

/// One normalizer. All of them apply to string values only.
#[derive(Debug, Clone, PartialEq, Eq)]
pub enum Normalizer {
    TrimWhitespace,
    CollapseWhitespace,
    Lowercase,
    Uppercase,
    NullIfEmpty,
    ParseInteger,
    ParseNumber,
    StripCurrency,
    NormalizeDate { formats: Vec<String> },
}

pub open spec fn strings_view(v: Seq<String>) -> Seq<Seq<char>> {
    v.map_values(|s: String| s@)
}

/// A normalizer bound to the pointer it rewrites.
#[derive(Debug, Clone)]
pub struct NormalizerRule {
    pointer: JsonPointer,
    normalizer: Normalizer,
}

impl NormalizerRule {
    pub closed spec fn pointer_spec(&self) -> Seq<Seq<char>> {
        self.pointer@
    }

    pub closed spec fn normalizer_spec(&self) -> Normalizer {
        self.normalizer
    }

    pub fn new(pointer: JsonPointer, normalizer: Normalizer) -> (r: NormalizerRule)
        ensures
            r.pointer_spec() == pointer@,
            r.normalizer_spec() == normalizer,
    {
        NormalizerRule { pointer, normalizer }
    }

    pub fn pointer(&self) -> (p: &JsonPointer)
        ensures
            p@ == self.pointer_spec(),
    {
        &self.pointer
    }

    pub fn normalizer(&self) -> (n: &Normalizer)
        ensures
            *n == self.normalizer_spec(),
    {
        &self.normalizer
    }
}

/// A normalization that could not be applied, at the pointer where it failed.
#[derive(Debug, Clone)]
pub struct NormalizationError {
    pub pointer: JsonPointer,
    pub message: String,
}

impl NormalizationError {
    /// `"{pointer}: {message}"`, the error's display text.
    pub fn to_string(&self) -> (s: String)
        ensures
            s@ == pointer_text(self.pointer@) + ": "@ + self.message@,
    {
        let p = self.pointer.to_string();
        let mut v = chars_of(p.as_str());
        append_str(&mut v, ": ");
        append_str(&mut v, self.message.as_str());
        string_from_chars(v.as_slice())
    }
}

/// Whitespace runs collapsed to one space, with none at either end (what
/// `split_whitespace` joined by `" "` gives). `pending` records whitespace
/// seen since the last character written to `out`.
pub open spec fn collapse_from(s: Seq<char>, out: Seq<char>, pending: bool) -> Seq<char>
    decreases s.len(),
{
    if s.len() == 0 {
        out
    } else if is_ws(s[0]) {
        collapse_from(s.drop_first(), out, true)
    } else {
        let out2 = if pending && out.len() > 0 { out.push(' ') } else { out };
        collapse_from(s.drop_first(), out2.push(s[0]), false)
    }
}

pub open spec fn collapse(s: Seq<char>) -> Seq<char> {
    collapse_from(s, Seq::empty(), false)
}

/// The characters a currency amount keeps: ASCII digits, `.`, `-` and `+`.
pub open spec fn currency_char(c: char) -> bool {
    is_digit(c) || c == '.' || c == '-' || c == '+'
}

pub open spec fn strip_currency_spec(s: Seq<char>) -> Seq<char>
    decreases s.len(),
{
    if s.len() == 0 {
        Seq::empty()
    } else {
        let rest = strip_currency_spec(s.drop_last());
        if currency_char(s.last()) {
            rest.push(s.last())
        } else {
            rest
        }
    }
}

/// Stripping a currency amount keeps exactly its ASCII digits, `.`, `-` and
/// `+`, in their order (so a sign survives: `-$12.50` becomes `-12.50`).
pub proof fn lemma_strip_currency_keeps_number_chars(s: Seq<char>)
    ensures
        strip_currency_spec(s) == s.filter(|c: char| ('0' <= c && c <= '9') || c == '.' || c == '-' || c == '+'),
    decreases s.len(),
{
    reveal_with_fuel(Seq::<char>::filter, 1);
    if s.len() > 0 {
        lemma_strip_currency_keeps_number_chars(s.drop_last());
    }
}

/// The model of the number `i64` `n` converts to.
pub open spec fn int_number(n: int) -> NumberModel {
    if n >= 0 {
        NumberModel::PosInt(n as u64)
    } else {
        NumberModel::NegInt(n as i64)
    }
}

/// A JSON number read from `text` (trimmed first).
pub open spec fn number_result(text: Seq<char>) -> Result<Json, Seq<char>> {
    match json_number_text(trim(text)) {
        Ok(n) => Ok(Json::Number(n)),
        Err(e) => Err("invalid JSON number: "@ + e),
    }
}

/// The first of `formats` under which `text` is a date, as `YYYY-MM-DD`.
pub open spec fn first_date(text: Seq<char>, formats: Seq<Seq<char>>) -> Option<Seq<char>>
    decreases formats.len(),
{
    if formats.len() == 0 {
        None
    } else {
        match iso_date(text, formats[0]) {
            Some(d) => Some(d),
            None => first_date(text, formats.drop_first()),
        }
    }
}

/// What one normalizer makes of `value`, or the failure's message.
pub open spec fn apply_spec(value: Json, normalizer: Normalizer) -> Result<Json, Seq<char>> {
    match value {
        Json::Str(s) => match normalizer {
            Normalizer::TrimWhitespace => Ok(Json::Str(trim(s))),
            Normalizer::CollapseWhitespace => Ok(Json::Str(collapse(s))),
            Normalizer::Lowercase => Ok(Json::Str(unicode_lowercase(s))),
            Normalizer::Uppercase => Ok(Json::Str(unicode_uppercase(s))),
            Normalizer::NullIfEmpty => if trim(s).len() == 0 {
                Ok(Json::Null)
            } else {
                Ok(value)
            },
            Normalizer::ParseInteger => match i64_decimal(trim(s)) {
                Some(n) => Ok(Json::Number(int_number(n))),
                None => Err("invalid integer: "@ + int_parse_error(trim(s))),
            },
            Normalizer::ParseNumber => number_result(trim(s)),
            Normalizer::StripCurrency => number_result(strip_currency_spec(s)),
            Normalizer::NormalizeDate { formats } => match first_date(trim(s), strings_view(formats@)) {
                Some(d) => Ok(Json::Str(d)),
                None => Err(
                    "value "@ + debug_text(trim(s)) + " matched none of the declared date formats"@,
                ),
            },
        },
        _ => Err("normalizer requires a string value"@),
    }
}

/// One rule applied to `data`: a target that is absent is skipped; an error
/// carries the rule's pointer.
pub open spec fn apply_rule_spec(data: Json, pointer: Seq<Seq<char>>, normalizer: Normalizer) -> Result<
    Json,
    (Seq<Seq<char>>, Seq<char>),
> {
    match path_get(data, pointer) {
        Err(e) => Err((pointer, e.message_spec())),
        Ok(None) => Ok(data),
        Ok(Some(v)) => match apply_spec(v, normalizer) {
            Err(m) => Err((pointer, m)),
            Ok(r) => match path_set(data, pointer, r) {
                Ok(d) => Ok(d),
                Err(e) => Err((pointer, e.message_spec())),
            },
        },
    }
}

/// `rules` (as `(pointer, normalizer)` pairs) applied to `data` in order; the
/// first failure stops.
pub open spec fn normalize_spec(data: Json, rules: Seq<(Seq<Seq<char>>, Normalizer)>) -> Result<
    Json,
    (Seq<Seq<char>>, Seq<char>),
>
    decreases rules.len(),
{
    if rules.len() == 0 {
        Ok(data)
    } else {
        match normalize_spec(data, rules.drop_last()) {
            Err(e) => Err(e),
            Ok(d) => apply_rule_spec(d, rules.last().0, rules.last().1),
        }
    }
}

/// Once a rule fails, the later rules do not run: the first failure is the
/// result.
proof fn lemma_normalize_failure_stays(
    data: Json,
    rules: Seq<(Seq<Seq<char>>, Normalizer)>,
    k: int,
)
    requires
        0 <= k <= rules.len(),
        normalize_spec(data, rules.take(k)) is Err,
    ensures
        normalize_spec(data, rules) == normalize_spec(data, rules.take(k)),
    decreases rules.len() - k,
{
    if k < rules.len() {
        let next = rules.take(k + 1);
        assert(next.drop_last() == rules.take(k));
        lemma_normalize_failure_stays(data, rules, k + 1);
    } else {
        assert(rules.take(k) == rules);
    }
}

pub open spec fn rules_view(rules: Seq<NormalizerRule>) -> Seq<(Seq<Seq<char>>, Normalizer)> {
    rules.map_values(|r: NormalizerRule| (r.pointer_spec(), r.normalizer_spec()))
}

fn collapse_whitespace(s: &String) -> (r: String)
    ensures
        r@ == collapse(s@),
{
    let v = chars_of(s.as_str());
    let mut out: Vec<char> = Vec::new();
    let mut pending = false;
    let mut i: usize = 0;
    proof {
        assert(v@.skip(0) == v@);
    }
    while i < v.len()
        invariant
            i <= v@.len(),
            v@ == s@,
            collapse(s@) == collapse_from(v@.skip(i as int), out@, pending),
        decreases v@.len() - i,
    {
        let c = v[i];
        proof {
            assert(v@.skip(i as int)[0] == c);
            assert(v@.skip(i as int).drop_first() == v@.skip(i + 1));
        }
        if is_whitespace(c) {
            pending = true;
        } else {
            if pending && out.len() > 0 {
                out.push(' ');
            }
            out.push(c);
            pending = false;
        }
        i = i + 1;
    }
    string_from_chars(out.as_slice())
}

fn strip_currency(s: &String) -> (r: Vec<char>)
    ensures
        r@ == strip_currency_spec(s@),
{
    let v = chars_of(s.as_str());
    let mut out: Vec<char> = Vec::new();
    let mut i: usize = 0;
    while i < v.len()
        invariant
            i <= v@.len(),
            v@ == s@,
            out@ == strip_currency_spec(v@.take(i as int)),
        decreases v@.len() - i,
    {
        let c = v[i];
        proof {
            assert(v@.take(i + 1).drop_last() == v@.take(i as int));
            assert(v@.take(i + 1).last() == c);
        }
        if ('0' <= c && c <= '9') || c == '.' || c == '-' || c == '+' {
            out.push(c);
        }
        i = i + 1;
    }
    proof {
        assert(v@.take(i as int) == v@);
    }
    out
}

fn number_value(text: &Vec<char>) -> (r: Result<JsonValue, String>)
    ensures
        match r {
            Ok(v) => number_result(text@) == Ok::<Json, Seq<char>>(v@),
            Err(m) => number_result(text@) == Err::<Json, Seq<char>>(m@),
        },
{
    let t = trim_chars(text);
    let t = string_from_chars(t.as_slice());
    match parse_number(t.as_str()) {
        Ok(n) => Ok(JsonValue::from_number(n)),
        Err(e) => {
            let mut v = chars_of("invalid JSON number: ");
            append_str(&mut v, e.as_str());
            proof {
                reveal_strlit("invalid JSON number: ");
            }
            Err(string_from_chars(v.as_slice()))
        },
    }
}

fn first_date_of(text: &String, formats: &Vec<String>) -> (r: Option<String>)
    ensures
        match r {
            Some(d) => first_date(text@, strings_view(formats@)) == Some(d@),
            None => first_date(text@, strings_view(formats@)).is_none(),
        },
{
    let ghost fs = strings_view(formats@);
    let mut i: usize = 0;
    proof {
        assert(fs.skip(0) == fs);
    }
    while i < formats.len()
        invariant
            i <= formats@.len(),
            fs == strings_view(formats@),
            first_date(text@, fs) == first_date(text@, fs.skip(i as int)),
        decreases formats@.len() - i,
    {
        proof {
            assert(fs.skip(i as int)[0] == formats@[i as int]@);
            assert(fs.skip(i as int).drop_first() == fs.skip(i + 1));
        }
        match parse_date(text.as_str(), formats[i].as_str()) {
            Some(d) => {
                return Some(d);
            },
            None => {},
        }
        i = i + 1;
    }
    None
}

/// What `normalizer` makes of `value`; the error holds the message only.
fn apply_normalizer(value: &JsonValue, normalizer: &Normalizer) -> (r: Result<JsonValue, String>)
    ensures
        match r {
            Ok(v) => apply_spec(value@, *normalizer) == Ok::<Json, Seq<char>>(v@),
            Err(m) => apply_spec(value@, *normalizer) == Err::<Json, Seq<char>>(m@),
        },
{
    let s = match value.as_str() {
        Some(s) => s,
        None => {
            proof {
                reveal_strlit("normalizer requires a string value");
            }
            return Err("normalizer requires a string value".to_string());
        },
    };
    match normalizer {
        Normalizer::TrimWhitespace => {
            let v = chars_of(s.as_str());
            let t = trim_chars(&v);
            Ok(JsonValue::from_string(string_from_chars(t.as_slice())))
        },
        Normalizer::CollapseWhitespace => Ok(JsonValue::from_string(collapse_whitespace(s))),
        Normalizer::Lowercase => Ok(JsonValue::from_string(to_lowercase(s.as_str()))),
        Normalizer::Uppercase => Ok(JsonValue::from_string(to_uppercase(s.as_str()))),
        Normalizer::NullIfEmpty => {
            let v = chars_of(s.as_str());
            let t = trim_chars(&v);
            if t.len() == 0 {
                Ok(JsonValue::null())
            } else {
                Ok(value.duplicate())
            }
        },
        Normalizer::ParseInteger => {
            let v = chars_of(s.as_str());
            let t = trim_chars(&v);
            let t = string_from_chars(t.as_slice());
            match parse_i64(t.as_str()) {
                Ok(n) => Ok(JsonValue::from_number(JsonNumber::from_i64(n))),
                Err(e) => {
                    let mut m = chars_of("invalid integer: ");
                    append_str(&mut m, e.as_str());
                    proof {
                        reveal_strlit("invalid integer: ");
                    }
                    Err(string_from_chars(m.as_slice()))
                },
            }
        },
        Normalizer::ParseNumber => {
            let v = chars_of(s.as_str());
            let t = trim_chars(&v);
            number_value(&t)
        },
        Normalizer::StripCurrency => number_value(&strip_currency(s)),
        Normalizer::NormalizeDate { formats } => {
            let v = chars_of(s.as_str());
            let t = trim_chars(&v);
            let t = string_from_chars(t.as_slice());
            match first_date_of(&t, formats) {
                Some(d) => Ok(JsonValue::from_string(d)),
                None => {
                    let mut m = chars_of("value ");
                    let q = debug_str(t.as_str());
                    append_str(&mut m, q.as_str());
                    append_str(&mut m, " matched none of the declared date formats");
                    proof {
                        reveal_strlit("value ");
                        reveal_strlit(" matched none of the declared date formats");
                    }
                    Err(string_from_chars(m.as_slice()))
                },
            }
        },
    }
}

/// Applies `rules` in declaration order. A rule whose pointer finds nothing
/// is skipped. The input value is not changed.
pub fn normalize(data: &JsonValue, rules: &[NormalizerRule]) -> (r: Result<JsonValue, NormalizationError>)
    ensures
        match r {
            Ok(v) => normalize_spec(data@, rules_view(rules@)) == Ok::<
                Json,
                (Seq<Seq<char>>, Seq<char>),
            >(v@),
            Err(e) => normalize_spec(data@, rules_view(rules@)) == Err::<
                Json,
                (Seq<Seq<char>>, Seq<char>),
            >((e.pointer@, e.message@)),
        },
{
    let ghost rv = rules_view(rules@);
    let mut normalized = data.duplicate();
    let mut i: usize = 0;
    proof {
        assert(rv.take(0) =~= Seq::<(Seq<Seq<char>>, Normalizer)>::empty());
    }
    while i < rules.len()
        invariant
            i <= rules@.len(),
            rv == rules_view(rules@),
            normalize_spec(data@, rv.take(i as int)) == Ok::<Json, (Seq<Seq<char>>, Seq<char>)>(
                normalized@,
            ),
        decreases rules@.len() - i,
    {
        let rule = &rules[i];
        proof {
            assert(rv.take(i + 1).drop_last() == rv.take(i as int));
            assert(rv.take(i + 1).last() == (rule.pointer_spec(), rule.normalizer_spec()));
        }
        let found = match rule.pointer.get(&normalized) {
            Ok(Some(v)) => Some(apply_normalizer(v, &rule.normalizer)),
            Ok(None) => None,
            Err(e) => {
                let err = NormalizationError { pointer: rule.pointer.duplicate(), message: e.message().to_string() };
                proof {
                    lemma_normalize_failure_stays(data@, rv, i + 1);
                }
                return Err(err);
            },
        };
        match found {
            None => {},
            Some(Ok(replacement)) => {
                match rule.pointer.set(normalized, replacement) {
                    Ok(v) => {
                        normalized = v;
                    },
                    Err(e) => {
                        let err = NormalizationError { pointer: rule.pointer.duplicate(), message: e.message().to_string() };
                        proof {
                            lemma_normalize_failure_stays(data@, rv, i + 1);
                        }
                        return Err(err);
                    },
                }
            },
            Some(Err(m)) => {
                let err = NormalizationError { pointer: rule.pointer.duplicate(), message: m };
                proof {
                    lemma_normalize_failure_stays(data@, rv, i + 1);
                }
                return Err(err);
            },
        }
        i = i + 1;
    }
    proof {
        assert(rv.take(i as int) =~= rv);
    }
    Ok(normalized)
}

} // verus!
