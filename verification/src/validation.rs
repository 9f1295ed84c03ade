//! Declarative checks on the value a JSON Pointer finds.
//!
//! The checks here depend on the value's shape and text; the numeric bound
//! and tolerance checks work on floating-point numbers and are applied by the
//! application layer.

use vstd::prelude::*;

use crate::json::{json_eq, json_text, Json, JsonValue};
use crate::pointer::{path_get, JsonPointer};
use crate::text::{append_str, chars_of, is_blank, str_is_blank, string_from_chars};

verus! {

#[derive(Debug, Clone, Copy, PartialEq, Eq, Structural)]
pub enum JsonValueType {
    Null,
    Boolean,
    Number,
    Integer,
    String,
    Array,
    Object,
}

impl JsonValueType {
    /// The type's name, as its `Debug` text writes it.
    pub open spec fn name_spec(self) -> Seq<char> {
        match self {
            JsonValueType::Null => "Null"@,
            JsonValueType::Boolean => "Boolean"@,
            JsonValueType::Number => "Number"@,
            JsonValueType::Integer => "Integer"@,
            JsonValueType::String => "String"@,
            JsonValueType::Array => "Array"@,
            JsonValueType::Object => "Object"@,
        }
    }

    pub fn name(self) -> (s: &'static str)
        ensures
            s@ == self.name_spec(),
    {
        match self {
            JsonValueType::Null => "Null",
            JsonValueType::Boolean => "Boolean",
            JsonValueType::Number => "Number",
            JsonValueType::Integer => "Integer",
            JsonValueType::String => "String",
            JsonValueType::Array => "Array",
            JsonValueType::Object => "Object",
        }
    }
}

/// The type of a JSON value; an integer-valued number is `Integer`.
pub open spec fn value_type_spec(j: Json) -> JsonValueType {
    match j {
        Json::Null => JsonValueType::Null,
        Json::Bool(_) => JsonValueType::Boolean,
        Json::Number(n) => if n is Float {
            JsonValueType::Number
        } else {
            JsonValueType::Integer
        },
        Json::Str(_) => JsonValueType::String,
        Json::Array(_) => JsonValueType::Array,
        Json::Object(_) => JsonValueType::Object,
    }
}

pub fn value_type(value: &JsonValue) -> (t: JsonValueType)
    ensures
        t == value_type_spec(value@),
{
    if value.is_null() {
        JsonValueType::Null
    } else if value.as_bool().is_some() {
        JsonValueType::Boolean
    } else if value.as_str().is_some() {
        JsonValueType::String
    } else if value.as_array().is_some() {
        JsonValueType::Array
    } else if value.as_object().is_some() {
        JsonValueType::Object
    } else {
        match value.as_number() {
            Some(n) => if n.is_integer() {
                JsonValueType::Integer
            } else {
                JsonValueType::Number
            },
            None => JsonValueType::Null,
        }
    }
}

#[derive(Debug, Clone, Copy, PartialEq, Eq, Structural)]
pub enum ValidationStatus {
    Valid,
    Invalid,
}

/// The name the `regex` crate's compile error gives to `pattern`, if the
/// pattern does not compile.
pub uninterp spec fn regex_error(pattern: Seq<char>) -> Option<Seq<char>>;

/// Whether the regular expression `pattern` matches somewhere in `text`.
pub uninterp spec fn regex_matches(pattern: Seq<char>, text: Seq<char>) -> bool;

/// Trusted: `regex::Regex::new(pattern)`, then `Regex::is_match(text)` on
/// the compiled expression; a compile error's display text.
#[verifier::external_body]
fn regex_search(pattern: &str, text: &str) -> (r: Result<bool, String>)
    ensures
        match r {
            Ok(b) => regex_error(pattern@).is_none() && b == regex_matches(pattern@, text@),
            Err(e) => regex_error(pattern@) == Some(e@),
        },
{
    match regex::Regex::new(pattern) {
        Ok(regex) => Ok(regex.is_match(text)),
        Err(error) => Err(error.to_string()),
    }
}

/// A check on the value a pointer finds that depends on its presence, shape
/// or text.
#[derive(Debug)]
pub enum ShapeValidator {
    Required,
    NonNull,
    NonEmptyString,
    Type(JsonValueType),
    Equals(JsonValue),
    Regex { pattern: String },
}

/// The value the pointer finds; a pointer that cannot apply finds nothing.
pub open spec fn target(data: Json, pointer: Seq<Seq<char>>) -> Option<Json> {
    match path_get(data, pointer) {
        Ok(Some(v)) => Some(v),
        _ => None,
    }
}

/// The failure message of `validator` for the target `value`, or `None` when
/// it passes.
pub open spec fn shape_failure(value: Option<Json>, validator: ShapeValidator) -> Option<Seq<char>> {
    match validator {
        ShapeValidator::Required => match value {
            Some(_) => None,
            None => Some("value is required"@),
        },
        ShapeValidator::NonNull => match value {
            Some(Json::Null) => Some("value must not be null or missing"@),
            None => Some("value must not be null or missing"@),
            Some(_) => None,
        },
        ShapeValidator::NonEmptyString => match value {
            Some(Json::Str(t)) => if !is_blank(t) {
                None
            } else {
                Some("string must not be empty"@)
            },
            _ => Some("value must be a non-empty string"@),
        },
        ShapeValidator::Type(expected) => match value {
            Some(v) => if value_type_spec(v) == expected {
                None
            } else {
                Some("expected "@ + expected.name_spec() + ", got "@ + value_type_spec(v).name_spec())
            },
            None => Some("expected "@ + expected.name_spec() + ", got missing"@),
        },
        ShapeValidator::Equals(expected) => match value {
            Some(v) => if json_eq(v, expected@) {
                None
            } else {
                Some("expected "@ + json_text(expected@) + ", got "@ + json_text(v))
            },
            None => Some("expected "@ + json_text(expected@) + ", got missing"@),
        },
        ShapeValidator::Regex { pattern } => match value {
            Some(Json::Str(t)) => match regex_error(pattern@) {
                None => if regex_matches(pattern@, t) {
                    None
                } else {
                    Some("value does not match /"@ + pattern@ + "/"@)
                },
                Some(e) => Some("invalid regex: "@ + e),
            },
            _ => Some("regex validator requires a string"@),
        },
    }
}

fn text_of(v: &JsonValue) -> (s: Vec<char>)
    ensures
        s@ == json_text(v@),
{
    let mut out: Vec<char> = Vec::new();
    v.write_json(&mut out);
    proof {
        assert(Seq::<char>::empty() + json_text(v@) == json_text(v@));
    }
    out
}

/// Applies `validator` to what `pointer` finds in `data`: `None` when it
/// passes, otherwise the failure message.
pub fn check_shape(data: &JsonValue, pointer: &JsonPointer, validator: &ShapeValidator) -> (r: Option<String>)
    ensures
        match r {
            Some(m) => shape_failure(target(data@, pointer@), *validator) == Some(m@),
            None => shape_failure(target(data@, pointer@), *validator).is_none(),
        },
{
    let value: Option<&JsonValue> = match pointer.get(data) {
        Ok(Some(v)) => Some(v),
        _ => None,
    };
    match validator {
        ShapeValidator::Required => match value {
            Some(_) => None,
            None => Some("value is required".to_string()),
        },
        ShapeValidator::NonNull => match value {
            Some(v) => if v.is_null() {
                Some("value must not be null or missing".to_string())
            } else {
                None
            },
            None => Some("value must not be null or missing".to_string()),
        },
        ShapeValidator::NonEmptyString => match value {
            Some(v) => match v.as_str() {
                Some(t) => if !str_is_blank(t.as_str()) {
                    None
                } else {
                    Some("string must not be empty".to_string())
                },
                None => Some("value must be a non-empty string".to_string()),
            },
            None => Some("value must be a non-empty string".to_string()),
        },
        ShapeValidator::Type(expected) => match value {
            Some(v) => {
                let actual = value_type(v);
                if actual == *expected {
                    None
                } else {
                    let mut m = chars_of("expected ");
                    append_str(&mut m, expected.name());
                    append_str(&mut m, ", got ");
                    append_str(&mut m, actual.name());
                    proof {
                        reveal_strlit("expected ");
                        reveal_strlit(", got ");
                    }
                    Some(string_from_chars(m.as_slice()))
                }
            },
            None => {
                let mut m = chars_of("expected ");
                append_str(&mut m, expected.name());
                append_str(&mut m, ", got missing");
                proof {
                    reveal_strlit("expected ");
                }
                Some(string_from_chars(m.as_slice()))
            },
        },
        ShapeValidator::Equals(expected) => match value {
            Some(v) => if v.equals(expected) {
                None
            } else {
                let mut m = chars_of("expected ");
                let e = text_of(expected);
                append_str(&mut m, string_from_chars(e.as_slice()).as_str());
                append_str(&mut m, ", got ");
                let g = text_of(v);
                append_str(&mut m, string_from_chars(g.as_slice()).as_str());
                proof {
                    reveal_strlit("expected ");
                    reveal_strlit(", got ");
                }
                Some(string_from_chars(m.as_slice()))
            },
            None => {
                let mut m = chars_of("expected ");
                let e = text_of(expected);
                append_str(&mut m, string_from_chars(e.as_slice()).as_str());
                append_str(&mut m, ", got missing");
                proof {
                    reveal_strlit("expected ");
                }
                Some(string_from_chars(m.as_slice()))
            },
        },
        ShapeValidator::Regex { pattern } => match value {
            Some(v) => match v.as_str() {
                Some(t) => match regex_search(pattern.as_str(), t.as_str()) {
                    Ok(true) => None,
                    Ok(false) => {
                        let mut m = chars_of("value does not match /");
                        append_str(&mut m, pattern.as_str());
                        append_str(&mut m, "/");
                        proof {
                            reveal_strlit("value does not match /");
                        }
                        Some(string_from_chars(m.as_slice()))
                    },
                    Err(e) => {
                        let mut m = chars_of("invalid regex: ");
                        append_str(&mut m, e.as_str());
                        proof {
                            reveal_strlit("invalid regex: ");
                        }
                        Some(string_from_chars(m.as_slice()))
                    },
                },
                None => Some("regex validator requires a string".to_string()),
            },
            None => Some("regex validator requires a string".to_string()),
        },
    }
}

/// The display text of a regex that does not compile, for refusing a rule
/// when it is declared.
pub fn regex_compile_error(pattern: &str) -> (r: Option<String>)
    ensures
        match r {
            Some(e) => regex_error(pattern@) == Some(e@),
            None => regex_error(pattern@).is_none(),
        },
{
    match regex_search(pattern, "") {
        Ok(_) => None,
        Err(e) => Some(e),
    }
}

} // verus!
