use struxio::json::{JsonNumber, JsonObject, JsonValue};
use struxio::normalization::{normalize, Normalizer, NormalizerRule};
use struxio::pointer::JsonPointer;

fn to_json(value: &serde_json::Value) -> JsonValue {
    match value {
        serde_json::Value::Null => JsonValue::Null,
        serde_json::Value::Bool(b) => JsonValue::Bool(*b),
        serde_json::Value::Number(n) => JsonValue::Number(match (n.as_u64(), n.as_i64()) {
            (Some(u), _) => JsonNumber::PosInt(u),
            (None, Some(i)) => JsonNumber::NegInt(i),
            (None, None) => JsonNumber::Float(n.to_string()),
        }),
        serde_json::Value::String(s) => JsonValue::String(s.clone()),
        serde_json::Value::Array(items) => JsonValue::Array(items.iter().map(to_json).collect()),
        serde_json::Value::Object(map) => JsonValue::Object(JsonObject::from_pairs(
            map.iter().map(|(k, v)| (k.clone(), to_json(v))).collect(),
        )),
    }
}

fn json(text: &str) -> JsonValue {
    to_json(&serde_json::from_str::<serde_json::Value>(text).unwrap())
}

fn rule(pointer: &str, normalizer: Normalizer) -> NormalizerRule {
    NormalizerRule::new(JsonPointer::parse(pointer).unwrap(), normalizer)
}

#[test]
fn applies_rules_in_declared_order() {
    let pointer = JsonPointer::parse("/name").unwrap();
    let rules = [
        NormalizerRule::new(pointer.clone(), Normalizer::TrimWhitespace),
        NormalizerRule::new(pointer, Normalizer::CollapseWhitespace),
    ];
    let result = normalize(&json(r#"{"name": "  Ada   Lovelace  "}"#), &rules).unwrap();
    assert_eq!(result, json(r#"{"name": "Ada Lovelace"}"#));
}

#[test]
fn strip_currency_and_date_are_deterministic() {
    let rules = [
        rule("/total", Normalizer::StripCurrency),
        rule(
            "/date",
            Normalizer::NormalizeDate {
                formats: vec!["%m/%d/%Y".to_owned(), "%Y-%m-%d".to_owned()],
            },
        ),
    ];
    let result = normalize(&json(r#"{"total": "$1,234.50", "date": "03/15/2024"}"#), &rules).unwrap();
    assert_eq!(result, json(r#"{"total": 1234.50, "date": "2024-03-15"}"#));
}

#[test]
fn normalization_does_not_mutate_input() {
    let input = json(r#"{"name": " Ada "}"#);
    let rule = rule("/name", Normalizer::TrimWhitespace);
    let _ = normalize(&input, &[rule]).unwrap();
    assert_eq!(input, json(r#"{"name": " Ada "}"#));
}

#[test]
fn case_and_null_if_empty() {
    let rules = [
        rule("/a", Normalizer::Lowercase),
        rule("/b", Normalizer::Uppercase),
        rule("/c", Normalizer::NullIfEmpty),
        rule("/d", Normalizer::NullIfEmpty),
    ];
    let result = normalize(&json(r#"{"a": "AbC", "b": "straße", "c": "  ", "d": " x "}"#), &rules).unwrap();
    assert_eq!(result, json(r#"{"a": "abc", "b": "STRASSE", "c": null, "d": " x "}"#));
}

#[test]
fn numbers_are_parsed() {
    let rules = [
        rule("/i", Normalizer::ParseInteger),
        rule("/n", Normalizer::ParseInteger),
        rule("/f", Normalizer::ParseNumber),
        rule("/g", Normalizer::ParseNumber),
    ];
    let result = normalize(&json(r#"{"i": " +42 ", "n": "-7", "f": "2.50", "g": "18446744073709551615"}"#), &rules).unwrap();
    assert_eq!(result, json(r#"{"i": 42, "n": -7, "f": 2.5, "g": 18446744073709551615}"#));
}

#[test]
fn missing_pointers_are_skipped() {
    let rules = [rule("/missing", Normalizer::TrimWhitespace)];
    let input = json(r#"{"name": " x "}"#);
    assert_eq!(normalize(&input, &rules).unwrap(), input);
}

#[test]
fn errors_name_the_pointer() {
    let err = normalize(&json(r#"{"n": 5}"#), &[rule("/n", Normalizer::TrimWhitespace)]).unwrap_err();
    assert_eq!(err.to_string(), "/n: normalizer requires a string value");

    let err = normalize(&json(r#"{"n": "abc"}"#), &[rule("/n", Normalizer::ParseInteger)]).unwrap_err();
    assert_eq!(err.to_string(), "/n: invalid integer: invalid digit found in string");

    let err = normalize(&json(r#"{"n": "abc"}"#), &[rule("/n", Normalizer::ParseNumber)]).unwrap_err();
    assert!(err.to_string().starts_with("/n: invalid JSON number: "));

    let formats = vec!["%Y-%m-%d".to_owned()];
    let err = normalize(
        &json(r#"{"d": "yesterday"}"#),
        &[rule("/d", Normalizer::NormalizeDate { formats })],
    )
    .unwrap_err();
    assert_eq!(
        err.to_string(),
        "/d: value \"yesterday\" matched none of the declared date formats"
    );

    let err = normalize(&json(r#"{"a": 1}"#), &[rule("/a/b", Normalizer::TrimWhitespace)]).unwrap_err();
    assert_eq!(err.to_string(), "/a/b: JSON Pointer cannot traverse the JSON value");
}
