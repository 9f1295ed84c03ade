use struxio::json::{JsonNumber, JsonObject, JsonValue};
use struxio::pointer::JsonPointer;
use struxio::validation::{check_shape, regex_compile_error, value_type, JsonValueType, ShapeValidator};

fn to_json(value: &serde_json::Value) -> JsonValue {
    match value {
        serde_json::Value::Null => JsonValue::Null,
        serde_json::Value::Bool(b) => JsonValue::Bool(*b),
        serde_json::Value::Number(n) => JsonValue::Number(match (n.as_u64(), n.as_i64()) {
            (Some(u), _) => JsonNumber::PosInt(u),
            (None, Some(i)) => JsonNumber::NegInt(i),
            (None, None) => JsonNumber::Float(n.to_string()),
        }),
        serde_json::Value::String(s) => JsonValue::String(s.clone()),
        serde_json::Value::Array(items) => JsonValue::Array(items.iter().map(to_json).collect()),
        serde_json::Value::Object(map) => JsonValue::Object(JsonObject::from_pairs(
            map.iter().map(|(k, v)| (k.clone(), to_json(v))).collect(),
        )),
    }
}

fn json(text: &str) -> JsonValue {
    to_json(&serde_json::from_str::<serde_json::Value>(text).unwrap())
}

fn at(pointer: &str) -> JsonPointer {
    JsonPointer::parse(pointer).unwrap()
}

#[test]
fn value_types() {
    assert_eq!(value_type(&json("1")), JsonValueType::Integer);
    assert_eq!(value_type(&json("-1")), JsonValueType::Integer);
    assert_eq!(value_type(&json("1.5")), JsonValueType::Number);
    assert_eq!(value_type(&json("null")), JsonValueType::Null);
    assert_eq!(value_type(&json("[]")), JsonValueType::Array);
    assert_eq!(value_type(&json("{}")), JsonValueType::Object);
    assert_eq!(value_type(&json("\"s\"")), JsonValueType::String);
    assert_eq!(value_type(&json("true")), JsonValueType::Boolean);
}

#[test]
fn presence_and_strings() {
    let data = json(r#"{"a": null, "b": " ", "c": "x"}"#);
    assert_eq!(check_shape(&data, &at("/a"), &ShapeValidator::Required), None);
    assert_eq!(
        check_shape(&data, &at("/z"), &ShapeValidator::Required),
        Some("value is required".to_string())
    );
    assert_eq!(
        check_shape(&data, &at("/a"), &ShapeValidator::NonNull),
        Some("value must not be null or missing".to_string())
    );
    assert_eq!(
        check_shape(&data, &at("/b"), &ShapeValidator::NonEmptyString),
        Some("string must not be empty".to_string())
    );
    assert_eq!(
        check_shape(&data, &at("/a"), &ShapeValidator::NonEmptyString),
        Some("value must be a non-empty string".to_string())
    );
    assert_eq!(check_shape(&data, &at("/c"), &ShapeValidator::NonEmptyString), None);
}

#[test]
fn types_and_equality() {
    let data = json(r#"{"n": 3, "s": "x"}"#);
    assert_eq!(check_shape(&data, &at("/n"), &ShapeValidator::Type(JsonValueType::Integer)), None);
    assert_eq!(
        check_shape(&data, &at("/s"), &ShapeValidator::Type(JsonValueType::Integer)),
        Some("expected Integer, got String".to_string())
    );
    assert_eq!(
        check_shape(&data, &at("/m"), &ShapeValidator::Type(JsonValueType::Integer)),
        Some("expected Integer, got missing".to_string())
    );
    assert_eq!(check_shape(&data, &at("/s"), &ShapeValidator::Equals(json("\"x\""))), None);
    assert_eq!(
        check_shape(&data, &at("/n"), &ShapeValidator::Equals(json("\"x\""))),
        Some("expected \"x\", got 3".to_string())
    );
}

#[test]
fn regex_rules() {
    let data = json(r#"{"id": "INV-001", "n": 1}"#);
    let rule = ShapeValidator::Regex { pattern: "^INV-[0-9]+$".to_string() };
    assert_eq!(check_shape(&data, &at("/id"), &rule), None);
    let other = ShapeValidator::Regex { pattern: "^X".to_string() };
    assert_eq!(
        check_shape(&data, &at("/id"), &other),
        Some("value does not match /^X/".to_string())
    );
    assert_eq!(
        check_shape(&data, &at("/n"), &rule),
        Some("regex validator requires a string".to_string())
    );
    assert!(regex_compile_error("(").is_some());
    assert!(regex_compile_error("^a+$").is_none());
}
