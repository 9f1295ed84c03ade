use struxio::json::{JsonNumber, JsonObject, JsonValue};
use struxio::schema::JsonSchema;

fn to_json(value: &serde_json::Value) -> JsonValue {
    match value {
        serde_json::Value::Null => JsonValue::Null,
        serde_json::Value::Bool(b) => JsonValue::Bool(*b),
        serde_json::Value::Number(n) => JsonValue::Number(match (n.as_u64(), n.as_i64()) {
            (Some(u), _) => JsonNumber::PosInt(u),
            (None, Some(i)) => JsonNumber::NegInt(i),
            (None, None) => JsonNumber::Float(n.to_string()),
        }),
        serde_json::Value::String(s) => JsonValue::String(s.clone()),
        serde_json::Value::Array(items) => JsonValue::Array(items.iter().map(to_json).collect()),
        serde_json::Value::Object(map) => JsonValue::Object(JsonObject::from_pairs(
            map.iter().map(|(k, v)| (k.clone(), to_json(v))).collect(),
        )),
    }
}

fn json(text: &str) -> JsonValue {
    to_json(&serde_json::from_str::<serde_json::Value>(text).unwrap())
}

#[test]
fn validates_result_data_against_schema() {
    let schema = JsonSchema::new(json(
        r#"{"type": "object", "required": ["name"], "properties": {"name": {"type": "string"}}}"#,
    ))
    .unwrap();
    assert!(schema.validate(&json(r#"{"name": "Ada"}"#)).is_valid());
    assert!(!schema.validate(&json("{}")).is_valid());
    assert!(!schema.validate(&json(r#"{"name": 1}"#)).is_valid());
}

#[test]
fn rejects_invalid_and_non_object_schemas() {
    assert!(JsonSchema::new(json(r#"{"type": "not-a-type"}"#)).is_err());
    assert!(JsonSchema::new(json("true")).is_err());
    assert!(JsonSchema::new(json("[]")).is_err());
}

#[test]
fn nested_required_and_additional_properties() {
    let schema = JsonSchema::new(json(
        r#"{
            "$schema": "https://json-schema.org/draft/2020-12/schema",
            "type": "object",
            "additionalProperties": false,
            "required": ["vendor"],
            "properties": {
                "vendor": {
                    "type": "object",
                    "required": ["name"],
                    "properties": { "name": { "type": "string" } }
                }
            }
        }"#,
    ))
    .unwrap();
    assert!(schema.validate(&json(r#"{"vendor": {"name": "Acme"}}"#)).is_valid());
    assert!(!schema.validate(&json(r#"{"vendor": {}, "extra": true}"#)).is_valid());
}

#[test]
fn non_object_schema_error_text() {
    let err = JsonSchema::new(json("[]")).unwrap_err();
    assert_eq!(err.message(), "json schema must be an object");
}

#[test]
fn violations_carry_pointers() {
    let schema = JsonSchema::new(json(
        r#"{"type": "object", "properties": {"name": {"type": "string"}}}"#,
    ))
    .unwrap();
    let report = schema.validate(&json(r#"{"name": 1}"#));
    assert_eq!(report.errors().len(), 1);
    assert_eq!(report.errors()[0].instance_pointer, "/name");
    assert_eq!(report.errors()[0].schema_pointer, "/properties/name/type");
}

#[test]
fn schemas_clone_equal() {
    let schema = JsonSchema::new(json(r#"{"type": "object"}"#)).unwrap();
    assert_eq!(schema.clone(), schema);
}
