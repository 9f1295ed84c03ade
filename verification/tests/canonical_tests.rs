use struxio::canonical::canonical_json;
use struxio::hash::semantic_sha256;
use struxio::identity::Sha256ContentHash;
use struxio::json::{JsonNumber, JsonObject, JsonValue};

fn to_json(value: &serde_json::Value) -> JsonValue {
    match value {
        serde_json::Value::Null => JsonValue::Null,
        serde_json::Value::Bool(b) => JsonValue::Bool(*b),
        serde_json::Value::Number(n) => JsonValue::Number(match (n.as_u64(), n.as_i64()) {
            (Some(u), _) => JsonNumber::PosInt(u),
            (None, Some(i)) => JsonNumber::NegInt(i),
            (None, None) => JsonNumber::Float(n.to_string()),
        }),
        serde_json::Value::String(s) => JsonValue::String(s.clone()),
        serde_json::Value::Array(items) => JsonValue::Array(items.iter().map(to_json).collect()),
        serde_json::Value::Object(map) => JsonValue::Object(JsonObject::from_pairs(
            map.iter().map(|(k, v)| (k.clone(), to_json(v))).collect(),
        )),
    }
}

fn json(text: &str) -> JsonValue {
    to_json(&serde_json::from_str::<serde_json::Value>(text).unwrap())
}

#[test]
fn object_key_order_does_not_change_canonical_bytes() {
    let first = JsonValue::Object(JsonObject::from_pairs(vec![
        ("b".to_string(), JsonValue::Number(JsonNumber::PosInt(2))),
        (
            "a".to_string(),
            JsonValue::Object(JsonObject::from_pairs(vec![
                ("d".to_string(), JsonValue::Number(JsonNumber::PosInt(4))),
                ("c".to_string(), JsonValue::Number(JsonNumber::PosInt(3))),
            ])),
        ),
    ]));
    let second = json(r#"{"a": {"c": 3, "d": 4}, "b": 2}"#);
    assert_eq!(canonical_json(&first).unwrap(), canonical_json(&second).unwrap());
}

#[test]
fn array_order_remains_semantic() {
    let first = canonical_json(&json("[1, 2]")).unwrap();
    let second = canonical_json(&json("[2, 1]")).unwrap();
    assert_ne!(first, second);
}

#[test]
fn canonical_bytes_match_compact_serde_json() {
    let text = r#"{"z": [true, null, -3, 1.5, "a\"b\\c\n\u0001é"], "a": {}, "m": []}"#;
    let value: serde_json::Value = serde_json::from_str(text).unwrap();
    assert_eq!(canonical_json(&to_json(&value)).unwrap(), serde_json::to_vec(&value).unwrap());
}

#[test]
fn semantic_hash_ignores_member_order_and_is_the_sha256_of_the_bytes() {
    let a = json(r#"{"x": 1, "y": 2}"#);
    let b = json(r#"{"y": 2, "x": 1}"#);
    assert_eq!(semantic_sha256(&a), semantic_sha256(&b));
    assert_eq!(
        semantic_sha256(&a),
        Sha256ContentHash::from_content(br#"{"x":1,"y":2}"#)
    );
    assert_ne!(semantic_sha256(&a), semantic_sha256(&json(r#"{"x": 1, "y": 3}"#)));
}

#[test]
fn member_order_given_to_from_pairs_does_not_reach_the_hash() {
    let forward = JsonValue::Object(JsonObject::from_pairs(vec![
        ("a".to_string(), JsonValue::Bool(true)),
        ("b".to_string(), JsonValue::Null),
        ("c".to_string(), JsonValue::String("x".to_string())),
    ]));
    let shuffled = JsonValue::Object(JsonObject::from_pairs(vec![
        ("c".to_string(), JsonValue::String("x".to_string())),
        ("a".to_string(), JsonValue::Bool(true)),
        ("b".to_string(), JsonValue::Null),
    ]));
    assert_eq!(semantic_sha256(&forward), semantic_sha256(&shuffled));
    assert_eq!(canonical_json(&forward).unwrap(), br#"{"a":true,"b":null,"c":"x"}"#.to_vec());
}
