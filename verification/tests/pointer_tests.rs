use struxio::json::{JsonNumber, JsonValue};
use struxio::pointer::{JsonPointer, JsonPointerError};

fn items_value() -> JsonValue {
    JsonValue::object1(
        "items".to_string(),
        JsonValue::Array(vec![JsonValue::object1(
            "value".to_string(),
            JsonValue::Number(JsonNumber::PosInt(3)),
        )]),
    )
}

#[test]
fn round_trips_rfc_6901_escapes() {
    let pointer = JsonPointer::parse("/a~1b/c~0d").unwrap();
    assert_eq!(pointer.tokens(), &["a/b".to_owned(), "c~d".to_owned()]);
    assert_eq!(pointer.to_string(), "/a~1b/c~0d");
}

#[test]
fn rejects_bad_escape_and_prefix() {
    assert_eq!(JsonPointer::parse("a/b"), Err(JsonPointerError::MustStartWithSlash));
    assert_eq!(JsonPointer::parse("/a~2b"), Err(JsonPointerError::InvalidEscape));
}

#[test]
fn resolves_object_and_array_values() {
    let value = items_value();
    assert_eq!(
        JsonPointer::parse("/items/0/value").unwrap().get(&value).unwrap(),
        Some(&JsonValue::Number(JsonNumber::PosInt(3)))
    );
}

#[test]
fn empty_pointer_is_the_root() {
    let root = JsonPointer::parse("").unwrap();
    assert!(root.tokens().is_empty());
    assert_eq!(root.to_string(), "");
    let value = items_value();
    assert_eq!(root.get(&value).unwrap(), Some(&value));
    assert_eq!(JsonPointer::root(), root);
}

#[test]
fn missing_paths_and_bad_indexes() {
    let value = items_value();
    assert_eq!(JsonPointer::parse("/nope").unwrap().get(&value).unwrap(), None);
    assert_eq!(JsonPointer::parse("/items/5").unwrap().get(&value).unwrap(), None);
    assert!(JsonPointer::parse("/items/01").unwrap().get(&value).is_err());
    assert!(JsonPointer::parse("/items/x").unwrap().get(&value).is_err());
    assert_eq!(JsonPointer::parse("/a~").unwrap_err(), JsonPointerError::InvalidEscape);
}

#[test]
fn set_replaces_the_target() {
    let value = items_value();
    let pointer = JsonPointer::parse("/items/0/value").unwrap();
    let updated = pointer.set(value, JsonValue::Bool(true)).unwrap();
    assert_eq!(pointer.get(&updated).unwrap(), Some(&JsonValue::Bool(true)));
}

#[test]
fn pointer_order_is_by_tokens() {
    let a = JsonPointer::parse("/a").unwrap();
    let ab = JsonPointer::parse("/a/b").unwrap();
    let b = JsonPointer::parse("/b").unwrap();
    assert!(a.less_than(&ab));
    assert!(ab.less_than(&b));
    assert!(!b.less_than(&a));
    assert!(a.same_as(&a.duplicate()));
}

#[test]
fn writing_a_parsed_pointer_gives_its_text_back() {
    for text in ["", "/", "//", "/a~1b/c~0d", "/items/0/value", "/~0~1/x"] {
        let pointer = JsonPointer::parse(text).unwrap();
        assert_eq!(pointer.to_string(), text);
        assert_eq!(pointer.tokens().len(), text.matches('/').count());
    }
    assert!(JsonPointer::root().tokens().is_empty());
}
