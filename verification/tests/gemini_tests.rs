use struxio::gemini::{api_error, finish_reply, generate_content_url, reply_text, request_body, GeminiError};
use struxio::json::{JsonNumber, JsonObject, JsonValue};

fn to_json(value: &serde_json::Value) -> JsonValue {
    match value {
        serde_json::Value::Null => JsonValue::Null,
        serde_json::Value::Bool(b) => JsonValue::Bool(*b),
        serde_json::Value::Number(n) => JsonValue::Number(match (n.as_u64(), n.as_i64()) {
            (Some(u), _) => JsonNumber::PosInt(u),
            (None, Some(i)) => JsonNumber::NegInt(i),
            (None, None) => JsonNumber::Float(n.to_string()),
        }),
        serde_json::Value::String(s) => JsonValue::String(s.clone()),
        serde_json::Value::Array(items) => JsonValue::Array(items.iter().map(to_json).collect()),
        serde_json::Value::Object(map) => JsonValue::Object(JsonObject::from_pairs(
            map.iter().map(|(k, v)| (k.clone(), to_json(v))).collect(),
        )),
    }
}

fn json(text: &str) -> JsonValue {
    to_json(&serde_json::from_str::<serde_json::Value>(text).unwrap())
}

#[test]
fn url_names_model_and_key() {
    assert_eq!(
        generate_content_url("gemini-2.5-flash", "k"),
        "https://generativelanguage.googleapis.com/v1beta/models/gemini-2.5-flash:generateContent?key=k"
    );
}

#[test]
fn request_body_carries_prompt_document_and_schema() {
    let schema = json(r#"{"type": "object"}"#);
    let body = request_body(b"hi", "application/pdf", "Extract.", &schema);
    let expected = json(
        r#"{
            "contents": [{"parts": [{"text": "Extract."}, {"inline_data": {"data": "aGk=", "mimeType": "application/pdf"}}]}],
            "generationConfig": {"responseMimeType": "application/json", "responseSchema": {"type": "object"}}
        }"#,
    );
    assert_eq!(body, expected);
}

#[test]
fn reply_handling() {
    assert_eq!(
        api_error("404 Not Found", "nope"),
        GeminiError::Api("Gemini API returned 404 Not Found: nope".to_string())
    );
    assert_eq!(reply_text(Some("{}".to_string())), Ok("{}".to_string()));
    assert_eq!(
        reply_text(None),
        Err(GeminiError::Parse("No text in response candidates".to_string()))
    );
    let reply = finish_reply(Ok(json(r#"{"a": 1}"#)), Some(5), None).unwrap();
    assert_eq!(reply.result, json(r#"{"a": 1}"#));
    assert_eq!(reply.input_tokens, 5);
    assert_eq!(reply.output_tokens, 0);
    match finish_reply(Err("EOF".to_string()), None, None) {
        Err(e) => assert_eq!(e.message(), "Parse error: Invalid JSON in response: EOF"),
        Ok(_) => panic!("bad JSON must be refused"),
    }
}
