use struxio::capabilities::{BackendCapability, BackendCompatibility};
use struxio::json::{JsonNumber, JsonObject, JsonValue};
use struxio::provider::{
    ensure_compatible, structured_document_capabilities, ExtractionUsage,
    FakeExtractionProvider, ProviderError, FAKE_BACKEND_ID, FAKE_PROVIDER_ID,
};

fn invoice() -> JsonValue {
    JsonValue::Object(JsonObject::from_pairs(vec![
        ("vendor".to_string(), JsonValue::String("Acme".to_string())),
        ("total".to_string(), JsonValue::Number(JsonNumber::Float("19.5".to_string()))),
    ]))
}

#[test]
fn fake_provider_returns_structured_output_and_usage() {
    let provider = FakeExtractionProvider::succeeding(invoice()).with_usage(11, 7);
    let output = provider.respond("application/pdf").expect("fake extract");
    let object = output.result.as_object().unwrap();
    assert_eq!(object.get(&"vendor".to_string()), Some(&JsonValue::String("Acme".to_string())));
    assert_eq!(
        object.get(&"total".to_string()),
        Some(&JsonValue::Number(JsonNumber::Float("19.5".to_string())))
    );
    assert_eq!(output.usage, ExtractionUsage { input_tokens: 11, output_tokens: 7 });
    assert_eq!(provider.identity().provider_id(), FAKE_PROVIDER_ID);
    assert_eq!(provider.identity().backend_id(), FAKE_BACKEND_ID);
    assert!(provider.identity().capabilities().supports(BackendCapability::StructuredJson));
}

#[test]
fn fake_provider_surfaces_backend_failure() {
    let provider = FakeExtractionProvider::failing("upstream unavailable".to_string());
    let err = provider.respond("image/png").expect_err("fake should fail");
    assert_eq!(err, ProviderError::Backend("upstream unavailable".into()));
}

#[test]
fn fake_provider_validates_mime_type() {
    let provider = FakeExtractionProvider::succeeding(JsonValue::object1(
        "ok".to_string(),
        JsonValue::Bool(true),
    ));
    let err = provider.respond("application/octet-stream").expect_err("unsupported mime");
    match err {
        ProviderError::UnsupportedMediaType(message) => {
            assert!(message.contains("application/octet-stream"));
        }
        other => panic!("expected unsupported media type, got {other:?}"),
    }
}

#[test]
fn compatibility_rejects_missing_capabilities() {
    let provider = FakeExtractionProvider::succeeding(JsonValue::Object(JsonObject::new()));
    let required = BackendCompatibility::new()
        .requiring(BackendCapability::StructuredJson)
        .requiring(BackendCapability::SourceEvidence)
        .allowing_provider(FAKE_PROVIDER_ID.to_string());

    let err = ensure_compatible(provider.identity(), &required).expect_err("missing evidence");
    match err {
        ProviderError::Incompatible { provider_id, missing, .. } => {
            assert_eq!(provider_id, FAKE_PROVIDER_ID);
            assert_eq!(missing, vec![BackendCapability::SourceEvidence]);
        }
        other => panic!("expected incompatible, got {other:?}"),
    }

    let json_only = BackendCompatibility::new().requiring(BackendCapability::StructuredJson);
    assert!(ensure_compatible(provider.identity(), &json_only).is_ok());
}

#[test]
fn provider_error_texts() {
    let err = ProviderError::Incompatible {
        provider_id: "fake".to_string(),
        backend_id: "canned".to_string(),
        missing: vec![BackendCapability::SourceEvidence, BackendCapability::Vision],
    };
    assert_eq!(
        err.message(),
        "incompatible backend `canned` for provider `fake` (missing [SourceEvidence, Vision])"
    );
    assert_eq!(ProviderError::Timeout.message(), "extraction timed out");
    assert_eq!(
        ProviderError::UnsupportedMediaType("x".to_string()).message(),
        "unsupported media type: x"
    );
    assert_eq!(ProviderError::Backend("boom".to_string()).message(), "boom");
    assert_eq!(err.duplicate(), err);
}

#[test]
fn structured_document_backends_advertise_four_capabilities() {
    let caps = structured_document_capabilities();
    for capability in [
        BackendCapability::StructuredJson,
        BackendCapability::RawBytes,
        BackendCapability::Vision,
        BackendCapability::LongContext,
    ] {
        assert!(caps.supports(capability));
    }
    assert!(!caps.supports(BackendCapability::SourceEvidence));
}

#[test]
fn structured_document_capabilities_come_in_declaration_order() {
    assert_eq!(
        structured_document_capabilities().iter(),
        vec![
            BackendCapability::StructuredJson,
            BackendCapability::RawBytes,
            BackendCapability::Vision,
            BackendCapability::LongContext,
        ]
    );
}
