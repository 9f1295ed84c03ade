use struxio::error::AppError;
use struxio::json::{JsonObject, JsonValue};
use struxio::principal::WorkspaceId;
use struxio::services::{
    can_access_template, check_batch_documents, check_run_sizes, check_template_mutable,
    decode_inline_file, document_key, document_mime_type, ensure_schema_pure, find_fixture,
    heartbeat_interval_nanos, md5_hex, missing_model_error, tally, validate_json_schema,
    OutboxFlush, StorageError,
};

fn object(pairs: Vec<(&str, JsonValue)>) -> JsonValue {
    JsonValue::Object(JsonObject::from_pairs(
        pairs.into_iter().map(|(k, v)| (k.to_string(), v)).collect(),
    ))
}

#[test]
fn md5_is_lowercase_hex() {
    assert_eq!(md5_hex(b"abc"), "900150983cd24fb0d6963f7d28e17f72");
    assert_eq!(md5_hex(b""), "d41d8cd98f00b204e9800998ecf8427e");
}

#[test]
fn inline_files_are_base64() {
    assert_eq!(decode_inline_file("aGVsbG8=").unwrap(), b"hello".to_vec());
    match decode_inline_file("!!!") {
        Err(AppError::Validation(m)) => assert!(m.starts_with("Invalid base64: ")),
        other => panic!("expected a validation error, got {other:?}"),
    }
}

#[test]
fn document_types_and_keys() {
    assert_eq!(document_mime_type("PDF").unwrap(), "application/pdf");
    assert!(matches!(document_mime_type("exe"), Err(AppError::Validation(_))));
    let workspace = WorkspaceId::new(1).unwrap();
    assert_eq!(
        document_key(workspace, 2, "a.pdf"),
        "00000000-0000-0000-0000-000000000001/00000000-0000-0000-0000-000000000002/a.pdf"
    );
}

#[test]
fn template_schemas_need_type_and_properties() {
    let t = JsonValue::String("object".to_string());
    let p = JsonValue::Object(JsonObject::new());
    assert_eq!(
        validate_json_schema(&JsonValue::Null),
        Err(AppError::Validation("json_schema must be a JSON object".to_string()))
    );
    assert_eq!(
        validate_json_schema(&object(vec![("properties", JsonValue::Null)])),
        Err(AppError::Validation("json_schema must have a 'type' field".to_string()))
    );
    assert_eq!(
        validate_json_schema(&object(vec![("type", JsonValue::Null)])),
        Err(AppError::Validation("json_schema must have a 'properties' field".to_string()))
    );
    assert_eq!(validate_json_schema(&object(vec![("type", t), ("properties", p)])), Ok(()));
}

#[test]
fn templates_are_workspace_scoped_and_system_ones_frozen() {
    let a = WorkspaceId::new(1).unwrap();
    let b = WorkspaceId::new(2).unwrap();
    assert!(can_access_template(a, a));
    assert!(!can_access_template(a, b));
    assert_eq!(check_template_mutable(false, true), Ok(()));
    assert_eq!(
        check_template_mutable(true, true),
        Err(AppError::Forbidden("Cannot delete system templates".to_string()))
    );
    assert_eq!(
        check_template_mutable(true, false),
        Err(AppError::Forbidden("Cannot update system templates".to_string()))
    );
}

#[test]
fn extraction_json_stays_schema_pure() {
    let with_evidence = object(vec![("evidence", JsonValue::Null), ("total", JsonValue::Null)]);
    assert_eq!(
        ensure_schema_pure(&with_evidence, "evidence belongs in the sidecar"),
        Err(AppError::Validation("evidence belongs in the sidecar".to_string()))
    );
    assert_eq!(ensure_schema_pure(&object(vec![("total", JsonValue::Null)]), "m"), Ok(()));
    assert_eq!(ensure_schema_pure(&JsonValue::Array(vec![]), "m"), Ok(()));
}

#[test]
fn batch_and_run_sizes() {
    assert_eq!(
        check_batch_documents(0),
        Err(AppError::Validation("document_ids must not be empty".to_string()))
    );
    assert_eq!(check_batch_documents(3), Ok(()));
    assert_eq!(
        check_run_sizes(0, 0),
        Err(AppError::Validation("contract version has no fixtures to evaluate".to_string()))
    );
    assert_eq!(
        check_run_sizes(2, 1),
        Err(AppError::Validation(
            "evaluation run must include exactly one outcome per fixture".to_string()
        ))
    );
    assert_eq!(check_run_sizes(2, 2), Ok(()));
}

#[test]
fn fixtures_are_found_by_name() {
    let names = vec!["a".to_string(), "b".to_string(), "b".to_string()];
    assert_eq!(find_fixture(&names, &"b".to_string()), Ok(1));
    assert_eq!(
        find_fixture(&names, &"c".to_string()),
        Err(AppError::Validation("unknown fixture c".to_string()))
    );
}

#[test]
fn missing_model_and_storage_texts() {
    assert_eq!(
        missing_model_error("gemini-x"),
        AppError::Internal(
            "AI model 'gemini-x' not found in database. Check your GEMINI_MODEL env var and migration seed data."
                .to_string()
        )
    );
    assert_eq!(StorageError::S3("boom".to_string()).message(), "S3 error: boom");
    assert_eq!(StorageError::Presign("x".to_string()).message(), "Presign error: x");
}

#[test]
fn heartbeat_is_a_third_of_the_lease_but_at_least_a_second() {
    assert_eq!(heartbeat_interval_nanos(90), 30_000_000_000);
    assert_eq!(heartbeat_interval_nanos(1), 1_000_000_000);
    assert_eq!(heartbeat_interval_nanos(0), 1_000_000_000);
    assert_eq!(heartbeat_interval_nanos(10), 3_333_333_333);
}

#[test]
fn outbox_flush_counts_every_entry() {
    let f = tally(&vec![true, false, true, true]);
    assert_eq!(f, OutboxFlush { published: 3, failed: 1 });
    assert_eq!(tally(&vec![]), OutboxFlush::default());
    assert_eq!(OutboxFlush::new().record(false), OutboxFlush { published: 0, failed: 1 });
}
