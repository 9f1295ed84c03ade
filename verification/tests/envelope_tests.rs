use struxio::envelope::{parse_stream_entry, JobEnvelope, StreamDelivery};
use struxio::jobs::Retryability;
use uuid::Uuid;

fn id() -> u128 {
    Uuid::new_v4().as_u128()
}

fn read_delayed(payload: &str) -> Result<JobEnvelope, String> {
    let value: serde_json::Value = serde_json::from_str(payload).map_err(|e| e.to_string())?;
    let field = |key: &str| -> Result<u128, String> {
        let text = value[key].as_str().ok_or_else(|| format!("missing field `{key}`"))?;
        Uuid::parse_str(text).map(|u| u.as_u128()).map_err(|e| e.to_string())
    };
    let batch_job_id = match &value["batch_job_id"] {
        serde_json::Value::Null => None,
        serde_json::Value::String(s) => Some(Uuid::parse_str(s).map_err(|e| e.to_string())?.as_u128()),
        _ => return Err("invalid batch_job_id".to_string()),
    };
    Ok(JobEnvelope {
        extraction_id: field("extraction_id")?,
        document_id: field("document_id")?,
        template_id: field("template_id")?,
        workspace_id: field("workspace_id")?,
        batch_job_id,
    })
}

#[test]
fn envelope_requires_workspace_and_round_trips() {
    let envelope = JobEnvelope {
        extraction_id: id(),
        document_id: id(),
        template_id: id(),
        workspace_id: id(),
        batch_job_id: Some(id()),
    };
    let fields = envelope.to_fields();
    let parsed = JobEnvelope::from_fields(&fields).expect("parse");
    assert_eq!(parsed, envelope);

    let delayed = envelope.to_delayed_payload();
    assert_eq!(
        JobEnvelope::from_delayed_payload(read_delayed(&delayed)).unwrap(),
        envelope
    );
}

#[test]
fn envelope_rejects_missing_or_nil_workspace() {
    let mut fields = vec![
        ("extraction_id".to_string(), Uuid::new_v4().to_string()),
        ("document_id".to_string(), Uuid::new_v4().to_string()),
        ("template_id".to_string(), Uuid::new_v4().to_string()),
    ];
    assert!(JobEnvelope::from_fields(&fields).is_err());

    fields.push(("workspace_id".to_string(), Uuid::nil().to_string()));
    let err = JobEnvelope::from_fields(&fields).unwrap_err();
    assert_eq!(err.retryability(), Retryability::Permanent);
}

#[test]
fn fields_carry_hyphenated_uuid_text() {
    let envelope = JobEnvelope {
        extraction_id: 1,
        document_id: 2,
        template_id: 3,
        workspace_id: 0xabcdef,
        batch_job_id: None,
    };
    let fields = envelope.to_fields();
    assert_eq!(fields.len(), 4);
    assert_eq!(fields[0], ("extraction_id".to_string(), Uuid::from_u128(1).to_string()));
    assert_eq!(fields[3].1, "00000000-0000-0000-0000-000000abcdef");
    assert_eq!(
        envelope.to_delayed_payload(),
        format!(
            "{{\"extraction_id\":\"{}\",\"document_id\":\"{}\",\"template_id\":\"{}\",\"workspace_id\":\"{}\",\"batch_job_id\":null}}",
            Uuid::from_u128(1),
            Uuid::from_u128(2),
            Uuid::from_u128(3),
            Uuid::from_u128(0xabcdef)
        )
    );
}

#[test]
fn missing_and_malformed_fields_are_named() {
    let err = JobEnvelope::from_fields(&Vec::new()).unwrap_err();
    assert_eq!(err.message(), "missing field extraction_id");
    let fields = vec![
        ("extraction_id".to_string(), "not-a-uuid".to_string()),
    ];
    let err = JobEnvelope::from_fields(&fields).unwrap_err();
    assert_eq!(err.message(), "extraction_id is not a UUID");
}

#[test]
fn a_later_field_wins_and_empty_batch_is_none() {
    let first = Uuid::new_v4();
    let second = Uuid::new_v4();
    let fields = vec![
        ("extraction_id".to_string(), first.to_string()),
        ("extraction_id".to_string(), second.to_string()),
        ("document_id".to_string(), first.to_string()),
        ("template_id".to_string(), first.to_string()),
        ("workspace_id".to_string(), first.to_string()),
        ("batch_job_id".to_string(), String::new()),
    ];
    let parsed = JobEnvelope::from_fields(&fields).unwrap();
    assert_eq!(parsed.extraction_id, second.as_u128());
    assert_eq!(parsed.batch_job_id, None);
}

#[test]
fn delayed_payload_errors_are_permanent() {
    let err = JobEnvelope::from_delayed_payload(Err("expected value".to_string())).unwrap_err();
    assert_eq!(err.retryability(), Retryability::Permanent);
    assert_eq!(err.message(), "delayed payload is not valid JSON: expected value");
    let nil = JobEnvelope {
        extraction_id: 1,
        document_id: 2,
        template_id: 3,
        workspace_id: 0,
        batch_job_id: None,
    };
    let err = JobEnvelope::from_delayed_payload(Ok(nil)).unwrap_err();
    assert_eq!(err.message(), "workspace_id must not be the nil UUID");
}

#[test]
fn stream_entries_are_classified() {
    let envelope = JobEnvelope {
        extraction_id: id(),
        document_id: id(),
        template_id: id(),
        workspace_id: id(),
        batch_job_id: None,
    };
    match parse_stream_entry("1-0".to_string(), envelope.to_fields()) {
        StreamDelivery::Job(job) => {
            assert_eq!(job.stream_id, "1-0");
            assert_eq!(job.envelope(), envelope);
        }
        StreamDelivery::Malformed(m) => panic!("unexpected malformed message: {}", m.reason),
    }
    let fields = vec![("junk".to_string(), "x".to_string())];
    match parse_stream_entry("2-0".to_string(), fields.clone()) {
        StreamDelivery::Malformed(m) => {
            assert_eq!(m.stream_id, "2-0");
            assert_eq!(m.reason, "missing field extraction_id");
            assert_eq!(m.fields, fields);
        }
        StreamDelivery::Job(_) => panic!("junk fields must not form a job"),
    }
}
