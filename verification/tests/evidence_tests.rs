use struxio::evidence::{
    check_policy, EvidenceCheckStatus, EvidenceEntry, EvidenceKind, EvidencePolicy,
    EvidenceSidecar, EvidenceSidecarStatus,
};
use struxio::json::{JsonNumber, JsonObject, JsonValue};
use struxio::pointer::JsonPointer;

fn to_json(value: &serde_json::Value) -> JsonValue {
    match value {
        serde_json::Value::Null => JsonValue::Null,
        serde_json::Value::Bool(b) => JsonValue::Bool(*b),
        serde_json::Value::Number(n) => JsonValue::Number(match (n.as_u64(), n.as_i64()) {
            (Some(u), _) => JsonNumber::PosInt(u),
            (None, Some(i)) => JsonNumber::NegInt(i),
            (None, None) => JsonNumber::Float(n.to_string()),
        }),
        serde_json::Value::String(s) => JsonValue::String(s.clone()),
        serde_json::Value::Array(items) => JsonValue::Array(items.iter().map(to_json).collect()),
        serde_json::Value::Object(map) => JsonValue::Object(JsonObject::from_pairs(
            map.iter().map(|(k, v)| (k.clone(), to_json(v))).collect(),
        )),
    }
}

fn json(text: &str) -> JsonValue {
    to_json(&serde_json::from_str::<serde_json::Value>(text).unwrap())
}

fn total() -> JsonPointer {
    JsonPointer::parse("/total").unwrap()
}

#[test]
fn required_evidence_fails_closed_when_missing() {
    let policy = EvidencePolicy::required(vec![total()]);
    let report = check_policy(
        &json(r#"{"total": 10}"#),
        &EvidenceSidecar::from_entries(Vec::new()),
        &policy,
    );
    assert!(!report.is_satisfied());
    assert_eq!(report.statuses()[0].status(), EvidenceCheckStatus::MissingRequired);
}

#[test]
fn required_evidence_fails_closed_when_unavailable() {
    let policy = EvidencePolicy::required(vec![total()]);
    let report = check_policy(&json(r#"{"total": 10}"#), &EvidenceSidecar::unavailable(), &policy);
    assert!(!report.is_satisfied());
    assert_eq!(report.statuses()[0].status(), EvidenceCheckStatus::Unavailable);
}

#[test]
fn inferred_evidence_cannot_satisfy_a_required_path() {
    let pointer = total();
    let sidecar = EvidenceSidecar::from_entries(Vec::new()).with(
        pointer.clone(),
        EvidenceEntry::new(EvidenceKind::Inferred, Some("maybe 10".into()), None).unwrap(),
    );
    let policy = EvidencePolicy::required(vec![pointer]);
    let report = check_policy(&json(r#"{"total": 10}"#), &sidecar, &policy);
    assert_eq!(report.statuses()[0].status(), EvidenceCheckStatus::InferredOnly);
    assert!(!report.is_satisfied());
}

#[test]
fn exact_evidence_satisfies_required_path() {
    let pointer = total();
    let sidecar = EvidenceSidecar::from_entries(Vec::new()).with(
        pointer.clone(),
        EvidenceEntry::new(EvidenceKind::Exact, Some("10".into()), Some("p1".into())).unwrap(),
    );
    let policy = EvidencePolicy::required(vec![pointer]);
    assert!(check_policy(&json(r#"{"total": 10}"#), &sidecar, &policy).is_satisfied());
}

#[test]
fn optional_missing_evidence_is_not_fail_closed() {
    let policy = EvidencePolicy::optional(vec![total()]);
    let report = check_policy(
        &json(r#"{"total": 10}"#),
        &EvidenceSidecar::from_entries(Vec::new()),
        &policy,
    );
    assert!(report.is_satisfied());
    assert_eq!(report.statuses()[0].status(), EvidenceCheckStatus::MissingOptional);
}

#[test]
fn required_path_missing_from_data_is_reported() {
    let policy = EvidencePolicy::required(vec![total()]);
    let report = check_policy(&json(r#"{}"#), &EvidenceSidecar::from_entries(Vec::new()), &policy);
    assert_eq!(report.statuses()[0].status(), EvidenceCheckStatus::DataMissing);
    assert!(!report.is_satisfied());
}

#[test]
fn no_policy_reports_not_requested() {
    let report = check_policy(
        &json(r#"{"total": 10}"#),
        &EvidenceSidecar::not_requested(),
        &EvidencePolicy::none(),
    );
    assert!(report.is_satisfied());
    assert!(report.statuses().is_empty());
}

#[test]
fn blank_quote_is_rejected() {
    let err = EvidenceEntry::new(EvidenceKind::Exact, Some("  ".into()), None).unwrap_err();
    assert_eq!(err.message(), "evidence quote must not be empty");
}

#[test]
fn with_appends_entries_and_marks_the_sidecar_complete() {
    let pointer = total();
    let first = EvidenceEntry::new(EvidenceKind::Exact, Some("10".into()), None).unwrap();
    let second = EvidenceEntry::new(EvidenceKind::Computed, None, None).unwrap();
    let sidecar = EvidenceSidecar::not_requested()
        .with(pointer.clone(), first)
        .with(pointer.clone(), second);
    let entries = sidecar.get(&pointer).unwrap();
    assert_eq!(entries.len(), 2);
    assert_eq!(entries[0].kind(), EvidenceKind::Exact);
    assert_eq!(entries[0].quote(), Some("10"));
    assert_eq!(entries[1].kind(), EvidenceKind::Computed);
    assert_eq!(sidecar.status(), EvidenceSidecarStatus::Partial);
    assert!(!sidecar.is_empty());
    assert!(sidecar.get(&JsonPointer::parse("/other").unwrap()).is_none());
}

#[test]
fn complete_sidecars_hold_evidence_and_unrequested_ones_none() {
    let not_requested = EvidenceSidecar::not_requested();
    assert_eq!(not_requested.status(), EvidenceSidecarStatus::NotRequested);
    assert!(not_requested.is_empty());
    let entry = EvidenceEntry::new(EvidenceKind::Exact, Some("10".into()), None).unwrap();
    let complete = EvidenceSidecar::from_entries(vec![(total(), vec![entry])]);
    assert_eq!(complete.status(), EvidenceSidecarStatus::Complete);
    assert!(!complete.is_empty());
    assert_eq!(EvidenceSidecar::from_entries(Vec::new()).status(), EvidenceSidecarStatus::Partial);
}

#[test]
fn sidecars_policies_and_reports_clone_equal() {
    let entry = EvidenceEntry::new(EvidenceKind::Exact, Some("10".into()), Some("p1".into())).unwrap();
    let sidecar = EvidenceSidecar::from_entries(vec![(total(), vec![entry])]);
    assert_eq!(sidecar.clone(), sidecar);
    let policy = EvidencePolicy::required(vec![total()]);
    assert_eq!(policy.clone(), policy);
    let report = check_policy(&json(r#"{"total": 10}"#), &sidecar, &policy);
    assert_eq!(report.clone(), report);
    assert!(report.clone().is_satisfied());
}
