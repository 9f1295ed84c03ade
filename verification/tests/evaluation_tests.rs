use struxio::evaluation::{EvalDecision, EvalThresholds, FixtureDescriptor, FixtureInput};
use struxio::evidence::EvidenceSidecar;
use struxio::identity::Sha256ContentHash;
use struxio::json::{JsonObject, JsonValue};

#[test]
fn eval_thresholds_use_integer_basis_points() {
    assert!(EvalThresholds::new(10_000, 9_000, 8_000, 500).is_ok());
    assert!(EvalThresholds::new(10_001, 0, 0, 0).is_err());
    assert_eq!(EvalThresholds::strict().min_schema_valid_rate_bps(), 10_000);
}

#[test]
fn fixture_name_must_not_be_blank() {
    let input = FixtureInput::new(
        "basic_invoice.pdf".to_string(),
        "application/pdf".to_string(),
        Sha256ContentHash::from_content(b"pdf-bytes"),
    )
    .unwrap();
    assert!(FixtureDescriptor::new(
        "  ".to_string(),
        input,
        JsonValue::Object(JsonObject::new()),
        EvidenceSidecar::not_requested(),
        None,
    )
    .is_err());
}

#[test]
fn each_threshold_is_checked() {
    assert!(EvalThresholds::new(0, 10_001, 0, 0).is_err());
    assert!(EvalThresholds::new(0, 0, 10_001, 0).is_err());
    assert!(EvalThresholds::new(0, 0, 0, 10_001).is_err());
    let t = EvalThresholds::new(1, 2, 3, 4).unwrap();
    assert_eq!(t.min_schema_valid_rate_bps(), 1);
    assert_eq!(t.min_field_accuracy_bps(), 2);
    assert_eq!(t.min_evidence_coverage_bps(), 3);
    assert_eq!(t.max_abstain_rate_bps(), 4);
}

#[test]
fn fixture_input_rejects_blank_names_and_keeps_its_fields() {
    let hash = Sha256ContentHash::from_content(b"x");
    assert!(FixtureInput::new(" ".to_string(), "application/pdf".to_string(), hash).is_err());
    assert!(FixtureInput::new("a.pdf".to_string(), "".to_string(), hash).is_err());
    let input = FixtureInput::new("a.pdf".to_string(), "application/pdf".to_string(), hash).unwrap();
    assert_eq!(input.file_name(), "a.pdf");
    assert_eq!(input.media_type(), "application/pdf");
    assert_eq!(input.content_sha256(), hash);
    let fixture = FixtureDescriptor::new(
        "basic".to_string(),
        input,
        JsonValue::Null,
        EvidenceSidecar::not_requested(),
        Some(EvalDecision::Accept),
    )
    .unwrap();
    assert_eq!(fixture.name(), "basic");
    assert_eq!(fixture.expected_decision(), Some(EvalDecision::Accept));
}
