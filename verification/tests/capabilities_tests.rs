use struxio::capabilities::{
    BackendCapabilities, BackendCapability, BackendCompatibility, BackendDescriptor,
};

#[test]
fn capability_mismatch_and_allowlist() {
    let requirements = BackendCompatibility::new()
        .requiring(BackendCapability::StructuredJson)
        .requiring(BackendCapability::SourceEvidence)
        .allowing_provider("eval-provider".to_string());
    let direct = BackendDescriptor::new(
        "eval-provider".to_string(),
        "direct".to_string(),
        BackendCapabilities::new()
            .with(BackendCapability::StructuredJson)
            .with(BackendCapability::RawBytes),
    );
    assert_eq!(
        requirements.missing_capabilities(&direct),
        vec![BackendCapability::SourceEvidence]
    );
    assert!(!requirements.is_satisfied_by(&direct));

    let grounded = BackendDescriptor::new(
        "eval-provider".to_string(),
        "parse".to_string(),
        BackendCapabilities::new()
            .with(BackendCapability::StructuredJson)
            .with(BackendCapability::SourceEvidence),
    );
    assert!(requirements.is_satisfied_by(&grounded));
}

#[test]
fn provider_outside_the_allowlist_is_not_satisfied() {
    let requirements = BackendCompatibility::new()
        .requiring(BackendCapability::StructuredJson)
        .allowing_provider("eval-provider".to_string());
    let other = BackendDescriptor::new(
        "other".to_string(),
        "direct".to_string(),
        BackendCapabilities::new().with(BackendCapability::StructuredJson),
    );
    assert!(requirements.missing_capabilities(&other).is_empty());
    assert!(!requirements.is_satisfied_by(&other));
}

#[test]
fn backend_allowlist_is_checked_too() {
    let requirements = BackendCompatibility::new().allowing_backend("parse".to_string());
    let direct = BackendDescriptor::new(
        "p".to_string(),
        "direct".to_string(),
        BackendCapabilities::new(),
    );
    let parse = BackendDescriptor::new("p".to_string(), "parse".to_string(), BackendCapabilities::new());
    assert!(!requirements.is_satisfied_by(&direct));
    assert!(requirements.is_satisfied_by(&parse));
}

#[test]
fn empty_requirements_accept_any_backend() {
    let requirements = BackendCompatibility::default();
    let backend = BackendDescriptor::new(
        "p".to_string(),
        "b".to_string(),
        BackendCapabilities::default(),
    );
    assert!(requirements.is_satisfied_by(&backend));
}

#[test]
fn capability_sets_are_ordered_and_deduplicated() {
    let caps = BackendCapabilities::new()
        .with(BackendCapability::SourceEvidence)
        .with(BackendCapability::StructuredJson)
        .with(BackendCapability::SourceEvidence);
    assert_eq!(
        caps.iter(),
        vec![BackendCapability::StructuredJson, BackendCapability::SourceEvidence]
    );
    assert!(caps.supports(BackendCapability::StructuredJson));
    assert!(!caps.supports(BackendCapability::RawBytes));
}

#[test]
fn adding_a_capability_twice_or_in_another_order_gives_the_same_set() {
    let once = BackendCapabilities::new().with(BackendCapability::Vision);
    let twice = BackendCapabilities::new()
        .with(BackendCapability::Vision)
        .with(BackendCapability::Vision);
    assert_eq!(once, twice);
    let ab = BackendCapabilities::new()
        .with(BackendCapability::LongContext)
        .with(BackendCapability::RawBytes);
    let ba = BackendCapabilities::new()
        .with(BackendCapability::RawBytes)
        .with(BackendCapability::LongContext);
    assert_eq!(ab, ba);
    assert_eq!(ab.iter(), vec![BackendCapability::RawBytes, BackendCapability::LongContext]);
}

#[test]
fn required_capabilities_are_ordered_and_unique() {
    let req = BackendCompatibility::new()
        .requiring(BackendCapability::SourceEvidence)
        .requiring(BackendCapability::StructuredJson)
        .requiring(BackendCapability::SourceEvidence);
    assert_eq!(
        req.required_capabilities(),
        vec![BackendCapability::StructuredJson, BackendCapability::SourceEvidence]
    );
}

#[test]
fn compatibility_clones_equal() {
    let req = BackendCompatibility::new()
        .requiring(BackendCapability::Vision)
        .allowing_provider("a".to_string())
        .allowing_backend("b".to_string());
    assert_eq!(req.clone(), req);
}
