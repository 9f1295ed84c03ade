use struxio::error::AppError;
use struxio::scopes::{Scope, ScopeSet};

#[test]
fn parse_round_trips_known_scopes() {
    for scope in Scope::all() {
        assert_eq!(Scope::parse(scope.as_str()), Some(scope));
    }
}

#[test]
fn parse_ignores_unknown_scopes() {
    let set = ScopeSet::parse(&["documents:read", "billing:admin"]);
    assert!(set.contains(Scope::DocumentsRead));
    assert_eq!(set.iter().len(), 1);
}

#[test]
fn require_denies_missing_scope_without_resource_detail() {
    let set = ScopeSet::from_scopes(&[Scope::DocumentsRead]);
    let err = set.require(Scope::DocumentsWrite).unwrap_err();
    match err {
        AppError::Forbidden(msg) => assert_eq!(msg, "insufficient scope"),
        other => panic!("unexpected error: {}", other.message()),
    }
}

#[test]
fn scope_sets_are_ordered_and_deduplicated() {
    let set = ScopeSet::from_scopes(&[Scope::BatchesRead, Scope::DocumentsRead, Scope::BatchesRead]);
    assert_eq!(set.iter(), vec![Scope::DocumentsRead, Scope::BatchesRead]);
    assert_eq!(set.as_strings(), vec!["documents:read".to_string(), "batches:read".to_string()]);
    assert!(set.require(Scope::BatchesRead).is_ok());
    assert!(ScopeSet::new().is_empty());
    assert_eq!(ScopeSet::all().iter(), Scope::all().to_vec());
    assert_eq!(set.duplicate(), set);
}

#[test]
fn scope_texts() {
    assert_eq!(Scope::ExtractionsCreate.as_str(), "extractions:create");
    assert_eq!(Scope::parse("templates:write"), Some(Scope::TemplatesWrite));
    assert_eq!(Scope::parse("Templates:write"), None);
}

#[test]
fn parsing_the_texts_of_a_set_gives_the_set_back() {
    let set = ScopeSet::from_scopes(&[Scope::BatchesRead, Scope::DocumentsRead, Scope::TemplatesWrite]);
    let texts = set.as_strings();
    let refs: Vec<&str> = texts.iter().map(|s| s.as_str()).collect();
    assert_eq!(ScopeSet::parse(&refs), set);
}

#[test]
fn scope_sets_clone_and_default() {
    let set = ScopeSet::from_scopes(&[Scope::DocumentsWrite]);
    assert_eq!(set.clone(), set);
    assert!(ScopeSet::default().is_empty());
}
