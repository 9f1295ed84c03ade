use struxio::error::AppError;
use struxio::principal::{
    JobExecutionContext, PrincipalContext, PrincipalId, WorkspaceId, LOCAL_PRINCIPAL_UUID,
    LOCAL_WORKSPACE_SLUG, LOCAL_WORKSPACE_UUID,
};
use struxio::scopes::{Scope, ScopeSet};
use struxio::uuid_text::uuid_string;

fn principal_for(workspace: WorkspaceId, scopes: &[Scope]) -> PrincipalContext {
    PrincipalContext::new(workspace, PrincipalId::local(), ScopeSet::from_scopes(scopes))
}

#[test]
fn workspace_id_rejects_nil_uuid() {
    assert!(WorkspaceId::new(uuid::Uuid::nil().as_u128()).is_err());
    assert!(!uuid::Uuid::from_u128(LOCAL_WORKSPACE_UUID).is_nil());
}

#[test]
fn missing_scope_is_forbidden_without_resource_leak() {
    let ctx = principal_for(WorkspaceId::local(), &[Scope::DocumentsRead]);
    let err = ctx.require_scope(Scope::DocumentsWrite).unwrap_err();
    let msg = err.message();
    assert!(msg.contains("insufficient scope"));
    assert!(!msg.to_lowercase().contains("document"));
    assert!(!msg.contains(&uuid_string(LOCAL_WORKSPACE_UUID)));
}

#[test]
fn local_operator_is_never_nil() {
    let ctx = PrincipalContext::local_operator();
    assert!(!uuid::Uuid::from_u128(ctx.workspace_id().as_uuid()).is_nil());
    assert!(!uuid::Uuid::from_u128(ctx.principal_id().as_uuid()).is_nil());
    assert!(ctx.has_scope(Scope::DocumentsRead));
    assert!(ctx.has_scope(Scope::BatchesCreate));
}

#[test]
fn workspace_id_rejects_nil() {
    let err = WorkspaceId::new(0).unwrap_err();
    match err {
        AppError::Internal(msg) => assert!(msg.contains("nil")),
        other => panic!("unexpected error: {}", other.message()),
    }
}

#[test]
fn principal_id_rejects_nil() {
    assert!(PrincipalId::new(0).is_err());
}

#[test]
fn local_ids_are_not_nil() {
    assert_ne!(LOCAL_WORKSPACE_UUID, 0);
    assert_ne!(LOCAL_PRINCIPAL_UUID, 0);
    assert_ne!(LOCAL_WORKSPACE_UUID, LOCAL_PRINCIPAL_UUID);
    assert_eq!(WorkspaceId::local().as_uuid(), LOCAL_WORKSPACE_UUID);
    assert_eq!(PrincipalId::local().as_uuid(), LOCAL_PRINCIPAL_UUID);
}

#[test]
fn principal_context_cannot_omit_workspace() {
    let ctx = PrincipalContext::local_operator();
    assert_ne!(ctx.workspace_id().as_uuid(), 0);
    assert!(ctx.has_scope(Scope::DocumentsRead));
    assert!(ctx.has_scope(Scope::BatchesCreate));
}

#[test]
fn job_execution_context_carries_real_workspace() {
    let ctx = JobExecutionContext::new(WorkspaceId::local());
    assert_ne!(ctx.workspace_id().as_uuid(), 0);
}

#[test]
fn seeded_identifiers_match_their_text() {
    assert_eq!(uuid_string(LOCAL_WORKSPACE_UUID), "79ca2631-6230-5277-9d0e-879be839f744");
    assert_eq!(uuid_string(LOCAL_PRINCIPAL_UUID), "271a2afd-e58f-5f5b-9c32-57c0f38df33e");
    assert_eq!(LOCAL_WORKSPACE_SLUG, "local");
    let id = 0x0123_4567_89ab_cdef_0011_2233_4455_6677u128;
    assert_eq!(uuid_string(id), uuid::Uuid::from_u128(id).to_string());
}

#[test]
fn worker_context_follows_the_principal() {
    let ws = WorkspaceId::new(42).unwrap();
    let ctx = principal_for(ws, &[]);
    assert_eq!(JobExecutionContext::from_principal(&ctx).workspace_id(), ws);
    assert!(ctx.scopes().is_empty());
    assert_eq!(ctx.principal_id(), PrincipalId::local());
}
