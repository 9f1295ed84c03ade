//! Workspace and principal identities, and the authenticated caller.
//!
//! Identifiers are UUIDs held as their 128-bit value; the nil UUID is 0.

use vstd::prelude::*;

use crate::error::AppError;
use crate::scopes::{Scope, ScopeSet};

verus! {

/// UUID v5 (DNS namespace + `local.struxio`):
/// `79ca2631-6230-5277-9d0e-879be839f744`.
pub const LOCAL_WORKSPACE_UUID: u128 = 0x79ca2631_6230_5277_9d0e_879be839f744;

/// UUID v5 (DNS namespace + `local.struxio.operator`):
/// `271a2afd-e58f-5f5b-9c32-57c0f38df33e`.
pub const LOCAL_PRINCIPAL_UUID: u128 = 0x271a2afd_e58f_5f5b_9c32_57c0f38df33e;

/// Slug of the seeded single-tenant workspace.
pub const LOCAL_WORKSPACE_SLUG: &'static str = "local";

/// A non-nil workspace identifier.
#[derive(Debug, Clone, Copy, PartialEq, Eq, Hash)]
pub struct WorkspaceId(u128);

impl View for WorkspaceId {
    type V = u128;

    closed spec fn view(&self) -> u128 {
        self.0
    }
}

impl WorkspaceId {
    #[verifier::type_invariant]
    spec fn not_nil(&self) -> bool {
        self.0 != 0
    }

    /// Refuses the nil UUID.
    pub fn new(id: u128) -> (r: Result<WorkspaceId, AppError>)
        ensures
            match r {
                Ok(w) => id != 0 && w@ == id,
                Err(e) => id == 0 && (e matches AppError::Internal(m) && m@
                    == "workspace_id must not be the nil UUID"@),
            },
    {
        if id == 0 {
            return Err(AppError::Internal("workspace_id must not be the nil UUID".to_string()));
        }
        Ok(WorkspaceId(id))
    }

    pub fn local() -> (w: WorkspaceId)
        ensures
            w@ == LOCAL_WORKSPACE_UUID,
    {
        WorkspaceId(LOCAL_WORKSPACE_UUID)
    }

    /// The UUID's value; never nil.
    pub fn as_uuid(self) -> (u: u128)
        ensures
            u == self@,
            u != 0,
    {
        proof {
            use_type_invariant(&self);
        }
        self.0
    }
}

/// A non-nil principal identifier.
#[derive(Debug, Clone, Copy, PartialEq, Eq, Hash)]
pub struct PrincipalId(u128);

impl View for PrincipalId {
    type V = u128;

    closed spec fn view(&self) -> u128 {
        self.0
    }
}

impl PrincipalId {
    #[verifier::type_invariant]
    spec fn not_nil(&self) -> bool {
        self.0 != 0
    }

    /// Refuses the nil UUID.
    pub fn new(id: u128) -> (r: Result<PrincipalId, AppError>)
        ensures
            match r {
                Ok(p) => id != 0 && p@ == id,
                Err(e) => id == 0 && (e matches AppError::Internal(m) && m@
                    == "principal_id must not be the nil UUID"@),
            },
    {
        if id == 0 {
            return Err(AppError::Internal("principal_id must not be the nil UUID".to_string()));
        }
        Ok(PrincipalId(id))
    }

    pub fn local() -> (p: PrincipalId)
        ensures
            p@ == LOCAL_PRINCIPAL_UUID,
    {
        PrincipalId(LOCAL_PRINCIPAL_UUID)
    }

    /// The UUID's value; never nil.
    pub fn as_uuid(self) -> (u: u128)
        ensures
            u == self@,
            u != 0,
    {
        proof {
            use_type_invariant(&self);
        }
        self.0
    }
}

/// An authenticated caller bound to a real workspace.
#[derive(Debug)]
pub struct PrincipalContext {
    workspace_id: WorkspaceId,
    principal_id: PrincipalId,
    scopes: ScopeSet,
}

impl PrincipalContext {
    pub closed spec fn workspace_spec(&self) -> u128 {
        self.workspace_id@
    }

    pub closed spec fn principal_spec(&self) -> u128 {
        self.principal_id@
    }

    pub closed spec fn scopes_spec(&self) -> Seq<Scope> {
        self.scopes@
    }

    pub fn new(workspace_id: WorkspaceId, principal_id: PrincipalId, scopes: ScopeSet) -> (c: PrincipalContext)
        ensures
            c.workspace_spec() == workspace_id@,
            c.principal_spec() == principal_id@,
            c.scopes_spec() == scopes@,
    {
        PrincipalContext { workspace_id, principal_id, scopes }
    }

    /// The local operator: seeded workspace, seeded principal, every scope.
    pub fn local_operator() -> (c: PrincipalContext)
        ensures
            c.workspace_spec() == LOCAL_WORKSPACE_UUID,
            c.principal_spec() == LOCAL_PRINCIPAL_UUID,
            forall|s: Scope| #[trigger] c.scopes_spec().contains(s),
    {
        PrincipalContext::new(WorkspaceId::local(), PrincipalId::local(), ScopeSet::all())
    }

    pub fn workspace_id(&self) -> (w: WorkspaceId)
        ensures
            w@ == self.workspace_spec(),
    {
        self.workspace_id
    }

    pub fn principal_id(&self) -> (p: PrincipalId)
        ensures
            p@ == self.principal_spec(),
    {
        self.principal_id
    }

    pub fn scopes(&self) -> (s: &ScopeSet)
        ensures
            s@ == self.scopes_spec(),
    {
        &self.scopes
    }

    pub fn has_scope(&self, scope: Scope) -> (r: bool)
        ensures
            r == self.scopes_spec().contains(scope),
    {
        self.scopes.contains(scope)
    }

    /// `Ok` when the caller holds `scope`, else `Forbidden`.
    pub fn require_scope(&self, scope: Scope) -> (r: Result<(), AppError>)
        ensures
            r is Ok <==> self.scopes_spec().contains(scope),
            r matches Err(e) ==> (e matches AppError::Forbidden(m) && m@ == "insufficient scope"@),
    {
        self.scopes.require(scope)
    }
}

/// The worker-side counterpart of [`PrincipalContext`]: a real workspace,
/// without an interactive principal.
#[derive(Debug, Clone, Copy, PartialEq, Eq)]
pub struct JobExecutionContext {
    workspace_id: WorkspaceId,
}

impl JobExecutionContext {
    pub closed spec fn workspace_spec(&self) -> u128 {
        self.workspace_id@
    }

    pub fn new(workspace_id: WorkspaceId) -> (c: JobExecutionContext)
        ensures
            c.workspace_spec() == workspace_id@,
    {
        JobExecutionContext { workspace_id }
    }

    /// The context of work done on behalf of `ctx`.
    pub fn from_principal(ctx: &PrincipalContext) -> (c: JobExecutionContext)
        ensures
            c.workspace_spec() == ctx.workspace_spec(),
    {
        JobExecutionContext::new(ctx.workspace_id())
    }

    pub fn workspace_id(self) -> (w: WorkspaceId)
        ensures
            w@ == self.workspace_spec(),
    {
        self.workspace_id
    }
}

/// The seeded identifiers are non-nil and distinct.
pub proof fn lemma_local_ids_distinct()
    ensures
        LOCAL_WORKSPACE_UUID != 0,
        LOCAL_PRINCIPAL_UUID != 0,
        LOCAL_WORKSPACE_UUID != LOCAL_PRINCIPAL_UUID,
{
}

} // verus!
