use struxio::api::{authorize_bearer, require_scope, ApiError};
use struxio::error::AppError;
use struxio::json::{JsonNumber, JsonObject, JsonValue};
use struxio::principal::{PrincipalContext, PrincipalId, WorkspaceId};
use struxio::scopes::{Scope, ScopeSet};

fn to_json(value: &serde_json::Value) -> JsonValue {
    match value {
        serde_json::Value::Null => JsonValue::Null,
        serde_json::Value::Bool(b) => JsonValue::Bool(*b),
        serde_json::Value::Number(n) => JsonValue::Number(match (n.as_u64(), n.as_i64()) {
            (Some(u), _) => JsonNumber::PosInt(u),
            (None, Some(i)) => JsonNumber::NegInt(i),
            (None, None) => JsonNumber::Float(n.to_string()),
        }),
        serde_json::Value::String(s) => JsonValue::String(s.clone()),
        serde_json::Value::Array(items) => JsonValue::Array(items.iter().map(to_json).collect()),
        serde_json::Value::Object(map) => JsonValue::Object(JsonObject::from_pairs(
            map.iter().map(|(k, v)| (k.clone(), to_json(v))).collect(),
        )),
    }
}

fn json(text: &str) -> JsonValue {
    to_json(&serde_json::from_str::<serde_json::Value>(text).unwrap())
}

fn answer(e: AppError) -> (u16, JsonValue) {
    ApiError(e).status_and_body()
}

#[test]
fn errors_map_to_status_and_body() {
    assert_eq!(
        answer(AppError::Auth("Invalid API key".to_string())),
        (401, json(r#"{"error": "Auth error: Invalid API key"}"#))
    );
    assert_eq!(
        answer(AppError::NotFound("Template not found".to_string())),
        (404, json(r#"{"error": "Not found: Template not found"}"#))
    );
    assert_eq!(
        answer(AppError::Validation("bad".to_string())),
        (400, json(r#"{"error": "Validation error: bad"}"#))
    );
    assert_eq!(
        answer(AppError::RateLimit("slow down".to_string())),
        (429, json(r#"{"error": "Rate limit exceeded: slow down"}"#))
    );
    assert_eq!(
        answer(AppError::Duplicate("x".to_string())),
        (409, json(r#"{"error": "Duplicate resource: x"}"#))
    );
    assert_eq!(
        answer(AppError::Forbidden("insufficient scope".to_string())),
        (403, json(r#"{"error": "insufficient scope"}"#))
    );
}

#[test]
fn internal_failures_are_opaque() {
    for e in [
        AppError::Database("connection refused at 10.0.0.1".to_string()),
        AppError::Internal("secret".to_string()),
        AppError::ExternalService("upstream".to_string()),
    ] {
        assert_eq!(answer(e), (500, json(r#"{"error": "Internal server error"}"#)));
    }
}

#[test]
fn key_limit_gets_its_own_body() {
    assert_eq!(
        answer(AppError::Forbidden("api_key_limit_reached:5".to_string())),
        (
            403,
            json(r#"{"error": "api_key_limit_reached", "message": "Your plan allows a maximum of 5 API keys. Upgrade your plan to create more."}"#)
        )
    );
    assert_eq!(
        answer(AppError::Forbidden("api_key_limit_reached:x".to_string())),
        (403, json(r#"{"error": "api_key_limit_reached:x"}"#))
    );
}

#[test]
fn bearer_tokens_are_checked() {
    assert_eq!(authorize_bearer(Some("Bearer secret"), "secret"), Ok(()));
    assert_eq!(
        authorize_bearer(None, "secret"),
        Err(AppError::Auth("Missing Authorization header".to_string()))
    );
    assert_eq!(
        authorize_bearer(Some("Basic secret"), "secret"),
        Err(AppError::Auth("Invalid Authorization header format".to_string()))
    );
    assert_eq!(
        authorize_bearer(Some("Bearer wrong"), "secret"),
        Err(AppError::Auth("Invalid API key".to_string()))
    );
    assert_eq!(
        authorize_bearer(Some("Bearer "), ""),
        Err(AppError::Auth("Invalid API key".to_string()))
    );
}

#[test]
fn missing_scope_is_forbidden() {
    let workspace = WorkspaceId::new(7).unwrap();
    let principal = PrincipalId::new(9).unwrap();
    let ctx = PrincipalContext::new(workspace, principal, ScopeSet::from_scopes(&[Scope::DocumentsRead]));
    assert_eq!(require_scope(&ctx, Scope::DocumentsRead), Ok(()));
    assert_eq!(
        require_scope(&ctx, Scope::TemplatesWrite),
        Err(AppError::Forbidden("insufficient scope".to_string()))
    );
}

#[test]
fn app_error_texts() {
    assert_eq!(AppError::NotFound("document".to_string()).message(), "Not found: document");
    assert_eq!(AppError::Database("x".to_string()).message(), "Database error: x");
    assert_eq!(AppError::Internal("y".to_string()).detail(), "y");
}
