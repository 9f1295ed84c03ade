use struxio::config::{
    minimum_claim_idle_secs, parse_origins, parse_positive_u32, parse_positive_u64, parse_positive_usize,
    parse_timeout_secs, Config, ConfigVars, VarError, DEFAULT_GEMINI_MODEL, DEFAULT_GEMINI_TIMEOUT_SECS,
    DEFAULT_PROCESSING_LEASE_SECS, DEFAULT_WORKER_CLAIM_IDLE_BUFFER_SECS, DEFAULT_WORKER_CONCURRENCY,
};

#[test]
fn uses_flash_as_the_default_model() {
    assert_eq!(DEFAULT_GEMINI_MODEL, "gemini-2.5-flash");
}

#[test]
fn uses_safe_timeout_for_missing_or_invalid_values() {
    assert_eq!(parse_timeout_secs(None), DEFAULT_GEMINI_TIMEOUT_SECS);
    assert_eq!(parse_timeout_secs(Some("0".to_string())), DEFAULT_GEMINI_TIMEOUT_SECS);
    assert_eq!(parse_timeout_secs(Some("not-a-duration".to_string())), DEFAULT_GEMINI_TIMEOUT_SECS);
    assert_eq!(parse_timeout_secs(Some("45".to_string())), 45);
}

#[test]
fn worker_concurrency_rejects_zero() {
    assert_eq!(
        parse_positive_usize(Some("0".to_string()), DEFAULT_WORKER_CONCURRENCY),
        DEFAULT_WORKER_CONCURRENCY
    );
    assert_eq!(parse_positive_usize(Some("16".to_string()), DEFAULT_WORKER_CONCURRENCY), 16);
}

#[test]
fn claim_idle_is_longer_than_timeout_and_processing_lease() {
    let minimum = minimum_claim_idle_secs(120);
    assert!(minimum > 120);
    assert!(minimum > DEFAULT_PROCESSING_LEASE_SECS);
    assert_eq!(minimum, 120 + DEFAULT_WORKER_CLAIM_IDLE_BUFFER_SECS);
}

fn vars() -> ConfigVars {
    ConfigVars {
        database_url: Ok("postgres://db".to_string()),
        redis_url: Err(VarError::NotPresent),
        s3_endpoint: Ok("http://s3".to_string()),
        s3_bucket: Err(VarError::NotPresent),
        s3_region: Ok("eu-west-1".to_string()),
        s3_access_key_id: Ok("key".to_string()),
        s3_secret_access_key: Ok("secret".to_string()),
        gemini_api_key: Ok("gk".to_string()),
        gemini_model: Err(VarError::NotUnicode),
        gemini_timeout_secs: Ok("10".to_string()),
        server_host: Err(VarError::NotPresent),
        server_port: Ok("0".to_string()),
        log_level: Ok("debug".to_string()),
        cors_allowed_origins: Ok(" https://a.example , ,https://b.example,".to_string()),
        worker_concurrency: Ok("-3".to_string()),
        worker_max_attempts: Ok("+7".to_string()),
        worker_initial_backoff_ms: Ok("250".to_string()),
        worker_max_backoff_ms: Err(VarError::NotPresent),
        worker_claim_idle_secs: Ok("5".to_string()),
    }
}

#[test]
fn settings_fill_defaults_and_keep_given_values() {
    let c = Config::from_vars(&vars()).unwrap();
    assert_eq!(c.database_url, "postgres://db");
    assert_eq!(c.redis_url, "redis://127.0.0.1:6379");
    assert_eq!(c.s3_bucket, "struxio");
    assert_eq!(c.s3_region, "eu-west-1");
    assert_eq!(c.gemini_model, DEFAULT_GEMINI_MODEL);
    assert_eq!(c.gemini_timeout_secs, 10);
    assert_eq!(c.server_host, "0.0.0.0");
    assert_eq!(c.server_port, 0);
    assert_eq!(c.log_level, "debug");
    assert_eq!(c.cors_allowed_origins, vec!["https://a.example".to_string(), "https://b.example".to_string()]);
    assert_eq!(c.worker_concurrency, DEFAULT_WORKER_CONCURRENCY);
    assert_eq!(c.worker_max_attempts, 7);
    assert_eq!(c.worker_initial_backoff_ms, 250);
    assert_eq!(c.worker_max_backoff_ms, 60_000);
    // 5 is below the minimum of max(10 + 30, 60 + 30).
    assert_eq!(c.worker_claim_idle_secs, 90);
    assert_eq!(c.worker_claim_idle(), 90);
    assert_eq!(c.processing_lease(), 60);
}

#[test]
fn first_unreadable_required_setting_is_the_error() {
    let mut v = vars();
    v.s3_access_key_id = Err(VarError::NotUnicode);
    v.gemini_api_key = Err(VarError::NotPresent);
    assert_eq!(Config::from_vars(&v).unwrap_err(), VarError::NotUnicode);
    let mut w = vars();
    w.database_url = Err(VarError::NotPresent);
    assert_eq!(Config::from_vars(&w).unwrap_err(), VarError::NotPresent);
}

#[test]
fn invalid_port_falls_back_to_8080() {
    let mut v = vars();
    v.server_port = Ok("70000".to_string());
    assert_eq!(Config::from_vars(&v).unwrap().server_port, 8080);
}

#[test]
fn positive_parsers_respect_their_type_range() {
    assert_eq!(parse_positive_u32(Some("4294967296".to_string()), 5), 5);
    assert_eq!(parse_positive_u32(Some("4294967295".to_string()), 5), 4_294_967_295);
    assert_eq!(parse_positive_u64(Some("18446744073709551616".to_string()), 9), 9);
    assert_eq!(parse_positive_u64(Some(" 12".to_string()), 9), 9);
    assert_eq!(minimum_claim_idle_secs(u64::MAX), u64::MAX);
    assert_eq!(minimum_claim_idle_secs(0), 90);
}

#[test]
fn origins_are_trimmed_and_blank_ones_dropped() {
    assert_eq!(parse_origins(""), Vec::<String>::new());
    assert_eq!(parse_origins("a, b"), vec!["a".to_string(), "b".to_string()]);
}
