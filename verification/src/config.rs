//! Service configuration, read from environment-style settings.

use vstd::prelude::*;

use crate::text::{
    chars_of, parse_unsigned, parse_unsigned_chars, split_chars, split_spec, string_from_chars,
    trim, trim_chars,
};

verus! {

pub const DEFAULT_GEMINI_MODEL: &'static str = "gemini-2.5-flash";

pub const DEFAULT_GEMINI_TIMEOUT_SECS: u64 = 120;

pub const DEFAULT_WORKER_CONCURRENCY: usize = 8;

pub const DEFAULT_WORKER_MAX_ATTEMPTS: u32 = 5;

pub const DEFAULT_WORKER_INITIAL_BACKOFF_MS: u64 = 1_000;

pub const DEFAULT_WORKER_MAX_BACKOFF_MS: u64 = 60_000;

pub const DEFAULT_WORKER_CLAIM_IDLE_BUFFER_SECS: u64 = 30;

pub const DEFAULT_PROCESSING_LEASE_SECS: u64 = 60;

/// Why a setting could not be read: it is not set, or not valid Unicode.
#[derive(Debug, Clone, Copy, PartialEq, Eq, Structural)]
pub enum VarError {
    NotPresent,
    NotUnicode,
}

/// The raw value of each setting, as looked up by its variable name.
#[derive(Debug)]
pub struct ConfigVars {
    pub database_url: Result<String, VarError>,
    pub redis_url: Result<String, VarError>,
    pub s3_endpoint: Result<String, VarError>,
    pub s3_bucket: Result<String, VarError>,
    pub s3_region: Result<String, VarError>,
    pub s3_access_key_id: Result<String, VarError>,
    pub s3_secret_access_key: Result<String, VarError>,
    pub gemini_api_key: Result<String, VarError>,
    pub gemini_model: Result<String, VarError>,
    pub gemini_timeout_secs: Result<String, VarError>,
    pub server_host: Result<String, VarError>,
    pub server_port: Result<String, VarError>,
    pub log_level: Result<String, VarError>,
    pub cors_allowed_origins: Result<String, VarError>,
    pub worker_concurrency: Result<String, VarError>,
    pub worker_max_attempts: Result<String, VarError>,
    pub worker_initial_backoff_ms: Result<String, VarError>,
    pub worker_max_backoff_ms: Result<String, VarError>,
    pub worker_claim_idle_secs: Result<String, VarError>,
}

#[derive(Debug, Clone)]
pub struct Config {
    pub database_url: String,
    pub redis_url: String,
    pub s3_endpoint: String,
    pub s3_bucket: String,
    pub s3_region: String,
    pub s3_access_key_id: String,
    pub s3_secret_access_key: String,
    pub gemini_api_key: String,
    pub gemini_model: String,
    pub gemini_timeout_secs: u64,
    pub server_host: String,
    pub server_port: u16,
    pub log_level: String,
    pub cors_allowed_origins: Vec<String>,
    pub worker_concurrency: usize,
    pub worker_max_attempts: u32,
    pub worker_initial_backoff_ms: u64,
    pub worker_max_backoff_ms: u64,
    pub worker_claim_idle_secs: u64,
}

pub open spec fn value_of(v: Result<String, VarError>) -> Option<Seq<char>> {
    match v {
        Ok(s) => Some(s@),
        Err(_) => None,
    }
}

pub open spec fn opt_chars(v: Option<String>) -> Option<Seq<char>> {
    match v {
        Some(s) => Some(s@),
        None => None,
    }
}

/// The setting's text, or `default` when it cannot be read.
pub open spec fn text_or(v: Result<String, VarError>, default: Seq<char>) -> Seq<char> {
    match v {
        Ok(s) => s@,
        Err(_) => default,
    }
}

/// A positive number parsed from `value` (at most `max`), else `default`.
pub open spec fn positive_or(value: Option<Seq<char>>, max: int, default: int) -> int {
    match value {
        Some(s) => match parse_unsigned(s, max) {
            Some(n) => if n > 0 {
                n
            } else {
                default
            },
            None => default,
        },
        None => default,
    }
}

/// The comma-separated pieces, trimmed, without empty ones.
pub open spec fn origins_spec(pieces: Seq<Seq<char>>) -> Seq<Seq<char>>
    decreases pieces.len(),
{
    if pieces.len() == 0 {
        Seq::empty()
    } else {
        let rest = origins_spec(pieces.drop_last());
        if trim(pieces.last()).len() > 0 {
            rest.push(trim(pieces.last()))
        } else {
            rest
        }
    }
}

pub open spec fn min_claim_idle_spec(timeout: int) -> int {
    let a = if timeout + 30 <= u64::MAX { timeout + 30 } else { u64::MAX as int };
    if a >= 90 {
        a
    } else {
        90
    }
}

/// The first required setting that cannot be read, in declaration order.
pub open spec fn first_missing(vars: ConfigVars) -> Option<VarError> {
    if vars.database_url is Err {
        Some(vars.database_url->Err_0)
    } else if vars.s3_endpoint is Err {
        Some(vars.s3_endpoint->Err_0)
    } else if vars.s3_access_key_id is Err {
        Some(vars.s3_access_key_id->Err_0)
    } else if vars.s3_secret_access_key is Err {
        Some(vars.s3_secret_access_key->Err_0)
    } else if vars.gemini_api_key is Err {
        Some(vars.gemini_api_key->Err_0)
    } else {
        None
    }
}

/// A positive `u64` from `value`, else `default`.
pub fn parse_positive_u64(value: Option<String>, default: u64) -> (n: u64)
    ensures
        n == positive_or(opt_chars(value), u64::MAX as int, default as int),
{
    match value {
        Some(s) => {
            let v = chars_of(s.as_str());
            match parse_unsigned_chars(&v, u64::MAX) {
                Some(n) => if n > 0 {
                    n
                } else {
                    default
                },
                None => default,
            }
        },
        None => default,
    }
}

/// A positive `u32` from `value`, else `default`.
pub fn parse_positive_u32(value: Option<String>, default: u32) -> (n: u32)
    ensures
        n == positive_or(opt_chars(value), u32::MAX as int, default as int),
{
    match value {
        Some(s) => {
            let v = chars_of(s.as_str());
            match parse_unsigned_chars(&v, u32::MAX as u64) {
                Some(n) => if n > 0 {
                    n as u32
                } else {
                    default
                },
                None => default,
            }
        },
        None => default,
    }
}

/// A positive `usize` from `value`, else `default`.
pub fn parse_positive_usize(value: Option<String>, default: usize) -> (n: usize)
    ensures
        n == positive_or(opt_chars(value), usize::MAX as int, default as int),
{
    match value {
        Some(s) => {
            let v = chars_of(s.as_str());
            match parse_unsigned_chars(&v, usize::MAX as u64) {
                Some(n) => if n > 0 {
                    n as usize
                } else {
                    default
                },
                None => default,
            }
        },
        None => default,
    }
}

/// The provider timeout in seconds: a positive number, else 120.
pub fn parse_timeout_secs(value: Option<String>) -> (n: u64)
    ensures
        n == positive_or(opt_chars(value), u64::MAX as int, DEFAULT_GEMINI_TIMEOUT_SECS as int),
{
    parse_positive_u64(value, DEFAULT_GEMINI_TIMEOUT_SECS)
}

/// The shortest idle time after which another worker may claim a job: longer
/// than the provider timeout and than the processing lease, by the buffer.
pub fn minimum_claim_idle_secs(gemini_timeout_secs: u64) -> (n: u64)
    ensures
        n == min_claim_idle_spec(gemini_timeout_secs as int),
{
    let a = gemini_timeout_secs.saturating_add(DEFAULT_WORKER_CLAIM_IDLE_BUFFER_SECS);
    let b = DEFAULT_PROCESSING_LEASE_SECS.saturating_add(DEFAULT_WORKER_CLAIM_IDLE_BUFFER_SECS);
    if a >= b {
        a
    } else {
        b
    }
}

/// The claim-idle setting never undercuts the timeout and the lease: it is
/// strictly longer than both, except where the timeout saturates `u64`.
pub proof fn lemma_claim_idle_outlasts(timeout: u64)
    ensures
        min_claim_idle_spec(timeout as int) > DEFAULT_PROCESSING_LEASE_SECS,
        timeout < u64::MAX - DEFAULT_WORKER_CLAIM_IDLE_BUFFER_SECS ==> min_claim_idle_spec(timeout as int)
            > timeout,
{
}

fn owned_or(v: &Result<String, VarError>, default: &str) -> (s: String)
    ensures
        s@ == text_or(*v, default@),
{
    match v {
        Ok(s) => s.clone(),
        Err(_) => default.to_string(),
    }
}

fn ok_value(v: &Result<String, VarError>) -> (r: Option<String>)
    ensures
        opt_chars(r) == value_of(*v),
{
    match v {
        Ok(s) => Some(s.clone()),
        Err(_) => None,
    }
}

/// Trimmed, non-empty, comma-separated origins.
pub fn parse_origins(s: &str) -> (r: Vec<String>)
    ensures
        r@.map_values(|o: String| o@) == origins_spec(split_spec(s@, ',')),
{
    let v = chars_of(s);
    let pieces = split_chars(&v, ',');
    let ghost ps = split_spec(s@, ',');
    let mut out: Vec<String> = Vec::new();
    let mut i: usize = 0;
    while i < pieces.len()
        invariant
            i <= pieces@.len(),
            pieces@.len() == ps.len(),
            forall|k: int| 0 <= k < pieces@.len() ==> #[trigger] pieces@[k]@ == ps[k],
            out@.map_values(|o: String| o@) == origins_spec(ps.take(i as int)),
        decreases pieces@.len() - i,
    {
        proof {
            assert(ps.take(i + 1).drop_last() == ps.take(i as int));
            assert(ps.take(i + 1).last() == pieces@[i as int]@);
        }
        let t = trim_chars(&pieces[i]);
        if t.len() > 0 {
            let ghost before = out@;
            out.push(string_from_chars(t.as_slice()));
            proof {
                assert(out@.map_values(|o: String| o@) =~= before.map_values(|o: String| o@).push(
                    t@,
                ));
            }
        }
        i = i + 1;
    }
    proof {
        assert(ps.take(i as int) == ps);
    }
    out
}

/// `u16::from_str` of `s`, else 8080.
fn parse_port(v: &Result<String, VarError>) -> (p: u16)
    ensures
        p == (match value_of(*v) {
            Some(s) => match parse_unsigned(s, u16::MAX as int) {
                Some(n) => n,
                None => 8080,
            },
            None => 8080,
        }),
{
    match v {
        Ok(s) => {
            let c = chars_of(s.as_str());
            match parse_unsigned_chars(&c, u16::MAX as u64) {
                Some(n) => n as u16,
                None => 8080,
            }
        },
        Err(_) => 8080,
    }
}

impl Config {
    /// Builds the configuration from its settings. A required setting that
    /// cannot be read is an error (the first, in declaration order); any
    /// other falls back to its default.
    pub fn from_vars(vars: &ConfigVars) -> (r: Result<Config, VarError>)
        ensures
            match r {
                Err(e) => first_missing(*vars) == Some(e),
                Ok(c) => {
                    let timeout = positive_or(
                        value_of(vars.gemini_timeout_secs),
                        u64::MAX as int,
                        DEFAULT_GEMINI_TIMEOUT_SECS as int,
                    );
                    let min_idle = min_claim_idle_spec(timeout);
                    let idle = positive_or(value_of(vars.worker_claim_idle_secs), u64::MAX as int, min_idle);
                    &&& first_missing(*vars).is_none()
                    &&& Some(c.database_url@) == value_of(vars.database_url)
                    &&& c.redis_url@ == text_or(vars.redis_url, "redis://127.0.0.1:6379"@)
                    &&& Some(c.s3_endpoint@) == value_of(vars.s3_endpoint)
                    &&& c.s3_bucket@ == text_or(vars.s3_bucket, "struxio"@)
                    &&& c.s3_region@ == text_or(vars.s3_region, "us-east-1"@)
                    &&& Some(c.s3_access_key_id@) == value_of(vars.s3_access_key_id)
                    &&& Some(c.s3_secret_access_key@) == value_of(vars.s3_secret_access_key)
                    &&& Some(c.gemini_api_key@) == value_of(vars.gemini_api_key)
                    &&& c.gemini_model@ == text_or(vars.gemini_model, DEFAULT_GEMINI_MODEL@)
                    &&& c.gemini_timeout_secs == timeout
                    &&& c.server_host@ == text_or(vars.server_host, "0.0.0.0"@)
                    &&& c.server_port == (match value_of(vars.server_port) {
                        Some(s) => match parse_unsigned(s, u16::MAX as int) {
                            Some(n) => n,
                            None => 8080,
                        },
                        None => 8080,
                    })
                    &&& c.log_level@ == text_or(vars.log_level, "info"@)
                    &&& c.cors_allowed_origins@.map_values(|o: String| o@) == (match value_of(
                        vars.cors_allowed_origins,
                    ) {
                        Some(s) => origins_spec(split_spec(s, ',')),
                        None => Seq::empty(),
                    })
                    &&& c.worker_concurrency == positive_or(
                        value_of(vars.worker_concurrency),
                        usize::MAX as int,
                        DEFAULT_WORKER_CONCURRENCY as int,
                    )
                    &&& c.worker_max_attempts == positive_or(
                        value_of(vars.worker_max_attempts),
                        u32::MAX as int,
                        DEFAULT_WORKER_MAX_ATTEMPTS as int,
                    )
                    &&& c.worker_initial_backoff_ms == positive_or(
                        value_of(vars.worker_initial_backoff_ms),
                        u64::MAX as int,
                        DEFAULT_WORKER_INITIAL_BACKOFF_MS as int,
                    )
                    &&& c.worker_max_backoff_ms == positive_or(
                        value_of(vars.worker_max_backoff_ms),
                        u64::MAX as int,
                        DEFAULT_WORKER_MAX_BACKOFF_MS as int,
                    )
                    &&& c.worker_claim_idle_secs == (if idle >= min_idle {
                        idle
                    } else {
                        min_idle
                    })
                },
            },
    {
        let gemini_timeout_secs = parse_timeout_secs(ok_value(&vars.gemini_timeout_secs));
        let minimum = minimum_claim_idle_secs(gemini_timeout_secs);
        let idle = parse_positive_u64(ok_value(&vars.worker_claim_idle_secs), minimum);
        let worker_claim_idle_secs = if idle >= minimum {
            idle
        } else {
            minimum
        };
        let database_url = match &vars.database_url {
            Ok(s) => s.clone(),
            Err(e) => {
                return Err(*e);
            },
        };
        let s3_endpoint = match &vars.s3_endpoint {
            Ok(s) => s.clone(),
            Err(e) => {
                return Err(*e);
            },
        };
        let s3_access_key_id = match &vars.s3_access_key_id {
            Ok(s) => s.clone(),
            Err(e) => {
                return Err(*e);
            },
        };
        let s3_secret_access_key = match &vars.s3_secret_access_key {
            Ok(s) => s.clone(),
            Err(e) => {
                return Err(*e);
            },
        };
        let gemini_api_key = match &vars.gemini_api_key {
            Ok(s) => s.clone(),
            Err(e) => {
                return Err(*e);
            },
        };
        let cors_allowed_origins = match &vars.cors_allowed_origins {
            Ok(s) => parse_origins(s.as_str()),
            Err(_) => {
                let v: Vec<String> = Vec::new();
                proof {
                    assert(v@.map_values(|o: String| o@) =~= Seq::<Seq<char>>::empty());
                }
                v
            },
        };
        Ok(Config {
            database_url,
            redis_url: owned_or(&vars.redis_url, "redis://127.0.0.1:6379"),
            s3_endpoint,
            s3_bucket: owned_or(&vars.s3_bucket, "struxio"),
            s3_region: owned_or(&vars.s3_region, "us-east-1"),
            s3_access_key_id,
            s3_secret_access_key,
            gemini_api_key,
            gemini_model: owned_or(&vars.gemini_model, DEFAULT_GEMINI_MODEL),
            gemini_timeout_secs,
            server_host: owned_or(&vars.server_host, "0.0.0.0"),
            server_port: parse_port(&vars.server_port),
            log_level: owned_or(&vars.log_level, "info"),
            cors_allowed_origins,
            worker_concurrency: parse_positive_usize(
                ok_value(&vars.worker_concurrency),
                DEFAULT_WORKER_CONCURRENCY,
            ),
            worker_max_attempts: parse_positive_u32(
                ok_value(&vars.worker_max_attempts),
                DEFAULT_WORKER_MAX_ATTEMPTS,
            ),
            worker_initial_backoff_ms: parse_positive_u64(
                ok_value(&vars.worker_initial_backoff_ms),
                DEFAULT_WORKER_INITIAL_BACKOFF_MS,
            ),
            worker_max_backoff_ms: parse_positive_u64(
                ok_value(&vars.worker_max_backoff_ms),
                DEFAULT_WORKER_MAX_BACKOFF_MS,
            ),
            worker_claim_idle_secs,
        })
    }

    /// How long, in seconds, a job may sit unacknowledged before another
    /// worker claims it (at least one second).
    pub fn worker_claim_idle(&self) -> (secs: u64)
        ensures
            secs == (if self.worker_claim_idle_secs >= 1 { self.worker_claim_idle_secs } else { 1 }),
    {
        if self.worker_claim_idle_secs >= 1 {
            self.worker_claim_idle_secs
        } else {
            1
        }
    }

    /// The processing lease, in seconds.
    pub fn processing_lease(&self) -> (secs: u64)
        ensures
            secs == DEFAULT_PROCESSING_LEASE_SECS,
    {
        DEFAULT_PROCESSING_LEASE_SECS
    }
}

} // verus!
