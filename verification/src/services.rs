//! The decisions the application services make around storage, the queue
//! and the database: what they check, name, compute and report.

use base64::Engine;
use vstd::prelude::*;

use crate::error::AppError;
use crate::identity::{hex_string, hex_text};
use crate::json::{find_key, Json, JsonValue};
use crate::mime::{mime_for, mime_key, normalize_mime_type, unsupported_message};
use crate::principal::WorkspaceId;
use crate::text::{append_str, chars_of, concat_str, string_from_chars, trim};
use crate::uuid_text::{uuid_string, uuid_text};

verus! {

/// A failure of the object store.
#[derive(Debug, Clone, PartialEq, Eq)]
pub enum StorageError {
    S3(String),
    Presign(String),
}

impl StorageError {
    pub open spec fn message_spec(&self) -> Seq<char> {
        match self {
            StorageError::S3(m) => "S3 error: "@ + m@,
            StorageError::Presign(m) => "Presign error: "@ + m@,
        }
    }

    /// The error's display text.
    pub fn message(&self) -> (s: String)
        ensures
            s@ == self.message_spec(),
    {
        match self {
            StorageError::S3(m) => concat_str("S3 error: ", m.as_str()),
            StorageError::Presign(m) => concat_str("Presign error: ", m.as_str()),
        }
    }
}

/// How long a presigned upload URL stays valid, in seconds.
pub const UPLOAD_URL_TTL_SECS: u64 = 3600;

/// The MD5 digest `md5::compute` gives for `data`.
pub uninterp spec fn md5_digest(data: Seq<u8>) -> Seq<u8>;

/// The bytes the `base64` crate's `STANDARD` engine decodes from `text`, or
/// the display text of its error.
pub uninterp spec fn base64_decoded(text: Seq<char>) -> Result<Seq<u8>, Seq<char>>;

/// Trusted: `md5::compute`, a 16-byte digest.
#[verifier::external_body]
fn md5_compute(data: &[u8]) -> (r: [u8; 16])
    ensures
        r@ == md5_digest(data@),
{
    md5::compute(data).0
}

/// Trusted: `base64::engine::general_purpose::STANDARD.decode`.
#[verifier::external_body]
fn base64_decode(text: &str) -> (r: Result<Vec<u8>, String>)
    ensures
        match r {
            Ok(b) => base64_decoded(text@) == Ok::<Seq<u8>, Seq<char>>(b@),
            Err(e) => base64_decoded(text@) == Err::<Seq<u8>, Seq<char>>(e@),
        },
{
    base64::engine::general_purpose::STANDARD.decode(text).map_err(|error| error.to_string())
}

/// The lowercase hexadecimal MD5 of `data` (`{:x}` of the digest).
pub fn md5_hex(data: &[u8]) -> (s: String)
    ensures
        s@ == hex_text(md5_digest(data@)),
{
    let d = md5_compute(data);
    hex_string(&d)
}

/// Decodes an inline file's base64 text; bad input is a validation error.
pub fn decode_inline_file(file_base64: &str) -> (r: Result<Vec<u8>, AppError>)
    ensures
        match base64_decoded(file_base64@) {
            Ok(b) => r matches Ok(v) && v@ == b,
            Err(e) => r matches Err(AppError::Validation(m)) && m@ == "Invalid base64: "@ + e,
        },
{
    match base64_decode(file_base64) {
        Ok(bytes) => Ok(bytes),
        Err(e) => Err(AppError::Validation(concat_str("Invalid base64: ", e.as_str()))),
    }
}

/// The MIME type of an uploaded file type; an unsupported one is a
/// validation error carrying the refusal's text.
pub fn document_mime_type(file_type: &str) -> (r: Result<&'static str, AppError>)
    ensures
        match mime_for(mime_key(file_type@)) {
            Some(m) => r matches Ok(s) && s@ == m,
            None => r matches Err(AppError::Validation(m)) && m@ == unsupported_message(trim(file_type@)),
        },
{
    match normalize_mime_type(file_type) {
        Ok(m) => Ok(m),
        Err(e) => Err(AppError::Validation(e.message())),
    }
}

/// The object key of a document: `{workspace}/{object}/{file_name}`, where
/// `object` is a fresh identifier chosen by the caller.
pub open spec fn document_key_spec(workspace: u128, object: u128, file_name: Seq<char>) -> Seq<char> {
    uuid_text(workspace) + "/"@ + uuid_text(object) + "/"@ + file_name
}

pub fn document_key(workspace: WorkspaceId, object: u128, file_name: &str) -> (s: String)
    ensures
        s@ == document_key_spec(workspace@, object, file_name@),
{
    let mut v = chars_of(uuid_string(workspace.as_uuid()).as_str());
    append_str(&mut v, "/");
    append_str(&mut v, uuid_string(object).as_str());
    append_str(&mut v, "/");
    append_str(&mut v, file_name);
    string_from_chars(v.as_slice())
}

/// A template's JSON Schema must be an object with `type` and `properties`
/// members.
pub fn validate_json_schema(schema: &JsonValue) -> (r: Result<(), AppError>)
    ensures
        match schema@ {
            Json::Object(pairs) => if find_key(pairs, "type"@).is_none() {
                r matches Err(AppError::Validation(m)) && m@ == "json_schema must have a 'type' field"@
            } else if find_key(pairs, "properties"@).is_none() {
                r matches Err(AppError::Validation(m)) && m@ == "json_schema must have a 'properties' field"@
            } else {
                r is Ok
            },
            _ => r matches Err(AppError::Validation(m)) && m@ == "json_schema must be a JSON object"@,
        },
{
    let obj = match schema.as_object() {
        Some(o) => o,
        None => {
            return Err(AppError::Validation("json_schema must be a JSON object".to_string()));
        },
    };
    if obj.get(&"type".to_string()).is_none() {
        return Err(AppError::Validation("json_schema must have a 'type' field".to_string()));
    }
    if obj.get(&"properties".to_string()).is_none() {
        return Err(AppError::Validation("json_schema must have a 'properties' field".to_string()));
    }
    Ok(())
}

/// System templates cannot be changed; `deleting` picks the message.
pub fn check_template_mutable(is_system: bool, deleting: bool) -> (r: Result<(), AppError>)
    ensures
        r is Ok <==> !is_system,
        r matches Err(AppError::Forbidden(m)) ==> m@ == (if deleting {
            "Cannot delete system templates"@
        } else {
            "Cannot update system templates"@
        }),
        r is Err ==> r matches Err(AppError::Forbidden(_)),
{
    if is_system {
        if deleting {
            Err(AppError::Forbidden("Cannot delete system templates".to_string()))
        } else {
            Err(AppError::Forbidden("Cannot update system templates".to_string()))
        }
    } else {
        Ok(())
    }
}

/// A template is visible to the caller only within its own workspace.
pub fn can_access_template(caller: WorkspaceId, template_workspace: WorkspaceId) -> (r: bool)
    ensures
        r == (caller@ == template_workspace@),
{
    caller.as_uuid() == template_workspace.as_uuid()
}

/// Extracted JSON must stay schema-pure: a top-level `evidence` member is
/// refused with `message`.
pub fn ensure_schema_pure(data: &JsonValue, message: &str) -> (r: Result<(), AppError>)
    ensures
        match data@ {
            Json::Object(pairs) => if find_key(pairs, "evidence"@).is_some() {
                r matches Err(AppError::Validation(m)) && m@ == message@
            } else {
                r is Ok
            },
            _ => r is Ok,
        },
{
    match data.as_object() {
        Some(o) => {
            if o.get(&"evidence".to_string()).is_some() {
                Err(AppError::Validation(message.to_string()))
            } else {
                Ok(())
            }
        },
        None => Ok(()),
    }
}

/// A batch must name at least one document.
pub fn check_batch_documents(count: usize) -> (r: Result<(), AppError>)
    ensures
        r is Ok <==> count > 0,
        r matches Err(e) ==> (e matches AppError::Validation(m) && m@ == "document_ids must not be empty"@),
{
    if count == 0 {
        Err(AppError::Validation("document_ids must not be empty".to_string()))
    } else {
        Ok(())
    }
}

/// An evaluation run needs fixtures and exactly one outcome per fixture.
pub fn check_run_sizes(fixtures: usize, outcomes: usize) -> (r: Result<(), AppError>)
    ensures
        r is Ok <==> (fixtures > 0 && outcomes == fixtures),
        r matches Err(e) ==> (e matches AppError::Validation(m) && m@ == (if fixtures == 0 {
            "contract version has no fixtures to evaluate"@
        } else {
            "evaluation run must include exactly one outcome per fixture"@
        })),
{
    if fixtures == 0 {
        return Err(AppError::Validation("contract version has no fixtures to evaluate".to_string()));
    }
    if outcomes != fixtures {
        return Err(AppError::Validation(
            "evaluation run must include exactly one outcome per fixture".to_string(),
        ));
    }
    Ok(())
}

/// The index of the first fixture named `name`, or a validation error naming
/// the unknown fixture.
pub fn find_fixture(fixture_names: &Vec<String>, name: &String) -> (r: Result<usize, AppError>)
    ensures
        match r {
            Ok(i) => i < fixture_names@.len() && fixture_names@[i as int]@ == name@ && forall|k: int|
                0 <= k < i ==> (#[trigger] fixture_names@[k])@ != name@,
            Err(e) => (forall|k: int| 0 <= k < fixture_names@.len() ==> (#[trigger] fixture_names@[k])@ != name@)
                && (e matches AppError::Validation(m) && m@ == "unknown fixture "@ + name@),
        },
{
    let mut i: usize = 0;
    while i < fixture_names.len()
        invariant
            i <= fixture_names@.len(),
            forall|k: int| 0 <= k < i ==> (#[trigger] fixture_names@[k])@ != name@,
        decreases fixture_names@.len() - i,
    {
        if fixture_names[i] == *name {
            return Ok(i);
        }
        i = i + 1;
    }
    Err(AppError::Validation(concat_str("unknown fixture ", name.as_str())))
}

/// The error when the configured model is not in the database.
pub fn missing_model_error(model_id: &str) -> (e: AppError)
    ensures
        e matches AppError::Internal(m) && m@ == "AI model '"@ + model_id@
            + "' not found in database. Check your GEMINI_MODEL env var and migration seed data."@,
{
    let mut v = chars_of("AI model '");
    append_str(&mut v, model_id);
    append_str(&mut v, "' not found in database. Check your GEMINI_MODEL env var and migration seed data.");
    proof {
        reveal_strlit("AI model '");
    }
    AppError::Internal(string_from_chars(v.as_slice()))
}

/// How often a processing lease is renewed, in nanoseconds: a third of the
/// lease, but at least one second.
pub fn heartbeat_interval_nanos(lease_secs: u64) -> (n: u128)
    ensures
        n == (if lease_secs as int * 1_000_000_000 / 3 >= 1_000_000_000 {
            lease_secs as int * 1_000_000_000 / 3
        } else {
            1_000_000_000
        }),
{
    let third: u128 = (lease_secs as u128) * 1_000_000_000 / 3;
    if third >= 1_000_000_000 {
        third
    } else {
        1_000_000_000
    }
}

/// Counts of outbox entries published and failed in one flush.
#[derive(Debug, Clone, Copy, PartialEq, Eq, Structural)]
pub struct OutboxFlush {
    pub published: usize,
    pub failed: usize,
}

impl OutboxFlush {
    pub fn new() -> (f: OutboxFlush)
        ensures
            f == (OutboxFlush { published: 0, failed: 0 }),
    {
        OutboxFlush { published: 0, failed: 0 }
    }

    /// Counts one more entry, published or failed.
    pub fn record(self, published: bool) -> (f: OutboxFlush)
        requires
            published ==> self.published < usize::MAX,
            !published ==> self.failed < usize::MAX,
        ensures
            f == (if published {
                OutboxFlush { published: (self.published + 1) as usize, failed: self.failed }
            } else {
                OutboxFlush { published: self.published, failed: (self.failed + 1) as usize }
            }),
    {
        if published {
            OutboxFlush { published: self.published + 1, failed: self.failed }
        } else {
            OutboxFlush { published: self.published, failed: self.failed + 1 }
        }
    }
}

impl Default for OutboxFlush {
    fn default() -> (f: OutboxFlush)
        ensures
            f == (OutboxFlush { published: 0, failed: 0 }),
    {
        OutboxFlush::new()
    }
}

/// Counting a flush one entry at a time adds up: after `outcomes`, the
/// published and failed counts are the numbers of successes and failures.
pub open spec fn count_outcomes(outcomes: Seq<bool>) -> (int, int)
    decreases outcomes.len(),
{
    if outcomes.len() == 0 {
        (0, 0)
    } else {
        let (p, f) = count_outcomes(outcomes.drop_last());
        if outcomes.last() {
            (p + 1, f)
        } else {
            (p, f + 1)
        }
    }
}

/// Every entry is counted once: published plus failed is the number of
/// entries.
pub proof fn lemma_flush_counts_every_entry(outcomes: Seq<bool>)
    ensures
        count_outcomes(outcomes).0 + count_outcomes(outcomes).1 == outcomes.len(),
        count_outcomes(outcomes).0 >= 0,
        count_outcomes(outcomes).1 >= 0,
    decreases outcomes.len(),
{
    if outcomes.len() > 0 {
        lemma_flush_counts_every_entry(outcomes.drop_last());
    }
}

/// The flush after recording `outcomes` in order, one `record` each.
pub fn tally(outcomes: &Vec<bool>) -> (f: OutboxFlush)
    ensures
        f.published == count_outcomes(outcomes@).0,
        f.failed == count_outcomes(outcomes@).1,
{
    let mut f = OutboxFlush::new();
    let mut i: usize = 0;
    while i < outcomes.len()
        invariant
            i <= outcomes@.len(),
            f.published == count_outcomes(outcomes@.take(i as int)).0,
            f.failed == count_outcomes(outcomes@.take(i as int)).1,
        decreases outcomes@.len() - i,
    {
        proof {
            assert(outcomes@.take(i + 1).drop_last() == outcomes@.take(i as int));
            assert(outcomes@.take(i + 1).last() == outcomes@[i as int]);
            lemma_flush_counts_every_entry(outcomes@.take(i as int));
        }
        f = f.record(outcomes[i]);
        i = i + 1;
    }
    proof {
        assert(outcomes@.take(i as int) == outcomes@);
    }
    f
}

} // verus!
