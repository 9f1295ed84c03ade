//! The provider-neutral extraction interface: requests, outputs, errors,
//! compatibility checks, and the canned provider used in tests.

use vstd::prelude::*;

use crate::capabilities::{
    admits, lemma_caps_determined, missing_spec, BackendCapabilities, BackendCapability, BackendCompatibility,
    BackendDescriptor,
};
use crate::json::{Json, JsonValue};
use crate::mime::{mime_for, mime_key, normalize_mime_type, unsupported_message};
use crate::text::{append_str, chars_of, string_from_chars, trim};

verus! {

/// Identity of the canned test provider.
pub const FAKE_PROVIDER_ID: &'static str = "fake";

/// Backend id of the canned test provider.
pub const FAKE_BACKEND_ID: &'static str = "canned";

/// The input to one extraction call; bytes and texts are borrowed.
#[derive(Debug, Clone, Copy)]
pub struct ExtractionRequest<'a> {
    pub bytes: &'a [u8],
    pub mime_type: &'a str,
    pub instructions: &'a str,
    pub json_schema: &'a JsonValue,
}

/// Token usage a backend reports; persisted unchanged.
#[derive(Debug, Clone, Copy, PartialEq, Eq, Structural)]
pub struct ExtractionUsage {
    pub input_tokens: i32,
    pub output_tokens: i32,
}

/// A structured extraction result.
#[derive(Debug)]
pub struct ExtractionOutput {
    pub result: JsonValue,
    pub usage: ExtractionUsage,
}

/// Failures that orchestration records without knowing the vendor.
#[derive(Debug, Clone, PartialEq, Eq)]
pub enum ProviderError {
    UnsupportedMediaType(String),
    Incompatible { provider_id: String, backend_id: String, missing: Vec<BackendCapability> },
    StructuredOutput(String),
    Timeout,
    Transient(String),
    Backend(String),
}

/// The `Debug` name of a capability.
pub open spec fn capability_name(c: BackendCapability) -> Seq<char> {
    match c {
        BackendCapability::StructuredJson => "StructuredJson"@,
        BackendCapability::RawBytes => "RawBytes"@,
        BackendCapability::SourceEvidence => "SourceEvidence"@,
        BackendCapability::ParseIr => "ParseIr"@,
        BackendCapability::Vision => "Vision"@,
        BackendCapability::LongContext => "LongContext"@,
    }
}

fn capability_str(c: BackendCapability) -> (s: &'static str)
    ensures
        s@ == capability_name(c),
{
    match c {
        BackendCapability::StructuredJson => "StructuredJson",
        BackendCapability::RawBytes => "RawBytes",
        BackendCapability::SourceEvidence => "SourceEvidence",
        BackendCapability::ParseIr => "ParseIr",
        BackendCapability::Vision => "Vision",
        BackendCapability::LongContext => "LongContext",
    }
}

/// The names of `caps` separated by `", "`.
pub open spec fn names_joined(caps: Seq<BackendCapability>) -> Seq<char>
    decreases caps.len(),
{
    if caps.len() == 0 {
        Seq::empty()
    } else if caps.len() == 1 {
        capability_name(caps[0])
    } else {
        names_joined(caps.drop_last()) + ", "@ + capability_name(caps.last())
    }
}

/// The `Debug` text of a list of capabilities, such as `[Vision, RawBytes]`.
pub open spec fn capabilities_debug(caps: Seq<BackendCapability>) -> Seq<char> {
    "["@ + names_joined(caps) + "]"@
}

fn capabilities_text(caps: &Vec<BackendCapability>) -> (s: Vec<char>)
    ensures
        s@ == capabilities_debug(caps@),
{
    let mut out = chars_of("[");
    let mut i: usize = 0;
    proof {
        reveal_strlit("[");
        assert(caps@.take(0) =~= Seq::<BackendCapability>::empty());
    }
    while i < caps.len()
        invariant
            i <= caps@.len(),
            out@ == "["@ + names_joined(caps@.take(i as int)),
        decreases caps@.len() - i,
    {
        proof {
            assert(caps@.take(i + 1).drop_last() =~= caps@.take(i as int));
            assert(caps@.take(i + 1).last() == caps@[i as int]);
        }
        if i > 0 {
            append_str(&mut out, ", ");
        }
        append_str(&mut out, capability_str(caps[i]));
        i = i + 1;
    }
    append_str(&mut out, "]");
    proof {
        assert(caps@.take(i as int) =~= caps@);
    }
    out
}

/// The same error: the same variant with the same texts and capabilities.
pub open spec fn same_error(a: ProviderError, b: ProviderError) -> bool {
    match (a, b) {
        (ProviderError::UnsupportedMediaType(x), ProviderError::UnsupportedMediaType(y)) => x@ == y@,
        (
            ProviderError::Incompatible { provider_id: p1, backend_id: b1, missing: m1 },
            ProviderError::Incompatible { provider_id: p2, backend_id: b2, missing: m2 },
        ) => p1@ == p2@ && b1@ == b2@ && m1@ == m2@,
        (ProviderError::StructuredOutput(x), ProviderError::StructuredOutput(y)) => x@ == y@,
        (ProviderError::Timeout, ProviderError::Timeout) => true,
        (ProviderError::Transient(x), ProviderError::Transient(y)) => x@ == y@,
        (ProviderError::Backend(x), ProviderError::Backend(y)) => x@ == y@,
        _ => false,
    }
}

impl ProviderError {
    /// A copy of this error.
    pub fn duplicate(&self) -> (r: ProviderError)
        ensures
            same_error(r, *self),
    {
        match self {
            ProviderError::UnsupportedMediaType(m) => ProviderError::UnsupportedMediaType(m.clone()),
            ProviderError::Incompatible { provider_id, backend_id, missing } => {
                let m = missing.clone();
                proof {
                    assert(m@ =~= missing@);
                }
                ProviderError::Incompatible {
                    provider_id: provider_id.clone(),
                    backend_id: backend_id.clone(),
                    missing: m,
                }
            },
            ProviderError::StructuredOutput(m) => ProviderError::StructuredOutput(m.clone()),
            ProviderError::Timeout => ProviderError::Timeout,
            ProviderError::Transient(m) => ProviderError::Transient(m.clone()),
            ProviderError::Backend(m) => ProviderError::Backend(m.clone()),
        }
    }

    pub open spec fn message_spec(&self) -> Seq<char> {
        match self {
            ProviderError::UnsupportedMediaType(m) => "unsupported media type: "@ + m@,
            ProviderError::Incompatible { provider_id, backend_id, missing } => "incompatible backend `"@
                + backend_id@ + "` for provider `"@ + provider_id@ + "` (missing "@ + capabilities_debug(
                missing@,
            ) + ")"@,
            ProviderError::StructuredOutput(m) => "invalid structured output: "@ + m@,
            ProviderError::Timeout => "extraction timed out"@,
            ProviderError::Transient(m) => "transient backend failure: "@ + m@,
            ProviderError::Backend(m) => m@,
        }
    }

    /// The error's display text.
    pub fn message(&self) -> (s: String)
        ensures
            s@ == self.message_spec(),
    {
        match self {
            ProviderError::UnsupportedMediaType(m) => crate::text::concat_str("unsupported media type: ", m.as_str()),
            ProviderError::Incompatible { provider_id, backend_id, missing } => {
                let mut v = chars_of("incompatible backend `");
                append_str(&mut v, backend_id.as_str());
                append_str(&mut v, "` for provider `");
                append_str(&mut v, provider_id.as_str());
                append_str(&mut v, "` (missing ");
                let caps = capabilities_text(missing);
                append_str(&mut v, string_from_chars(caps.as_slice()).as_str());
                append_str(&mut v, ")");
                string_from_chars(v.as_slice())
            },
            ProviderError::StructuredOutput(m) => crate::text::concat_str("invalid structured output: ", m.as_str()),
            ProviderError::Timeout => "extraction timed out".to_string(),
            ProviderError::Transient(m) => crate::text::concat_str("transient backend failure: ", m.as_str()),
            ProviderError::Backend(m) => m.clone(),
        }
    }
}

/// Refuses a backend that cannot satisfy the contract's constraints, naming
/// the capabilities it lacks.
pub fn ensure_compatible(identity: &BackendDescriptor, compatibility: &BackendCompatibility) -> (r: Result<
    (),
    ProviderError,
>)
    ensures
        match r {
            Ok(()) => admits(compatibility.providers_spec(), identity.provider_spec()) && admits(
                compatibility.backends_spec(),
                identity.backend_spec(),
            ) && missing_spec(compatibility.required_spec(), identity.capabilities_spec()).len() == 0,
            Err(e) => !(admits(compatibility.providers_spec(), identity.provider_spec()) && admits(
                compatibility.backends_spec(),
                identity.backend_spec(),
            ) && missing_spec(compatibility.required_spec(), identity.capabilities_spec()).len() == 0)
                && (e matches ProviderError::Incompatible { provider_id, backend_id, missing }
                && provider_id@ == identity.provider_spec() && backend_id@ == identity.backend_spec()
                && missing@ == missing_spec(compatibility.required_spec(), identity.capabilities_spec())),
        },
{
    if compatibility.is_satisfied_by(identity) {
        return Ok(());
    }
    Err(ProviderError::Incompatible {
        provider_id: identity.provider_id().to_string(),
        backend_id: identity.backend_id().to_string(),
        missing: compatibility.missing_capabilities(identity),
    })
}

/// The default capability set of a structured-document backend: structured
/// JSON, raw bytes, vision and long context, in that order.
pub fn structured_document_capabilities() -> (c: BackendCapabilities)
    ensures
        c@ == seq![
            BackendCapability::StructuredJson,
            BackendCapability::RawBytes,
            BackendCapability::Vision,
            BackendCapability::LongContext,
        ],
{
    let c = BackendCapabilities::new().with(BackendCapability::StructuredJson).with(BackendCapability::RawBytes).with(
        BackendCapability::Vision,
    ).with(BackendCapability::LongContext);
    proof {
        let e = seq![
            BackendCapability::StructuredJson,
            BackendCapability::RawBytes,
            BackendCapability::Vision,
            BackendCapability::LongContext,
        ];
        assert forall|x: BackendCapability| #[trigger] c@.contains(x) <==> e.contains(x) by {
            if x == BackendCapability::StructuredJson {
                assert(e[0] == x);
            } else if x == BackendCapability::RawBytes {
                assert(e[1] == x);
            } else if x == BackendCapability::Vision {
                assert(e[2] == x);
            } else if x == BackendCapability::LongContext {
                assert(e[3] == x);
            }
        }
        lemma_caps_determined(c@, e);
    }
    c
}

/// The canned provider's identity: `fake`/`canned`, structured JSON and raw
/// bytes, in that order.
pub fn default_identity() -> (d: BackendDescriptor)
    ensures
        d.provider_spec() == FAKE_PROVIDER_ID@,
        d.backend_spec() == FAKE_BACKEND_ID@,
        d.capabilities_spec() == seq![BackendCapability::StructuredJson, BackendCapability::RawBytes],
{
    let caps = BackendCapabilities::new().with(BackendCapability::StructuredJson).with(BackendCapability::RawBytes);
    proof {
        let e = seq![BackendCapability::StructuredJson, BackendCapability::RawBytes];
        assert forall|x: BackendCapability| #[trigger] caps@.contains(x) <==> e.contains(x) by {
            if x == BackendCapability::StructuredJson {
                assert(e[0] == x);
            } else if x == BackendCapability::RawBytes {
                assert(e[1] == x);
            }
        }
        lemma_caps_determined(caps@, e);
    }
    BackendDescriptor::new(FAKE_PROVIDER_ID.to_string(), FAKE_BACKEND_ID.to_string(), caps)
}

/// A deterministic provider for tests: canned JSON and usage, or a canned
/// failure.
#[derive(Debug)]
pub struct FakeExtractionProvider {
    identity: BackendDescriptor,
    result: JsonValue,
    usage: ExtractionUsage,
    failure: Option<ProviderError>,
}

impl FakeExtractionProvider {
    pub closed spec fn identity_spec(&self) -> BackendDescriptor {
        self.identity
    }

    pub closed spec fn result_spec(&self) -> Json {
        self.result@
    }

    pub closed spec fn usage_spec(&self) -> ExtractionUsage {
        self.usage
    }

    pub closed spec fn failure_spec(&self) -> Option<ProviderError> {
        self.failure
    }

    /// Succeeds with `result` and zero usage.
    pub fn succeeding(result: JsonValue) -> (p: FakeExtractionProvider)
        ensures
            p.result_spec() == result@,
            p.usage_spec() == (ExtractionUsage { input_tokens: 0, output_tokens: 0 }),
            p.failure_spec().is_none(),
            p.identity_spec().provider_spec() == FAKE_PROVIDER_ID@,
            p.identity_spec().backend_spec() == FAKE_BACKEND_ID@,
    {
        FakeExtractionProvider {
            identity: default_identity(),
            result,
            usage: ExtractionUsage { input_tokens: 0, output_tokens: 0 },
            failure: None,
        }
    }

    /// Always fails with `ProviderError::Backend(message)`.
    pub fn failing(message: String) -> (p: FakeExtractionProvider)
        ensures
            p.result_spec() == Json::Null,
            p.failure_spec() matches Some(ProviderError::Backend(m)) && m@ == message@,
            p.identity_spec().provider_spec() == FAKE_PROVIDER_ID@,
            p.identity_spec().backend_spec() == FAKE_BACKEND_ID@,
    {
        FakeExtractionProvider {
            identity: default_identity(),
            result: JsonValue::null(),
            usage: ExtractionUsage { input_tokens: 0, output_tokens: 0 },
            failure: Some(ProviderError::Backend(message)),
        }
    }

    /// Advertises `identity` instead.
    pub fn with_identity(self, identity: BackendDescriptor) -> (p: FakeExtractionProvider)
        ensures
            p.identity_spec() == identity,
            p.result_spec() == self.result_spec(),
            p.usage_spec() == self.usage_spec(),
            p.failure_spec() == self.failure_spec(),
    {
        FakeExtractionProvider { identity, ..self }
    }

    /// Reports this usage on success.
    pub fn with_usage(self, input_tokens: i32, output_tokens: i32) -> (p: FakeExtractionProvider)
        ensures
            p.usage_spec() == (ExtractionUsage { input_tokens, output_tokens }),
            p.identity_spec() == self.identity_spec(),
            p.result_spec() == self.result_spec(),
            p.failure_spec() == self.failure_spec(),
    {
        FakeExtractionProvider { usage: ExtractionUsage { input_tokens, output_tokens }, ..self }
    }

    pub fn identity(&self) -> (d: &BackendDescriptor)
        ensures
            *d == self.identity_spec(),
    {
        &self.identity
    }

    /// The answer to a request for a document of type `mime_type`: an
    /// unsupported type is refused first, then the canned failure, else the
    /// canned result and usage.
    pub fn respond(&self, mime_type: &str) -> (r: Result<ExtractionOutput, ProviderError>)
        ensures
            match r {
                Ok(o) => mime_for(mime_key(mime_type@)) is Some && self.failure_spec().is_none()
                    && o.result@ == self.result_spec() && o.usage == self.usage_spec(),
                Err(e) => if mime_for(mime_key(mime_type@)) is None {
                    e matches ProviderError::UnsupportedMediaType(m) && m@ == unsupported_message(
                        trim(mime_type@),
                    )
                } else {
                    self.failure_spec() matches Some(f) && same_error(e, f)
                },
            },
    {
        match normalize_mime_type(mime_type) {
            Err(error) => {
                return Err(ProviderError::UnsupportedMediaType(error.message()));
            },
            Ok(_) => {},
        }
        match &self.failure {
            Some(failure) => Err(failure.duplicate()),
            None => Ok(ExtractionOutput { result: self.result.duplicate(), usage: self.usage }),
        }
    }
}

} // verus!
