//! Golden fixtures and the integer thresholds an evaluation must meet.

use vstd::prelude::*;

use crate::evidence::EvidenceSidecar;
use crate::identity::Sha256ContentHash;
use crate::json::{Json, JsonValue};
use crate::text::{is_blank, str_is_blank};

verus! {

/// An error in a contract's definition.
#[derive(Debug, Clone, PartialEq, Eq)]
pub enum ContractError {
    Invalid(String),
    InvalidRegex(String),
}

impl ContractError {
    pub open spec fn message_spec(&self) -> Seq<char> {
        match self {
            ContractError::Invalid(m) => m@,
            ContractError::InvalidRegex(m) => "invalid regular expression: "@ + m@,
        }
    }

    /// The error's display text.
    pub fn message(&self) -> (s: String)
        ensures
            s@ == self.message_spec(),
    {
        match self {
            ContractError::Invalid(m) => m.clone(),
            ContractError::InvalidRegex(m) => crate::text::concat_str("invalid regular expression: ", m.as_str()),
        }
    }
}

/// A fixture whose name or input descriptor is blank.
#[derive(Debug, Clone, Copy, PartialEq, Eq, Structural)]
pub struct FixtureError;

impl FixtureError {
    /// The error's display text.
    pub fn message(&self) -> (s: &'static str)
        ensures
            s@ == "fixture name or input descriptor is invalid"@,
    {
        "fixture name or input descriptor is invalid"
    }
}

/// The input of a golden fixture, referenced by its hash rather than embedded.
#[derive(Debug, Clone, PartialEq, Eq)]
pub struct FixtureInput {
    file_name: String,
    media_type: String,
    content_sha256: Sha256ContentHash,
}

impl FixtureInput {
    pub closed spec fn file_name_spec(&self) -> Seq<char> {
        self.file_name@
    }

    pub closed spec fn media_type_spec(&self) -> Seq<char> {
        self.media_type@
    }

    pub closed spec fn hash_spec(&self) -> Seq<u8> {
        self.content_sha256@
    }

    /// Neither the file name nor the media type may be blank.
    pub fn new(file_name: String, media_type: String, content_sha256: Sha256ContentHash) -> (r: Result<
        FixtureInput,
        FixtureError,
    >)
        ensures
            match r {
                Ok(f) => !is_blank(file_name@) && !is_blank(media_type@) && f.file_name_spec()
                    == file_name@ && f.media_type_spec() == media_type@ && f.hash_spec()
                    == content_sha256@,
                Err(_) => is_blank(file_name@) || is_blank(media_type@),
            },
    {
        if str_is_blank(file_name.as_str()) || str_is_blank(media_type.as_str()) {
            return Err(FixtureError);
        }
        Ok(FixtureInput { file_name, media_type, content_sha256 })
    }

    pub fn file_name(&self) -> (s: &str)
        ensures
            s@ == self.file_name_spec(),
    {
        self.file_name.as_str()
    }

    pub fn media_type(&self) -> (s: &str)
        ensures
            s@ == self.media_type_spec(),
    {
        self.media_type.as_str()
    }

    pub fn content_sha256(&self) -> (h: Sha256ContentHash)
        ensures
            h@ == self.hash_spec(),
    {
        self.content_sha256
    }
}

#[derive(Debug, Clone, Copy, PartialEq, Eq, Structural)]
pub enum EvalDecision {
    Accept,
    Review,
    Abstain,
}

/// A golden fixture: an input, the data and evidence it should yield, and
/// the decision expected of it.
#[derive(Debug)]
pub struct FixtureDescriptor {
    name: String,
    input: FixtureInput,
    expected_data: JsonValue,
    expected_evidence: EvidenceSidecar,
    expected_decision: Option<EvalDecision>,
}

impl FixtureDescriptor {
    pub closed spec fn name_spec(&self) -> Seq<char> {
        self.name@
    }

    pub closed spec fn input_spec(&self) -> FixtureInput {
        self.input
    }

    pub closed spec fn data_spec(&self) -> Json {
        self.expected_data@
    }

    pub closed spec fn evidence_spec(&self) -> EvidenceSidecar {
        self.expected_evidence
    }

    pub closed spec fn decision_spec(&self) -> Option<EvalDecision> {
        self.expected_decision
    }

    /// The name must not be blank.
    pub fn new(
        name: String,
        input: FixtureInput,
        expected_data: JsonValue,
        expected_evidence: EvidenceSidecar,
        expected_decision: Option<EvalDecision>,
    ) -> (r: Result<FixtureDescriptor, FixtureError>)
        ensures
            match r {
                Ok(f) => !is_blank(name@) && f.name_spec() == name@ && f.input_spec() == input
                    && f.data_spec() == expected_data@ && f.evidence_spec() == expected_evidence
                    && f.decision_spec() == expected_decision,
                Err(_) => is_blank(name@),
            },
    {
        if str_is_blank(name.as_str()) {
            return Err(FixtureError);
        }
        Ok(FixtureDescriptor { name, input, expected_data, expected_evidence, expected_decision })
    }

    pub fn name(&self) -> (s: &str)
        ensures
            s@ == self.name_spec(),
    {
        self.name.as_str()
    }

    pub fn input(&self) -> (i: &FixtureInput)
        ensures
            *i == self.input_spec(),
    {
        &self.input
    }

    pub fn expected_data(&self) -> (d: &JsonValue)
        ensures
            d@ == self.data_spec(),
    {
        &self.expected_data
    }

    pub fn expected_evidence(&self) -> (e: &EvidenceSidecar)
        ensures
            *e == self.evidence_spec(),
    {
        &self.expected_evidence
    }

    pub fn expected_decision(&self) -> (d: Option<EvalDecision>)
        ensures
            d == self.decision_spec(),
    {
        self.expected_decision
    }
}

/// The largest basis-point value: 100%.
pub const MAX_BPS: u16 = 10_000;

/// Integer basis-point thresholds (`0..=10000`), so an evaluation policy
/// hashes stably.
#[derive(Debug, Clone, Copy, PartialEq, Eq, Structural)]
pub struct EvalThresholds {
    min_schema_valid_rate_bps: u16,
    min_field_accuracy_bps: u16,
    min_evidence_coverage_bps: u16,
    max_abstain_rate_bps: u16,
}

/// The message for a threshold above 100%.
pub open spec fn over_limit(name: Seq<char>) -> Seq<char> {
    name + " must be at most 10000 basis points"@
}

impl EvalThresholds {
    pub closed spec fn spec_values(self) -> (u16, u16, u16, u16) {
        (
            self.min_schema_valid_rate_bps,
            self.min_field_accuracy_bps,
            self.min_evidence_coverage_bps,
            self.max_abstain_rate_bps,
        )
    }

    #[verifier::type_invariant]
    spec fn in_range(self) -> bool {
        self.min_schema_valid_rate_bps <= 10_000 && self.min_field_accuracy_bps <= 10_000
            && self.min_evidence_coverage_bps <= 10_000 && self.max_abstain_rate_bps <= 10_000
    }

    /// Every threshold must be at most 10000; the first that is not is named
    /// in the error.
    pub fn new(
        min_schema_valid_rate_bps: u16,
        min_field_accuracy_bps: u16,
        min_evidence_coverage_bps: u16,
        max_abstain_rate_bps: u16,
    ) -> (r: Result<EvalThresholds, ContractError>)
        ensures
            match r {
                Ok(t) => t.spec_values() == (
                    min_schema_valid_rate_bps,
                    min_field_accuracy_bps,
                    min_evidence_coverage_bps,
                    max_abstain_rate_bps,
                ) && min_schema_valid_rate_bps <= 10_000 && min_field_accuracy_bps <= 10_000
                    && min_evidence_coverage_bps <= 10_000 && max_abstain_rate_bps <= 10_000,
                Err(e) => e matches ContractError::Invalid(m) && if min_schema_valid_rate_bps > 10_000 {
                    m@ == over_limit("min_schema_valid_rate_bps"@)
                } else if min_field_accuracy_bps > 10_000 {
                    m@ == over_limit("min_field_accuracy_bps"@)
                } else if min_evidence_coverage_bps > 10_000 {
                    m@ == over_limit("min_evidence_coverage_bps"@)
                } else {
                    max_abstain_rate_bps > 10_000 && m@ == over_limit("max_abstain_rate_bps"@)
                },
            },
    {
        let suffix = " must be at most 10000 basis points";
        if min_schema_valid_rate_bps > MAX_BPS {
            return Err(ContractError::Invalid(crate::text::concat_str("min_schema_valid_rate_bps", suffix)));
        }
        if min_field_accuracy_bps > MAX_BPS {
            return Err(ContractError::Invalid(crate::text::concat_str("min_field_accuracy_bps", suffix)));
        }
        if min_evidence_coverage_bps > MAX_BPS {
            return Err(ContractError::Invalid(crate::text::concat_str("min_evidence_coverage_bps", suffix)));
        }
        if max_abstain_rate_bps > MAX_BPS {
            return Err(ContractError::Invalid(crate::text::concat_str("max_abstain_rate_bps", suffix)));
        }
        Ok(EvalThresholds {
            min_schema_valid_rate_bps,
            min_field_accuracy_bps,
            min_evidence_coverage_bps,
            max_abstain_rate_bps,
        })
    }

    /// Everything valid, accurate and evidenced; nothing abstained.
    pub fn strict() -> (t: EvalThresholds)
        ensures
            t.spec_values() == (10_000u16, 10_000u16, 10_000u16, 0u16),
    {
        EvalThresholds {
            min_schema_valid_rate_bps: 10_000,
            min_field_accuracy_bps: 10_000,
            min_evidence_coverage_bps: 10_000,
            max_abstain_rate_bps: 0,
        }
    }

    pub fn min_schema_valid_rate_bps(self) -> (v: u16)
        ensures
            v == self.spec_values().0,
            v <= 10_000,
    {
        proof {
            use_type_invariant(&self);
        }
        self.min_schema_valid_rate_bps
    }

    pub fn min_field_accuracy_bps(self) -> (v: u16)
        ensures
            v == self.spec_values().1,
            v <= 10_000,
    {
        proof {
            use_type_invariant(&self);
        }
        self.min_field_accuracy_bps
    }

    pub fn min_evidence_coverage_bps(self) -> (v: u16)
        ensures
            v == self.spec_values().2,
            v <= 10_000,
    {
        proof {
            use_type_invariant(&self);
        }
        self.min_evidence_coverage_bps
    }

    pub fn max_abstain_rate_bps(self) -> (v: u16)
        ensures
            v == self.spec_values().3,
            v <= 10_000,
    {
        proof {
            use_type_invariant(&self);
        }
        self.max_abstain_rate_bps
    }

    /// Evidence is required when any coverage is demanded.
    pub fn require_evidence(self) -> (r: bool)
        ensures
            r == (self.spec_values().2 > 0),
    {
        self.min_evidence_coverage_bps > 0
    }
}

} // verus!
