//! JSON Schema documents and their validation reports.
//!
//! Compiling and applying a schema is the `jsonschema` crate's work; the
//! schema and the data are handed to it as their compact JSON text.

use vstd::prelude::*;
use vstd::multiset::Multiset;

use crate::json::{json_text, Json, JsonValue};
use crate::text::string_from_chars;

verus! {

broadcast use vstd::seq_lib::group_to_multiset_ensures;

/// One finding: `(instance_pointer, schema_pointer, message)`.
pub type FindingView = (Seq<char>, Seq<char>, Seq<char>);

/// The display text of the error `jsonschema::validator_for` gives for the
/// schema written `schema` (or of the error reading that text), if any.
pub uninterp spec fn schema_compile_error(schema: Seq<char>) -> Option<Seq<char>>;

/// What the validator compiled from `schema` reports for the instance
/// written `data`: each error's instance path, schema path and message,
/// counted without regard to the order `iter_errors` yields them; or the text
/// of the error that stopped it.
pub uninterp spec fn schema_findings(schema: Seq<char>, data: Seq<char>) -> Result<
    Multiset<FindingView>,
    Seq<char>,
>;

/// One schema violation.
#[derive(Debug, Clone, PartialEq, Eq)]
pub struct SchemaValidationError {
    pub instance_pointer: String,
    pub schema_pointer: String,
    pub message: String,
}

impl View for SchemaValidationError {
    type V = FindingView;

    open spec fn view(&self) -> FindingView {
        (self.instance_pointer@, self.schema_pointer@, self.message@)
    }
}

pub open spec fn findings_view(v: Seq<SchemaValidationError>) -> Seq<FindingView> {
    v.map_values(|e: SchemaValidationError| e@)
}

/// Trusted: `jsonschema::validator_for` on the schema read from
/// `schema_text` by `serde_json::from_str`; the error's display text.
#[verifier::external_body]
fn schema_error_of(schema_text: &str) -> (r: Option<String>)
    ensures
        match r {
            Some(e) => schema_compile_error(schema_text@) == Some(e@),
            None => schema_compile_error(schema_text@).is_none(),
        },
{
    match serde_json::from_str::<serde_json::Value>(schema_text) {
        Ok(schema) => jsonschema::validator_for(&schema).err().map(|error| error.to_string()),
        Err(error) => Some(error.to_string()),
    }
}

/// Trusted: `Validator::iter_errors` of the validator that
/// `jsonschema::validator_for` compiles from `schema_text`, on the instance
/// read from `data_text`; each error's paths and display text.
#[verifier::external_body]
fn run_validator(schema_text: &str, data_text: &str) -> (r: Result<Vec<SchemaValidationError>, String>)
    ensures
        match r {
            Ok(v) => schema_findings(schema_text@, data_text@) == Ok::<Multiset<FindingView>, Seq<char>>(
                findings_view(v@).to_multiset(),
            ),
            Err(e) => schema_findings(schema_text@, data_text@) == Err::<Multiset<FindingView>, Seq<char>>(e@),
        },
{
    let schema: serde_json::Value = serde_json::from_str(schema_text).map_err(|error| error.to_string())?;
    let data: serde_json::Value = serde_json::from_str(data_text).map_err(|error| error.to_string())?;
    let validator = jsonschema::validator_for(&schema).map_err(|error| error.to_string())?;
    Ok(validator.iter_errors(&data).map(|error| SchemaValidationError {
        instance_pointer: error.instance_path().to_string(),
        schema_pointer: error.schema_path().to_string(),
        message: error.to_string(),
    }).collect())
}

/// A schema that could not be accepted, with the reason.
#[derive(Debug, Clone, PartialEq, Eq)]
pub struct SchemaError(String);

impl SchemaError {
    pub closed spec fn message_spec(&self) -> Seq<char> {
        self.0@
    }

    /// The error's display text.
    pub fn message(&self) -> (s: &String)
        ensures
            s@ == self.message_spec(),
    {
        &self.0
    }
}

/// The compact JSON text of `v`.
pub fn json_string(v: &JsonValue) -> (s: String)
    ensures
        s@ == json_text(v@),
{
    let mut out: Vec<char> = Vec::new();
    v.write_json(&mut out);
    proof {
        assert(Seq::<char>::empty() + json_text(v@) == json_text(v@));
    }
    string_from_chars(out.as_slice())
}

/// A JSON Schema document: an object that `jsonschema` compiles.
#[derive(Debug, PartialEq, Eq)]
pub struct JsonSchema(JsonValue);

impl View for JsonSchema {
    type V = Json;

    closed spec fn view(&self) -> Json {
        self.0@
    }
}

/// The report for `data` under `schema`: the validator's findings, or one
/// finding without pointers carrying the error that stopped it.
pub open spec fn report_spec(schema: Json, data: Json) -> Multiset<FindingView> {
    match schema_findings(json_text(schema), json_text(data)) {
        Ok(f) => f,
        Err(m) => Multiset::singleton((Seq::<char>::empty(), Seq::<char>::empty(), m)),
    }
}

impl JsonSchema {
    /// Accepts an object that compiles as a JSON Schema.
    pub fn new(schema: JsonValue) -> (r: Result<JsonSchema, SchemaError>)
        ensures
            match r {
                Ok(s) => s@ == schema@ && schema@ is Object && schema_compile_error(json_text(schema@))
                    .is_none(),
                Err(e) => if schema@ is Object {
                    schema_compile_error(json_text(schema@)) == Some(e.message_spec())
                } else {
                    e.message_spec() == "json schema must be an object"@
                },
            },
    {
        if schema.as_object().is_none() {
            return Err(SchemaError("json schema must be an object".to_string()));
        }
        let text = json_string(&schema);
        match schema_error_of(text.as_str()) {
            Some(e) => Err(SchemaError(e)),
            None => Ok(JsonSchema(schema)),
        }
    }

    pub fn as_value(&self) -> (v: &JsonValue)
        ensures
            v@ == self@,
    {
        &self.0
    }

    /// Validates `data` against this schema.
    pub fn validate(&self, data: &JsonValue) -> (r: SchemaValidationReport)
        ensures
            findings_view(r.errors@).to_multiset() == report_spec(self@, data@),
    {
        let schema_text = json_string(&self.0);
        let data_text = json_string(data);
        match run_validator(schema_text.as_str(), data_text.as_str()) {
            Ok(errors) => SchemaValidationReport { errors },
            Err(message) => {
                let mut errors: Vec<SchemaValidationError> = Vec::new();
                errors.push(SchemaValidationError { instance_pointer: String::new(), schema_pointer: String::new(), message });
                proof {
                    let f = findings_view(errors@);
                    assert(f =~= Seq::<FindingView>::empty().push(f[0]));
                    assert(Seq::<FindingView>::empty().to_multiset() =~= Multiset::empty());
                    assert(f.to_multiset() =~= Multiset::singleton(f[0]));
                }
                SchemaValidationReport { errors }
            },
        }
    }

    pub fn duplicate(&self) -> (r: JsonSchema)
        ensures
            r@ == self@,
    {
        JsonSchema(self.0.duplicate())
    }
}

impl Clone for JsonSchema {
    fn clone(&self) -> (r: JsonSchema)
        ensures
            r@ == self@,
    {
        self.duplicate()
    }
}

/// The violations found by one validation.
#[derive(Debug, Clone, PartialEq, Eq)]
pub struct SchemaValidationReport {
    pub errors: Vec<SchemaValidationError>,
}

impl SchemaValidationReport {
    /// No violation.
    pub fn is_valid(&self) -> (r: bool)
        ensures
            r == (self.errors@.len() == 0),
    {
        self.errors.len() == 0
    }

    pub fn errors(&self) -> (r: &[SchemaValidationError])
        ensures
            r@ == self.errors@,
    {
        self.errors.as_slice()
    }
}

} // verus!
