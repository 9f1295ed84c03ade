//! The provider-neutral input and output of an extraction backend.

use vstd::prelude::*;

use crate::json::{Json, JsonValue};
use crate::text::{append_str, chars_of, i64_text, int_text, string_from_chars};

verus! {

/// The document bytes, their normalized MIME type, the prompt and the JSON
/// Schema handed to an extraction backend.
#[derive(Debug)]
pub struct ExtractionInput {
    pub file_bytes: Vec<u8>,
    pub mime_type: String,
    pub prompt: String,
    pub json_schema: JsonValue,
}

impl ExtractionInput {
    pub fn new(file_bytes: Vec<u8>, mime_type: String, prompt: String, json_schema: JsonValue) -> (i: ExtractionInput)
        ensures
            i.file_bytes@ == file_bytes@,
            i.mime_type@ == mime_type@,
            i.prompt@ == prompt@,
            i.json_schema@ == json_schema@,
    {
        ExtractionInput { file_bytes, mime_type, prompt, json_schema }
    }
}

/// Token accounting returned by a backend.
#[derive(Debug, Clone, Copy, PartialEq, Eq, Structural)]
pub struct TokenUsage {
    pub input_tokens: i32,
    pub output_tokens: i32,
}

impl TokenUsage {
    pub fn new(input_tokens: i32, output_tokens: i32) -> (u: TokenUsage)
        ensures
            u == (TokenUsage { input_tokens, output_tokens }),
    {
        TokenUsage { input_tokens, output_tokens }
    }

    /// `input_tokens=N, output_tokens=M`, the usage's display text.
    pub fn to_string(&self) -> (s: String)
        ensures
            s@ == "input_tokens="@ + int_text(self.input_tokens as int) + ", output_tokens="@ + int_text(
                self.output_tokens as int,
            ),
    {
        let mut v = chars_of("input_tokens=");
        append_str(&mut v, i64_text(self.input_tokens as i64).as_str());
        append_str(&mut v, ", output_tokens=");
        append_str(&mut v, i64_text(self.output_tokens as i64).as_str());
        string_from_chars(v.as_slice())
    }
}

impl Default for TokenUsage {
    fn default() -> (u: TokenUsage)
        ensures
            u == (TokenUsage { input_tokens: 0, output_tokens: 0 }),
    {
        TokenUsage { input_tokens: 0, output_tokens: 0 }
    }
}

/// A successful backend extraction.
#[derive(Debug)]
pub struct ExtractionOutput {
    pub result: JsonValue,
    pub usage: TokenUsage,
}

impl ExtractionOutput {
    pub fn new(result: JsonValue, usage: TokenUsage) -> (o: ExtractionOutput)
        ensures
            o.result@ == result@,
            o.usage == usage,
    {
        ExtractionOutput { result, usage }
    }
}

/// The failures that cross the backend boundary.
#[derive(Debug, Clone, PartialEq, Eq)]
pub enum ExtractionBackendError {
    Request(String),
    Api(String),
    Parse(String),
    Capability(String),
}

impl ExtractionBackendError {
    pub open spec fn message_spec(&self) -> Seq<char> {
        match self {
            ExtractionBackendError::Request(m) => "backend request failed: "@ + m@,
            ExtractionBackendError::Api(m) => "backend API error: "@ + m@,
            ExtractionBackendError::Parse(m) => "backend response parse failed: "@ + m@,
            ExtractionBackendError::Capability(m) => "backend capability error: "@ + m@,
        }
    }

    /// The error's display text.
    pub fn message(&self) -> (s: String)
        ensures
            s@ == self.message_spec(),
    {
        match self {
            ExtractionBackendError::Request(m) => crate::text::concat_str("backend request failed: ", m.as_str()),
            ExtractionBackendError::Api(m) => crate::text::concat_str("backend API error: ", m.as_str()),
            ExtractionBackendError::Parse(m) => crate::text::concat_str("backend response parse failed: ", m.as_str()),
            ExtractionBackendError::Capability(m) => crate::text::concat_str("backend capability error: ", m.as_str()),
        }
    }
}

} // verus!
