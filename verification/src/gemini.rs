//! The Gemini `generateContent` request and the reading of its reply.
//!
//! Sending the request is the application's work; this module says what is
//! sent and what a reply means.

use base64::Engine;
use vstd::prelude::*;

use crate::json::{Json, JsonValue};
use crate::text::{append_str, chars_of, concat_str, key_lt, string_from_chars};

verus! {

pub const GEMINI_API_BASE: &'static str = "https://generativelanguage.googleapis.com/v1beta/models/";

/// The standard (padded) base64 text of `bytes`, as the `base64` crate's
/// `STANDARD` engine writes it.
pub uninterp spec fn base64_standard(bytes: Seq<u8>) -> Seq<char>;

/// Trusted: `base64::engine::general_purpose::STANDARD.encode`. Padded
/// base64 writes four characters per started group of three bytes.
#[verifier::external_body]
pub(crate) fn base64_encode(bytes: &[u8]) -> (s: String)
    ensures
        s@ == base64_standard(bytes@),
        s@.len() == 4 * ((bytes@.len() + 2) / 3),
{
    base64::engine::general_purpose::STANDARD.encode(bytes)
}

/// A failure talking to Gemini.
#[derive(Debug, Clone, PartialEq, Eq)]
pub enum GeminiError {
    Http(String),
    Api(String),
    Parse(String),
}

impl GeminiError {
    pub open spec fn message_spec(&self) -> Seq<char> {
        match self {
            GeminiError::Http(m) => "HTTP error: "@ + m@,
            GeminiError::Api(m) => "API error: "@ + m@,
            GeminiError::Parse(m) => "Parse error: "@ + m@,
        }
    }

    /// The error's display text.
    pub fn message(&self) -> (s: String)
        ensures
            s@ == self.message_spec(),
    {
        match self {
            GeminiError::Http(m) => concat_str("HTTP error: ", m.as_str()),
            GeminiError::Api(m) => concat_str("API error: ", m.as_str()),
            GeminiError::Parse(m) => concat_str("Parse error: ", m.as_str()),
        }
    }
}

/// The structured result of one call, with its token counts.
#[derive(Debug)]
pub struct GeminiResponse {
    pub result: JsonValue,
    pub input_tokens: i32,
    pub output_tokens: i32,
}

/// The endpoint for `model`, authenticated by `api_key`.
pub open spec fn url_spec(model: Seq<char>, api_key: Seq<char>) -> Seq<char> {
    "https://generativelanguage.googleapis.com/v1beta/models/"@ + model + ":generateContent?key="@ + api_key
}

pub fn generate_content_url(model: &str, api_key: &str) -> (s: String)
    ensures
        s@ == url_spec(model@, api_key@),
{
    let mut v = chars_of(GEMINI_API_BASE);
    append_str(&mut v, model);
    append_str(&mut v, ":generateContent?key=");
    append_str(&mut v, api_key);
    proof {
        reveal_strlit("https://generativelanguage.googleapis.com/v1beta/models/");
    }
    string_from_chars(v.as_slice())
}

/// The request body: one content with the prompt text and the inline
/// document, and a generation config asking for JSON under `schema`.
pub open spec fn request_body_spec(bytes: Seq<u8>, mime_type: Seq<char>, prompt: Seq<char>, schema: Json) -> Json {
    Json::Object(
        seq![
            (
                "contents"@,
                Json::Array(
                    seq![
                        Json::Object(
                            seq![
                                (
                                    "parts"@,
                                    Json::Array(
                                        seq![
                                            Json::Object(seq![("text"@, Json::Str(prompt))]),
                                            Json::Object(
                                                seq![
                                                    (
                                                        "inline_data"@,
                                                        Json::Object(
                                                            seq![
                                                                ("data"@, Json::Str(base64_standard(bytes))),
                                                                ("mimeType"@, Json::Str(mime_type)),
                                                            ],
                                                        ),
                                                    ),
                                                ],
                                            ),
                                        ],
                                    ),
                                ),
                            ],
                        ),
                    ],
                ),
            ),
            (
                "generationConfig"@,
                Json::Object(
                    seq![
                        ("responseMimeType"@, Json::Str("application/json"@)),
                        ("responseSchema"@, schema),
                    ],
                ),
            ),
        ],
    )
}

pub fn request_body(bytes: &[u8], mime_type: &str, prompt: &str, schema: &JsonValue) -> (r: JsonValue)
    ensures
        r@ == request_body_spec(bytes@, mime_type@, prompt@, schema@),
{
    proof {
        reveal_strlit("data");
        reveal_strlit("mimeType");
        reveal_strlit("contents");
        reveal_strlit("generationConfig");
        reveal_strlit("responseMimeType");
        reveal_strlit("responseSchema");
        assert(key_lt("data"@, "mimeType"@));
        assert(key_lt("contents"@, "generationConfig"@));
        assert(key_lt("responseMimeType"@, "responseSchema"@)) by {
            reveal_with_fuel(key_lt, 10);
        }
    }
    let data = JsonValue::from_string(base64_encode(bytes));
    let inline = JsonValue::object2(
        "data".to_string(),
        data,
        "mimeType".to_string(),
        JsonValue::from_str(mime_type),
    );
    let text_part = JsonValue::object1("text".to_string(), JsonValue::from_str(prompt));
    let data_part = JsonValue::object1("inline_data".to_string(), inline);
    let ghost tp = text_part@;
    let ghost dp = data_part@;
    let mut parts: Vec<JsonValue> = Vec::new();
    parts.push(text_part);
    parts.push(data_part);
    proof {
        assert(parts@.map_values(|v: JsonValue| v@) =~= seq![tp, dp]);
    }
    let parts = JsonValue::array_of(parts);
    let content = JsonValue::object1("parts".to_string(), parts);
    let ghost cp = content@;
    let mut contents: Vec<JsonValue> = Vec::new();
    contents.push(content);
    proof {
        assert(contents@.map_values(|v: JsonValue| v@) =~= seq![cp]);
    }
    let contents = JsonValue::array_of(contents);
    let config = JsonValue::object2(
        "responseMimeType".to_string(),
        JsonValue::from_str("application/json"),
        "responseSchema".to_string(),
        schema.duplicate(),
    );
    JsonValue::object2("contents".to_string(), contents, "generationConfig".to_string(), config)
}

/// The error for a non-success HTTP status: `status` is the status as
/// displayed (such as `404 Not Found`), `body` the reply's text.
pub fn api_error(status: &str, body: &str) -> (e: GeminiError)
    ensures
        e matches GeminiError::Api(m) && m@ == "Gemini API returned "@ + status@ + ": "@ + body@,
{
    let mut v = chars_of("Gemini API returned ");
    append_str(&mut v, status);
    append_str(&mut v, ": ");
    append_str(&mut v, body);
    proof {
        reveal_strlit("Gemini API returned ");
    }
    GeminiError::Api(string_from_chars(v.as_slice()))
}

/// The text of the first part of the first candidate, which the reply must
/// have.
pub fn reply_text(first_text: Option<String>) -> (r: Result<String, GeminiError>)
    ensures
        match first_text {
            Some(t) => r matches Ok(s) && s@ == t@,
            None => r matches Err(GeminiError::Parse(m)) && m@ == "No text in response candidates"@,
        },
{
    match first_text {
        Some(t) => Ok(t),
        None => Err(GeminiError::Parse("No text in response candidates".to_string())),
    }
}

/// The response once the candidate text has been read as JSON (`Err` holds
/// the reader's message); missing token counts are zero.
pub fn finish_reply(parsed: Result<JsonValue, String>, prompt_tokens: Option<i32>, candidate_tokens: Option<i32>) -> (r:
    Result<GeminiResponse, GeminiError>)
    ensures
        match parsed {
            Err(e) => r matches Err(GeminiError::Parse(m)) && m@ == "Invalid JSON in response: "@ + e@,
            Ok(v) => r matches Ok(g) && g.result@ == v@ && g.input_tokens == (match prompt_tokens {
                Some(n) => n,
                None => 0,
            }) && g.output_tokens == (match candidate_tokens {
                Some(n) => n,
                None => 0,
            }),
        },
{
    match parsed {
        Err(e) => Err(GeminiError::Parse(concat_str("Invalid JSON in response: ", e.as_str()))),
        Ok(result) => Ok(GeminiResponse {
            result,
            input_tokens: match prompt_tokens {
                Some(n) => n,
                None => 0,
            },
            output_tokens: match candidate_tokens {
                Some(n) => n,
                None => 0,
            },
        }),
    }
}

} // verus!
