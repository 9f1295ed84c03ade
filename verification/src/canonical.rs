//! Canonical JSON bytes: compact text, object members in key order, UTF-8.

use vstd::prelude::*;
use vstd::utf8::encode_utf8;

use crate::json::{json_text, JsonValue};
use crate::text::string_from_chars;

verus! {

/// `serde_json::Error`, the error type of JSON serialization.
#[verifier::external_type_specification]
#[verifier::external_body]
pub struct ExJsonError(serde_json::Error);

/// The canonical bytes of `value`: its compact JSON text, with object
/// members in key order, encoded as UTF-8. Writing to memory cannot fail, so
/// the result is always `Ok`.
pub fn canonical_json(value: &JsonValue) -> (r: Result<Vec<u8>, serde_json::Error>)
    ensures
        r matches Ok(b) && b@ == encode_utf8(json_text(value@)),
{
    let mut text: Vec<char> = Vec::new();
    value.write_json(&mut text);
    proof {
        assert(Seq::<char>::empty() + json_text(value@) == json_text(value@));
    }
    let s = string_from_chars(text.as_slice());
    let bytes = vstd::slice::slice_to_vec(s.as_str().as_bytes());
    Ok(bytes)
}

} // verus!
