//! The canonical semantic hash of a JSON value.

use vstd::prelude::*;
use vstd::utf8::encode_utf8;

use crate::canonical::canonical_json;
use crate::identity::{sha256, sha256_digest, Sha256ContentHash};
use crate::json::{distinct_keys, fold_members, json_text, lemma_member_order_irrelevant, Json, JsonValue};

verus! {

pub const CANONICAL_HASH_VERSION: u32 = 1;

/// The SHA-256 of the value's canonical bytes, so object member order never
/// changes the hash.
pub fn semantic_sha256(value: &JsonValue) -> (h: Sha256ContentHash)
    ensures
        h@ == sha256_digest(encode_utf8(json_text(value@))),
{
    match canonical_json(value) {
        Ok(bytes) => Sha256ContentHash::from_bytes(sha256(bytes.as_slice())),
        Err(_) => Sha256ContentHash::from_bytes(sha256(&[])),
    }
}

/// Object member order never reaches the hash: building an object from the
/// same members (no key named twice) in any order gives the same canonical
/// bytes, and so the same semantic hash.
pub proof fn lemma_hash_ignores_member_order(p: Seq<(Seq<char>, Json)>, q: Seq<(Seq<char>, Json)>)
    requires
        distinct_keys(p),
        distinct_keys(q),
        forall|m: (Seq<char>, Json)| #[trigger] p.contains(m) <==> q.contains(m),
    ensures
        encode_utf8(json_text(Json::Object(fold_members(p)))) == encode_utf8(
            json_text(Json::Object(fold_members(q))),
        ),
        sha256_digest(encode_utf8(json_text(Json::Object(fold_members(p))))) == sha256_digest(
            encode_utf8(json_text(Json::Object(fold_members(q)))),
        ),
{
    lemma_member_order_irrelevant(p, q);
}

} // verus!
