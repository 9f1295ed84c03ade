//! How the HTTP API answers errors and authenticates static API keys.

use vstd::prelude::*;

use crate::error::AppError;
use crate::json::{find_index, insert_member, insert_position, Json, JsonObject, JsonValue};
use crate::principal::PrincipalContext;
use crate::scopes::Scope;
use crate::text::{
    append_str, chars_eq_str, chars_of, i64_text, int_text, key_lt, parse_signed, parse_signed_chars,
    string_from_chars, subvec,
};

verus! {

/// The prefix of a `Forbidden` detail that reports a plan's key limit.
pub const KEY_LIMIT_PREFIX: &'static str = "api_key_limit_reached:";

/// An application error on its way to becoming an HTTP response.
#[derive(Debug)]
pub struct ApiError(pub AppError);

/// `{"error": text}`.
pub open spec fn error_json(text: Seq<char>) -> Json {
    Json::Object(seq![("error"@, Json::Str(text))])
}

/// The user-facing text for a plan that allows `n` API keys.
pub open spec fn key_limit_message(n: int) -> Seq<char> {
    "Your plan allows a maximum of "@ + int_text(n) + " API keys. Upgrade your plan to create more."@
}

/// The key limit a `Forbidden` detail reports, when it is
/// `api_key_limit_reached:` followed by an `i32`.
pub open spec fn key_limit(detail: Seq<char>) -> Option<int> {
    let p = "api_key_limit_reached:"@;
    if detail.len() >= p.len() && detail.take(p.len() as int) == p {
        parse_signed(detail.skip(p.len() as int), i32::MIN as int, i32::MAX as int)
    } else {
        None
    }
}

/// The status code and JSON body answering `e`. Authentication, missing
/// resources, invalid input, rate limits and duplicates keep their message;
/// a key-limit refusal gets its own body; every other failure is an opaque
/// internal error.
pub open spec fn response_spec(e: AppError) -> (u16, Json) {
    match e {
        AppError::Auth(_) => (401, error_json(e.message_spec())),
        AppError::Forbidden(m) => match key_limit(m@) {
            Some(n) => (
                403,
                Json::Object(
                    seq![
                        ("error"@, Json::Str("api_key_limit_reached"@)),
                        ("message"@, Json::Str(key_limit_message(n))),
                    ],
                ),
            ),
            None => (403, error_json(m@)),
        },
        AppError::NotFound(_) => (404, error_json(e.message_spec())),
        AppError::Validation(_) => (400, error_json(e.message_spec())),
        AppError::RateLimit(_) => (429, error_json(e.message_spec())),
        AppError::Duplicate(_) => (409, error_json(e.message_spec())),
        _ => (500, error_json("Internal server error"@)),
    }
}

/// An object with the single member `key`.
fn single_member(key: &str, value: JsonValue) -> (r: JsonValue)
    ensures
        r@ == Json::Object(seq![(key@, value@)]),
{
    let mut o = JsonObject::new();
    let ghost vm = value@;
    proof {
        assert(o.model() =~= Seq::<(Seq<char>, Json)>::empty());
    }
    o.insert(key.to_string(), value);
    proof {
        let e = Seq::<(Seq<char>, Json)>::empty();
        assert(find_index(e, key@).is_none());
        assert(insert_position(e, key@) == 0);
        assert(e.insert(0, (key@, vm)) =~= seq![(key@, vm)]);
    }
    JsonValue::from_object(o)
}

fn key_limit_body(n: i32) -> (r: JsonValue)
    ensures
        r@ == Json::Object(
            seq![
                ("error"@, Json::Str("api_key_limit_reached"@)),
                ("message"@, Json::Str(key_limit_message(n as int))),
            ],
        ),
{
    let mut text = chars_of("Your plan allows a maximum of ");
    let digits = i64_text(n as i64);
    append_str(&mut text, digits.as_str());
    append_str(&mut text, " API keys. Upgrade your plan to create more.");
    let message = string_from_chars(text.as_slice());
    let mut o = JsonObject::new();
    proof {
        assert(o.model() =~= Seq::<(Seq<char>, Json)>::empty());
    }
    let ghost m1 = Json::Str("api_key_limit_reached"@);
    let ghost m2 = Json::Str(message@);
    o.insert("error".to_string(), JsonValue::from_str("api_key_limit_reached"));
    let ghost after_first = o.model();
    o.insert("message".to_string(), JsonValue::from_string(message));
    proof {
        reveal_strlit("error");
        reveal_strlit("message");
        let e = Seq::<(Seq<char>, Json)>::empty();
        assert(find_index(e, "error"@).is_none());
        assert(insert_position(e, "error"@) == 0);
        assert(after_first =~= seq![("error"@, m1)]);
        assert(after_first[0].0.len() != "message"@.len());
        assert(after_first[0].0 != "message"@);
        assert(after_first.drop_first() =~= e);
        assert(find_index(after_first.drop_first(), "message"@).is_none());
        assert(find_index(after_first, "message"@).is_none());
        assert(key_lt("error"@, "message"@));
        assert(insert_position(after_first.drop_first(), "message"@) == 0);
        assert(insert_position(after_first, "message"@) == 1);
        assert(o.model() =~= seq![("error"@, m1), ("message"@, m2)]);
    }
    JsonValue::from_object(o)
}

/// The key limit in a `Forbidden` detail, if it reports one.
fn parse_key_limit(detail: &String) -> (r: Option<i32>)
    ensures
        match r {
            Some(n) => key_limit(detail@) == Some(n as int),
            None => key_limit(detail@).is_none(),
        },
{
    let v = chars_of(detail.as_str());
    let p = chars_of(KEY_LIMIT_PREFIX);
    proof {
        reveal_strlit("api_key_limit_reached:");
    }
    if v.len() < p.len() {
        return None;
    }
    let head = subvec(&v, 0, p.len());
    if !crate::text::chars_eq(head.as_slice(), p.as_slice()) {
        return None;
    }
    let rest = subvec(&v, p.len(), v.len());
    proof {
        assert(head@ == v@.take(p@.len() as int));
        assert(rest@ == v@.skip(p@.len() as int));
    }
    match parse_signed_chars(&rest, i32::MIN as i64, i32::MAX as i64) {
        Some(n) => Some(n as i32),
        None => None,
    }
}

impl ApiError {
    /// The HTTP status and JSON body that answer this error.
    pub fn status_and_body(&self) -> (r: (u16, JsonValue))
        ensures
            r.0 == response_spec(self.0).0,
            r.1@ == response_spec(self.0).1,
    {
        proof {
            reveal_strlit("error");
        }
        match &self.0 {
            AppError::Auth(_) => (401, single_member("error", JsonValue::from_string(self.0.message()))),
            AppError::Forbidden(m) => match parse_key_limit(m) {
                Some(n) => (403, key_limit_body(n)),
                None => (403, single_member("error", JsonValue::from_string(m.clone()))),
            },
            AppError::NotFound(_) => (404, single_member("error", JsonValue::from_string(self.0.message()))),
            AppError::Validation(_) => (400, single_member("error", JsonValue::from_string(self.0.message()))),
            AppError::RateLimit(_) => (429, single_member("error", JsonValue::from_string(self.0.message()))),
            AppError::Duplicate(_) => (409, single_member("error", JsonValue::from_string(self.0.message()))),
            _ => (500, single_member("error", JsonValue::from_str("Internal server error"))),
        }
    }
}

/// What a request's `Authorization` header earns against the configured key:
/// the header must be present, be `Bearer <token>`, and the token must equal a
/// non-empty configured key.
pub open spec fn bearer_spec(header: Option<Seq<char>>, expected: Seq<char>) -> Result<(), Seq<char>> {
    match header {
        None => Err("Missing Authorization header"@),
        Some(h) => if h.len() >= 7 && h.take(7) == "Bearer "@ {
            if expected.len() == 0 || h.skip(7) != expected {
                Err("Invalid API key"@)
            } else {
                Ok(())
            }
        } else {
            Err("Invalid Authorization header format"@)
        },
    }
}

/// Checks a static API key presented as a bearer token. A refusal is an
/// `Auth` error whose detail says why.
pub fn authorize_bearer(header: Option<&str>, expected_key: &str) -> (r: Result<(), AppError>)
    ensures
        match r {
            Ok(()) => bearer_spec(
                match header {
                    Some(h) => Some(h@),
                    None => None::<Seq<char>>,
                },
                expected_key@,
            ) is Ok,
            Err(e) => (e matches AppError::Auth(m) && bearer_spec(
                match header {
                    Some(h) => Some(h@),
                    None => None::<Seq<char>>,
                },
                expected_key@,
            ) == Err::<(), Seq<char>>(m@)),
        },
{
    proof {
        reveal_strlit("Bearer ");
    }
    let h = match header {
        Some(h) => h,
        None => {
            return Err(AppError::Auth("Missing Authorization header".to_string()));
        },
    };
    let v = chars_of(h);
    let prefix = chars_of("Bearer ");
    if v.len() < 7 {
        return Err(AppError::Auth("Invalid Authorization header format".to_string()));
    }
    let head = subvec(&v, 0, 7);
    proof {
        assert(head@ == v@.take(7));
    }
    if !crate::text::chars_eq(head.as_slice(), prefix.as_slice()) {
        return Err(AppError::Auth("Invalid Authorization header format".to_string()));
    }
    let token = subvec(&v, 7, v.len());
    let expected = chars_of(expected_key);
    proof {
        assert(token@ == v@.skip(7));
    }
    if expected.len() == 0 || !crate::text::chars_eq(token.as_slice(), expected.as_slice()) {
        return Err(AppError::Auth("Invalid API key".to_string()));
    }
    Ok(())
}

/// Requires `scope` of the caller. A refusal is an authorization error that
/// says nothing of whether a resource exists.
pub fn require_scope(user: &PrincipalContext, scope: Scope) -> (r: Result<(), AppError>)
    ensures
        r is Ok <==> user.scopes_spec().contains(scope),
        r matches Err(e) ==> (e matches AppError::Forbidden(m) && m@ == "insufficient scope"@),
{
    user.require_scope(scope)
}

} // verus!
