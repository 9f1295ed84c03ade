//! The application-wide error type.

use vstd::prelude::*;

use crate::text::{append_str, chars_of, string_from_chars};

verus! {

/// An application error; each variant carries its detail text.
#[derive(Debug, Clone, PartialEq, Eq)]
pub enum AppError {
    Database(String),
    Auth(String),
    Forbidden(String),
    Validation(String),
    NotFound(String),
    ExternalService(String),
    RateLimit(String),
    Duplicate(String),
    Internal(String),
}

impl AppError {
    /// The detail text.
    pub open spec fn detail_spec(&self) -> Seq<char> {
        match self {
            AppError::Database(s) => s@,
            AppError::Auth(s) => s@,
            AppError::Forbidden(s) => s@,
            AppError::Validation(s) => s@,
            AppError::NotFound(s) => s@,
            AppError::ExternalService(s) => s@,
            AppError::RateLimit(s) => s@,
            AppError::Duplicate(s) => s@,
            AppError::Internal(s) => s@,
        }
    }

    /// The prefix the display text puts before the detail.
    pub open spec fn prefix_spec(&self) -> Seq<char> {
        match self {
            AppError::Database(_) => "Database error: "@,
            AppError::Auth(_) => "Auth error: "@,
            AppError::Forbidden(_) => "Forbidden: "@,
            AppError::Validation(_) => "Validation error: "@,
            AppError::NotFound(_) => "Not found: "@,
            AppError::ExternalService(_) => "External service error: "@,
            AppError::RateLimit(_) => "Rate limit exceeded: "@,
            AppError::Duplicate(_) => "Duplicate resource: "@,
            AppError::Internal(_) => "Internal error: "@,
        }
    }

    pub open spec fn message_spec(&self) -> Seq<char> {
        self.prefix_spec() + self.detail_spec()
    }

    fn prefix(&self) -> (p: &'static str)
        ensures
            p@ == self.prefix_spec(),
    {
        match self {
            AppError::Database(_) => "Database error: ",
            AppError::Auth(_) => "Auth error: ",
            AppError::Forbidden(_) => "Forbidden: ",
            AppError::Validation(_) => "Validation error: ",
            AppError::NotFound(_) => "Not found: ",
            AppError::ExternalService(_) => "External service error: ",
            AppError::RateLimit(_) => "Rate limit exceeded: ",
            AppError::Duplicate(_) => "Duplicate resource: ",
            AppError::Internal(_) => "Internal error: ",
        }
    }

    /// The detail text.
    pub fn detail(&self) -> (s: &String)
        ensures
            s@ == self.detail_spec(),
    {
        match self {
            AppError::Database(s) => s,
            AppError::Auth(s) => s,
            AppError::Forbidden(s) => s,
            AppError::Validation(s) => s,
            AppError::NotFound(s) => s,
            AppError::ExternalService(s) => s,
            AppError::RateLimit(s) => s,
            AppError::Duplicate(s) => s,
            AppError::Internal(s) => s,
        }
    }

    /// The display text, such as `"Not found: document"`.
    pub fn message(&self) -> (s: String)
        ensures
            s@ == self.message_spec(),
    {
        let mut v = chars_of(self.prefix());
        append_str(&mut v, self.detail().as_str());
        string_from_chars(v.as_slice())
    }
}

} // verus!
