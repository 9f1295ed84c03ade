use vstd::prelude::*;

pub mod api;
pub mod backend;
pub mod canonical;
pub mod capabilities;
pub mod jobs;
pub mod config;
pub mod envelope;
pub mod error;
pub mod evaluation;
pub mod evidence;
pub mod gemini;
pub mod hash;
pub mod identity;
pub mod instructions;
pub mod json;
pub mod mime;
pub mod models;
pub mod normalization;
pub mod pointer;
pub mod principal;
pub mod provider;
pub mod schema;
pub mod scopes;
pub mod services;
pub mod text;
pub mod uuid_text;
pub mod validation;

verus! {

} // verus!
