//! A small query handler library: parse a `search_term` out of a raw query
//! string, scan a gzip-compressed tab-separated dataset for the first line
//! containing the term, and render the outcome as a fixed JSON envelope in
//! which exactly one of `result` and `error` is non-null.
//!
//! Fetching the dataset is I/O and stays outside: callers perform the single
//! blocking GET themselves and hand in either the raw bytes or a description
//! of the transport failure.

pub mod gzip;
pub mod json;
pub mod query;
pub mod scan;
pub mod text;

use vstd::prelude::*;
use crate::gzip::{find_row_spec, find_row_in_gzipped_tsv};
use crate::json::{envelope_json, render_response};
use crate::query::{param_lookup, get_query_param};
use crate::scan::{OutcomeModel, SearchOutcome};

verus! {

/// The mathematical value of a fetch attempt: the fetched bytes, or the
/// description of the transport failure.
pub open spec fn fetch_model(fetch: &Result<Vec<u8>, String>) -> Result<Seq<u8>, Seq<char>> {
    match fetch {
        Ok(bytes) => Ok(bytes@),
        Err(cause) => Err(cause@),
    }
}

/// The outcome an invocation decides, as a function of the raw query string
/// and the fetch attempt: a query binding no `search_term` is rejected
/// before anything else; a transport failure is reported next; otherwise the
/// fetched bytes are decompressed and scanned for the term.
pub open spec fn outcome_spec(query: Seq<char>, fetch: Result<Seq<u8>, Seq<char>>) -> OutcomeModel {
    match param_lookup(query, "search_term"@) {
        Some(term) => match fetch {
            Ok(bytes) => find_row_spec(bytes, term),
            Err(cause) => OutcomeModel::FetchError(cause),
        },
        None => OutcomeModel::MissingParam,
    }
}

/// The entire JSON response of an invocation, as a function of the raw
/// query string and the fetch attempt.
pub open spec fn spec_respond(query: Seq<char>, fetch: Result<Seq<u8>, Seq<char>>) -> Seq<char> {
    envelope_json(outcome_spec(query, fetch))
}

/// Handle one invocation: extract `search_term` from `query`, scan the
/// fetched dataset for it, and render the outcome as the JSON envelope —
/// exactly the response that `spec_respond` assigns to these inputs.
pub fn respond(query: &str, fetch: &Result<Vec<u8>, String>) -> (r: String)
    ensures
        r@ == spec_respond(query@, fetch_model(fetch)),
{
    let outcome = match get_query_param(query, "search_term") {
        Some(term) => match fetch {
            Ok(bytes) => find_row_in_gzipped_tsv(bytes, term.as_str()),
            Err(cause) => SearchOutcome::FetchError(cause.clone()),
        },
        None => SearchOutcome::MissingParam,
    };
    render_response(&outcome)
}

/// Repetition changes nothing: two invocations that see the same query
/// string and the same fetched bytes produce character-identical JSON, the
/// response being a function of those inputs alone.
pub proof fn lemma_response_deterministic(
    query: Seq<char>,
    fetch: Result<Seq<u8>, Seq<char>>,
    r1: Seq<char>,
    r2: Seq<char>,
)
    requires
        r1 == spec_respond(query, fetch),
        r2 == spec_respond(query, fetch),
    ensures
        r1 == r2,
{
}

/// A query string that binds no `search_term` always yields the
/// missing-parameter envelope — `result` null and `error` holding exactly
/// that message — whatever the fetch attempt brought.
pub proof fn lemma_missing_param(query: Seq<char>, fetch: Result<Seq<u8>, Seq<char>>)
    requires
        param_lookup(query, "search_term"@) is None,
    ensures
        spec_respond(query, fetch) == envelope_json(OutcomeModel::MissingParam),
        json::error_message(OutcomeModel::MissingParam) == Some(
            "Missing 'search_term' query parameter."@,
        ),
        json::envelope_result(OutcomeModel::MissingParam) is None,
{
}

} // verus!
