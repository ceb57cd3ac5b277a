//! JSON text, read and written by `serde_json`.
//!
//! The library keeps JSON in its own [`Json`]; `serde_json` parses and prints.
//! What it returns is not restated here: each result has a name, and the
//! functions of this module say which name their result equals.

use vstd::prelude::*;
use serde_json::Value as Raw;
use crate::error::StoreError;
use crate::value::{JsonView, Num, Number, Json};

verus! {

/// What `serde_json::from_str` reads from `text`: the value, or `None` where it
/// reports an error.
pub uninterp spec fn json_parse(text: Seq<char>) -> Option<JsonView>;

/// What a `serde_json::Value` holds, as the library's own value.
pub uninterp spec fn raw_json(raw: serde_json::Value) -> JsonView;

/// What `serde_json::to_string` prints for a `serde_json::Value`, or `None`
/// where it reports an error.
pub uninterp spec fn raw_text(raw: serde_json::Value) -> Option<Seq<char>>;

/// What `serde_json::to_string` prints for `value`, or `None` where it reports
/// an error.
pub uninterp spec fn json_text(value: JsonView) -> Option<Seq<char>>;

/// The bits of the double that `serde_json::Number::as_f64` gives for `number`,
/// or `None` where it gives none.
pub uninterp spec fn double_bits(number: Num) -> Option<u64>;

/// `serde_json::from_str` at `serde_json::Value`. The contract only names the
/// outcome: `json_parse` of the text, held by the returned value.
#[verifier::external_body]
fn from_str(text: &str) -> (r: Result<serde_json::Value, serde_json::Error>)
    ensures
        match r {
            Ok(raw) => json_parse(text@) == Some(raw_json(raw)),
            Err(_) => json_parse(text@) is None,
        },
{
    serde_json::from_str::<serde_json::Value>(text)
}

/// Copies a `serde_json::Value` into the library's type, variant by variant. A
/// number becomes `PosInt` where `as_u64` has it, `NegInt` where `as_i64` has
/// it, and otherwise `Float` with the text that `to_string` prints for it.
#[verifier::external_body]
fn lift(raw: &serde_json::Value) -> (value: Json)
    ensures
        value@ == raw_json(*raw),
{
    match raw {
        Raw::Null => Json::Null,
        Raw::Bool(b) => Json::Bool(*b),
        Raw::Number(n) => Json::Number(
            n.as_u64().map(Number::PosInt).or_else(|| n.as_i64().map(Number::NegInt))
                .unwrap_or_else(|| Number::Float(n.to_string())),
        ),
        Raw::String(s) => Json::String(s.clone()),
        Raw::Array(a) => Json::Array(a.iter().map(lift).collect()),
        Raw::Object(o) => Json::Object(
            o.iter().map(|(k, v)| (k.clone(), lift(v))).collect(),
        ),
    }
}

/// Copies a value of the library into a `serde_json::Value`, variant by
/// variant. A `Float` is read back with `serde_json::from_str`, and is `Null`
/// where its text is no JSON number. The contract only names what
/// `serde_json::to_string` will print for the result.
#[verifier::external_body]
fn lower(value: &Json) -> (raw: serde_json::Value)
    ensures
        raw_text(raw) == json_text(value@),
{
    match value {
        Json::Null => Raw::Null,
        Json::Bool(b) => Raw::Bool(*b),
        Json::Number(Number::PosInt(u)) => Raw::from(*u),
        Json::Number(Number::NegInt(i)) => Raw::from(*i),
        Json::Number(Number::Float(t)) => serde_json::from_str::<serde_json::Number>(t)
            .map_or(Raw::Null, Raw::Number),
        Json::String(s) => Raw::String(s.clone()),
        Json::Array(a) => Raw::Array(a.iter().map(lower).collect()),
        Json::Object(o) => Raw::Object(
            o.iter().map(|(k, v)| (k.clone(), lower(v))).collect(),
        ),
    }
}

/// `serde_json::to_string` on a `serde_json::Value`. The contract only names
/// the outcome: `raw_text` of the value.
#[verifier::external_body]
fn to_string(raw: &serde_json::Value) -> (r: Result<String, serde_json::Error>)
    ensures
        match r {
            Ok(text) => raw_text(*raw) == Some(text@),
            Err(_) => raw_text(*raw) is None,
        },
{
    serde_json::to_string(raw)
}

/// `serde_json::Number::as_f64`, with the double handed back as its bits. An
/// integer is made a `serde_json::Number` with `from`, a `Float` is read back
/// with `serde_json::from_str`; where that fails there are no bits.
#[verifier::external_body]
pub(crate) fn number_bits(number: &Number) -> (bits: Option<u64>)
    ensures
        bits == double_bits(number@),
{
    let raw = match number {
        Number::PosInt(u) => Some(serde_json::Number::from(*u)),
        Number::NegInt(i) => Some(serde_json::Number::from(*i)),
        Number::Float(t) => serde_json::from_str::<serde_json::Number>(t).ok(),
    };
    raw.and_then(|n| n.as_f64()).map(|x| x.to_bits())
}

/// Reads a JSON text.
///
/// The result is the value that `serde_json` reads, and `Malformed` exactly
/// where it reads none.
pub fn parse(text: &str) -> (r: Result<Json, StoreError>)
    ensures
        match r {
            Ok(value) => json_parse(text@) == Some(value@),
            Err(e) => json_parse(text@) is None && e@ is Malformed,
        },
{
    match from_str(text) {
        Ok(raw) => Ok(lift(&raw)),
        Err(_) => Err(StoreError::Malformed),
    }
}

/// Writes a value as JSON text.
///
/// The result is the text that `serde_json` prints, and `Malformed` exactly
/// where it prints none.
pub fn to_text(value: &Json) -> (r: Result<String, StoreError>)
    ensures
        match r {
            Ok(text) => json_text(value@) == Some(text@),
            Err(e) => json_text(value@) is None && e@ is Malformed,
        },
{
    let raw = lower(value);
    match to_string(&raw) {
        Ok(text) => Ok(text),
        Err(_) => Err(StoreError::Malformed),
    }
}

} // verus!
