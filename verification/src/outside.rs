//! The types of `serde_json` that pass through the library unopened.

use vstd::prelude::*;

verus! {

/// `serde_json::Value`: a JSON value as `serde_json` holds it.
#[verifier::external_type_specification]
#[verifier::external_body]
pub struct ExRawValue(serde_json::Value);

/// `serde_json::Error`: why a text could not be read or a value not printed.
#[verifier::external_type_specification]
#[verifier::external_body]
pub struct ExRawError(serde_json::Error);

} // verus!
