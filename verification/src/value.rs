//! Serialized component values.

use serde_json::Value;
use vstd::prelude::*;

verus! {

/// Makes `serde_json::Value` known to the verifier, as a type whose values it
/// cannot look into.
#[verifier::external_type_specification]
#[verifier::external_body]
pub struct ExValue(Value);

/// `serde_json::Value`'s `Clone`.
///
/// Trusted: a clone of a JSON value is the same JSON value.
pub assume_specification[ <Value as Clone>::clone ](value: &Value) -> (copy: Value)
    ensures
        copy == *value,
;

/// Copies an optional serialized value.
pub(crate) fn copy_payload(payload: &Option<Value>) -> (copy: Option<Value>)
    ensures
        copy == *payload,
{
    match payload {
        Some(value) => Some(value.clone()),
        None => None,
    }
}

} // verus!
