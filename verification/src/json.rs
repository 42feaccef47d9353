//! The boundary to `serde_json`: reading JSON text into a [`JsonValue`].
//!
//! Nothing here is proved. What is claimed of `serde_json` is that reading
//! a text gives the same value, or fails, whenever and wherever it is done.

use vstd::prelude::*;
use crate::value::{value_model, Json, JsonNumber, JsonValue};

verus! {

/// `serde_json::Value`, carried through as it is: nothing is known of what
/// it holds.
#[verifier::external_type_specification]
#[verifier::external_body]
pub struct ExSerdeValue(serde_json::Value);

/// `serde_json::Number`, carried through as it is: nothing is known of what
/// it holds.
#[verifier::external_type_specification]
#[verifier::external_body]
pub struct ExSerdeNumber(serde_json::Number);

/// What `serde_json::from_str::<serde_json::Value>` makes of a text: the
/// value that it reads, or `None` where it reports an error.
pub uninterp spec fn json_text_value(text: Seq<char>) -> Option<Json>;

/// Converts a `serde_json::Number` by the variant that it holds: an
/// unsigned integer, a negative integer, or a double by its bit pattern.
/// Nothing is claimed of the result.
#[verifier::external_body]
fn number_from_serde(n: &serde_json::Number) -> (r: JsonNumber) {
    match (n.as_u64(), n.as_i64()) {
        (Some(u), _) => JsonNumber::PosInt(u),
        (None, Some(i)) => JsonNumber::NegInt(i),
        (None, None) => JsonNumber::Float(n.as_f64().map_or(0, |x| x.to_bits())),
    }
}

/// Converts a `serde_json::Value` variant by variant, an object entry by
/// entry in the order in which `serde_json::Map` hands them out. Nothing is
/// claimed of the result.
#[verifier::external_body]
fn value_from_serde(v: serde_json::Value) -> (r: JsonValue) {
    match v {
        serde_json::Value::Null => JsonValue::Null,
        serde_json::Value::Bool(b) => JsonValue::Bool(b),
        serde_json::Value::Number(n) => JsonValue::Number(number_from_serde(&n)),
        serde_json::Value::String(s) => JsonValue::String(s),
        serde_json::Value::Array(a) => JsonValue::Array(a.into_iter().map(value_from_serde).collect()),
        serde_json::Value::Object(m) => JsonValue::Object(
            m.into_iter().map(|(k, x)| (k, value_from_serde(x))).collect(),
        ),
    }
}

/// Calls `serde_json::from_str` on `text` and converts what it returns. The
/// claim: the result is `None` exactly where the crate reports an error,
/// and otherwise the value that the crate reads from this text.
#[verifier::external_body]
pub(crate) fn json_from_str(text: &str) -> (r: Option<JsonValue>)
    ensures
        r is Some <==> json_text_value(text@) is Some,
        r matches Some(v) ==> Some(value_model(v)) == json_text_value(text@),
{
    match serde_json::from_str::<serde_json::Value>(text) {
        Ok(v) => Some(value_from_serde(v)),
        Err(_) => None,
    }
}

} // verus!
