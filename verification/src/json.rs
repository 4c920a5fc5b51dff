//! What the service needs to know of JSON: whether an item is an object.

use vstd::prelude::*;

verus! {

/// Whether `serde_json` reads this text as a JSON object.
pub uninterp spec fn json_text_is_object(text: Seq<char>) -> bool;

/// Parses `text` with `serde_json::from_str` into a `serde_json::Value`
/// and asks `Value::is_object`; a text that does not parse is no object.
/// Trusted: the result is claimed to depend on the text alone.
#[verifier::external_body]
pub(crate) fn json_is_object(text: &str) -> (r: bool)
    ensures
        r == json_text_is_object(text@),
{
    match serde_json::from_str::<serde_json::Value>(text) {
        Ok(v) => v.is_object(),
        Err(_) => false,
    }
}

} // verus!
