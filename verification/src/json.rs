//! The form in which the store of JSON values keeps a payload.

use vstd::prelude::*;

verus! {

#[verifier::external_type_specification]
#[verifier::external_body]
pub struct ExJsonError(serde_json::Error);

/// What `serde_json::from_str` makes of `text`: the compact JSON text of the
/// value that it reads, or `None` where it does not take `text` for one JSON
/// value.
pub uninterp spec fn json_compact(text: Seq<char>) -> Option<Seq<char>>;

/// The JSON string literal that stands for `text`: what `serde_json` writes
/// for a string value.
pub uninterp spec fn json_quoted(text: Seq<char>) -> Seq<char>;

/// The form in which a payload is kept: JSON text is kept as the compact text
/// of the same value, anything else as a JSON string that holds it.
pub open spec fn stored_form(payload: Seq<char>) -> Seq<char> {
    match json_compact(payload) {
        Some(compact) => compact,
        None => json_quoted(payload),
    }
}

/// `serde_json::from_str` to a `serde_json::Value`, which is then written
/// back by its `Display`. Trusted: whether `text` is taken for a JSON value,
/// and what is written back, depends on `text` alone.
#[verifier::external_body]
fn reformat(text: &str) -> (outcome: Result<String, serde_json::Error>)
    ensures
        match outcome {
            Ok(compact) => json_compact(text@) == Some(compact@),
            Err(_) => json_compact(text@) is None,
        },
{
    match serde_json::from_str::<serde_json::Value>(text) {
        Ok(value) => Ok(value.to_string()),
        Err(error) => Err(error),
    }
}

/// `Display` of `serde_json::Value` on a string value. Trusted: the result
/// depends on `text` alone.
#[verifier::external_body]
fn quote(text: String) -> (literal: String)
    ensures
        literal@ == json_quoted(text@),
{
    serde_json::Value::String(text).to_string()
}

/// Brings a payload into the form in which it is kept.
pub fn to_stored_form(payload: String) -> (kept: String)
    ensures
        kept@ == stored_form(payload@),
{
    match reformat(payload.as_str()) {
        Ok(compact) => compact,
        Err(_) => quote(payload),
    }
}

} // verus!
