//! JSON values as `serde_json` reads and writes them.

use serde_json::Value;
use vstd::prelude::*;

verus! {

/// `serde_json::Value`, a JSON value. Nothing is claimed of what is inside
/// one: the library only carries values from where they are read to where
/// they are written.
#[verifier::external_type_specification]
#[verifier::external_body]
pub struct ExValue(serde_json::Value);

/// `serde_json::Error`, why a text could not be read or a value not be
/// written. Nothing is claimed of what is inside one.
#[verifier::external_type_specification]
#[verifier::external_body]
pub struct ExJsonError(serde_json::Error);

/// The value that `serde_json::from_str` reads from `text`, or `None` where
/// it rejects the text.
pub uninterp spec fn json_read(text: Seq<char>) -> Option<Value>;

/// The compact text that `serde_json::to_string` writes for `value`, or
/// `None` where it fails.
pub uninterp spec fn json_written(value: Value) -> Option<Seq<char>>;

/// Calls `serde_json::from_str`. The contract claims that the outcome is a
/// function of the text alone: the value read is `json_read` of the text, and
/// an error comes exactly where `json_read` is `None`.
#[verifier::external_body]
fn read_value(text: &str) -> (r: Result<Value, serde_json::Error>)
    ensures
        match r {
            Ok(value) => json_read(text@) == Some(value),
            Err(_) => json_read(text@) is None,
        },
{
    serde_json::from_str(text)
}

/// Calls `serde_json::to_string`. The contract claims that the outcome is a
/// function of the value alone: the text written is `json_written` of the
/// value, and an error comes exactly where `json_written` is `None`.
#[verifier::external_body]
fn write_value(value: &Value) -> (r: Result<String, serde_json::Error>)
    ensures
        match r {
            Ok(text) => json_written(*value) == Some(text@),
            Err(_) => json_written(*value) is None,
        },
{
    serde_json::to_string(value)
}

/// Reads a value from JSON text; `None` where the text is no JSON.
pub fn read_json(text: &str) -> (value: Option<Value>)
    ensures
        value == json_read(text@),
{
    match read_value(text) {
        Ok(value) => Some(value),
        Err(_) => None,
    }
}

/// Writes a value as compact JSON text; `None` where it cannot be written.
pub fn write_json(value: &Value) -> (text: Option<String>)
    ensures
        match text {
            Some(t) => json_written(*value) == Some(t@),
            None => json_written(*value) is None,
        },
{
    match write_value(value) {
        Ok(t) => Some(t),
        Err(_) => None,
    }
}

} // verus!
