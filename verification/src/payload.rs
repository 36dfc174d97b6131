//! The JSON texts that the service hands to its caller.

use crate::decimal::{decimal, push_decimal};
use crate::json::{json_written, write_json};
use serde_json::Value;
use vstd::prelude::*;
use vstd::string::*;

verus! {

/// What the service can tell its caller.
#[derive(Debug)]
pub enum Payload {
    /// The final answer of a query that resolved at once.
    Results { results: Value },
    /// The key under which the answers of a query will be delivered.
    Pending { pending: i32 },
    /// One answer of a pending query.
    Next { next: Value, subscription: i32 },
}

/// `{"results":<value>}`
pub open spec fn results_text(value: Seq<char>) -> Seq<char> {
    "{\"results\":"@ + value + "}"@
}

/// `{"pending":<key>}`
pub open spec fn pending_text(key: i32) -> Seq<char> {
    "{\"pending\":"@ + decimal(key as int) + "}"@
}

/// `{"next":<value>,"subscription":<key>}`
pub open spec fn next_text(value: Seq<char>, key: i32) -> Seq<char> {
    "{\"next\":"@ + value + ",\"subscription\":"@ + decimal(key as int) + "}"@
}

impl Payload {
    /// The text of the payload, or `None` where a value in it cannot be
    /// written.
    pub open spec fn text(self) -> Option<Seq<char>> {
        match self {
            Payload::Results { results } => match json_written(results) {
                Some(value) => Some(results_text(value)),
                None => None,
            },
            Payload::Pending { pending } => Some(pending_text(pending)),
            Payload::Next { next, subscription } => match json_written(next) {
                Some(value) => Some(next_text(value, subscription)),
                None => None,
            },
        }
    }
}

/// Wraps the text of a value as the answer of a query that resolved at once.
pub fn frame_results(value: &str) -> (text: String)
    ensures
        text@ == results_text(value@),
{
    let mut text = String::new();
    text.append("{\"results\":");
    text.append(value);
    text.append("}");
    assert(text@ =~= results_text(value@));
    text
}

/// The text that announces the key of a pending query.
pub fn frame_pending(key: i32) -> (text: String)
    ensures
        text@ == pending_text(key),
{
    let mut text = String::new();
    text.append("{\"pending\":");
    push_decimal(&mut text, key);
    text.append("}");
    assert(text@ =~= pending_text(key));
    text
}

/// Wraps the text of a value as one answer of the pending query `key`.
pub fn frame_next(value: &str, key: i32) -> (text: String)
    ensures
        text@ == next_text(value@, key),
{
    let mut text = String::new();
    text.append("{\"next\":");
    text.append(value);
    text.append(",\"subscription\":");
    push_decimal(&mut text, key);
    text.append("}");
    assert(text@ =~= next_text(value@, key));
    text
}

/// Writes a payload as JSON text. A payload whose value cannot be written
/// gives `None`: the caller never sees a partial text.
pub fn serialize_results(payload: &Payload) -> (text: Option<String>)
    ensures
        match text {
            Some(t) => payload.text() == Some(t@),
            None => payload.text() is None,
        },
{
    match payload {
        Payload::Results { results } => match write_json(results) {
            Some(value) => Some(frame_results(value.as_str())),
            None => None,
        },
        Payload::Pending { pending } => Some(frame_pending(*pending)),
        Payload::Next { next, subscription } => match write_json(next) {
            Some(value) => Some(frame_next(value.as_str(), *subscription)),
            None => None,
        },
    }
}

} // verus!
