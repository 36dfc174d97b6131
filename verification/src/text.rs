//! Text as it comes from the caller: UTF-16 code units.

use std::string::FromUtf16Error;
use vstd::prelude::*;

verus! {

/// `std::string::FromUtf16Error`, which says that code units were no valid
/// UTF-16. Nothing is claimed of what is inside one.
#[verifier::external_type_specification]
#[verifier::external_body]
pub struct ExFromUtf16Error(FromUtf16Error);

/// The text that `String::from_utf16` decodes from `units`, or `None` where
/// the units are no valid UTF-16.
pub uninterp spec fn utf16_text(units: Seq<u16>) -> Option<Seq<char>>;

/// Calls `String::from_utf16`. The contract claims that the outcome is a
/// function of the units alone: the text decoded is `utf16_text` of the
/// units, and an error comes exactly where `utf16_text` is `None`.
#[verifier::external_body]
fn from_utf16(units: &[u16]) -> (r: Result<String, FromUtf16Error>)
    ensures
        match r {
            Ok(text) => utf16_text(units@) == Some(text@),
            Err(_) => utf16_text(units@) is None,
        },
{
    String::from_utf16(units)
}

/// Decodes UTF-16 code units; `None` where they are no valid UTF-16.
pub fn decode_utf16(units: &[u16]) -> (text: Option<String>)
    ensures
        match text {
            Some(t) => utf16_text(units@) == Some(t@),
            None => utf16_text(units@) is None,
        },
{
    match from_utf16(units) {
        Ok(text) => Some(text),
        Err(_) => None,
    }
}

} // verus!
