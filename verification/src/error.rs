//! The errors that a request can end in.

use vstd::prelude::*;

verus! {

/// Why a request failed.
#[derive(Clone, Copy, Debug, PartialEq, Eq, Structural)]
pub enum ServiceError {
    /// The request itself is at fault: a text that is no valid UTF-16, no
    /// callback, or a query that the engine does not accept.
    InvalidArgument,
    /// Something failed on the way to an answer: the subscription could not
    /// be armed, the value that was announced could not be received, read or
    /// written, or no key is left to give.
    InternalError,
}

} // verus!
