//! The ways in which a request to the messaging service fails.

use vstd::prelude::*;
use crate::telebot::objects::ResponseParameters;

verus! {

/// A failed request.
#[derive(Debug, Clone, PartialEq, Eq)]
pub enum Error {
    /// The answer could not be decoded as text.
    Utf8Decode,
    /// The service refused the request: its code, its description, and how
    /// to go on.
    Telegram(u32, String, Option<ResponseParameters>),
    /// The transport failed; what it said.
    TokioCurl(String),
    /// The answer was not the JSON that was expected; what the decoder said.
    Json(String),
    /// Anything else.
    Unknown,
}

} // verus!
