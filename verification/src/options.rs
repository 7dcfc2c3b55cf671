//! The options of the bot and the check of what is given for them.

use vstd::prelude::*;
use crate::text::{parse_u32, spec_parse_u32};

verus! {

/// The path of the database where none is given.
pub const DEFAULT_DATABASE: &'static str = "./rssbot.json";

/// The shortest polling interval in seconds where none is given.
pub const DEFAULT_MIN_INTERVAL: u32 = 300;

/// The longest polling interval in seconds where none is given.
pub const DEFAULT_MAX_INTERVAL: u32 = 43200;

/// The largest feed in bytes where no limit is given; zero is no limit.
pub const DEFAULT_MAX_FEED_SIZE: u64 = 2097152;

/// The address of the messaging service where none is given.
pub const DEFAULT_API_URI: &'static str = "https://api.telegram.org/";

/// Why a text is no interval.
#[derive(Debug, Clone, Copy, PartialEq, Eq)]
pub enum IntervalError {
    /// The text is no number of 32 bits.
    NotANumber,
    /// The number is below one.
    TooSmall,
}

impl IntervalError {
    /// What is said to the user.
    pub fn message(&self) -> (text: &'static str)
        ensures
            text@ == (match self {
                IntervalError::NotANumber => "invalid number"@,
                IntervalError::TooSmall => "must >= 1"@,
            }),
    {
        match self {
            IntervalError::NotANumber => "invalid number",
            IntervalError::TooSmall => "must >= 1",
        }
    }
}

/// What the check of an interval says of a text: it is a number of at
/// least one second, or it is not.
pub open spec fn spec_check_interval(s: Seq<char>) -> Result<(), IntervalError> {
    match spec_parse_u32(s) {
        None => Err(IntervalError::NotANumber),
        Some(n) => if n < 1 {
            Err(IntervalError::TooSmall)
        } else {
            Ok(())
        },
    }
}

/// Checks that a text gives an interval: a number of seconds, at least one.
pub fn check_interval(s: &str) -> (r: Result<(), IntervalError>)
    ensures
        r == spec_check_interval(s@),
{
    match parse_u32(s) {
        None => Err(IntervalError::NotANumber),
        Some(n) => if n < 1 {
            Err(IntervalError::TooSmall)
        } else {
            Ok(())
        },
    }
}

} // verus!
