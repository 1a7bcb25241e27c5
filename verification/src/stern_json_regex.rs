//! The patterns that find a timestamp in front of a log message.

use crate::pattern::{pattern_is_valid, regex_accepts};
use vstd::prelude::*;

verus! {

/// A timestamp with date, time and time zone, as in
/// `2021-08-26T21:52:09+02:00 message`.
pub const FULL_TIMESTAMP_AND_MESSAGE: &'static str =
    "^(?P<full_timestamp>(?P<year>\\d{4})-(?P<month>\\d{2})-(?P<day>\\d{2})T(?P<hour>\\d{2}):(?P<minute>\\d{2}):(?P<second>\\d{2})(?:\\.(?P<nanoseconds>\\d{1,9}))?(?P<tz_sign>[+-])(?P<tz_hour>\\d{2}):(?P<tz_minute>\\d{2})) ?(?P<message>.*)$";

/// A timestamp with month, day and time, as in `08-26 22:08:51 message`.
pub const SHORT_TIMESTAMP_AND_MESSAGE: &'static str =
    "^(?P<short_timestamp>\\d{2}-\\d{2} \\d{2}:\\d{2}:\\d{2}) ?(?P<message>.*)$";

/// A pattern that the `regex` crate does not accept.
#[derive(Debug, Clone, PartialEq, Eq)]
pub struct PatternError {
    pub pattern: String,
}

/// The two patterns for a timestamp in front of a message.
pub struct SternJSONRegEx {
    pub full_timestamp_and_message: String,
    pub short_timestamp_and_message: String,
}

impl SternJSONRegEx {
    /// The two patterns, once both are known to be accepted; else the first
    /// that is not.
    pub fn new() -> (res: Result<Self, PatternError>)
        ensures
            match res {
                Ok(regex) => {
                    &&& regex.full_timestamp_and_message@ == FULL_TIMESTAMP_AND_MESSAGE@
                    &&& regex.short_timestamp_and_message@ == SHORT_TIMESTAMP_AND_MESSAGE@
                    &&& regex_accepts(FULL_TIMESTAMP_AND_MESSAGE@)
                    &&& regex_accepts(SHORT_TIMESTAMP_AND_MESSAGE@)
                },
                Err(e) => if !regex_accepts(FULL_TIMESTAMP_AND_MESSAGE@) {
                    e.pattern@ == FULL_TIMESTAMP_AND_MESSAGE@
                } else {
                    !regex_accepts(SHORT_TIMESTAMP_AND_MESSAGE@) && e.pattern@
                        == SHORT_TIMESTAMP_AND_MESSAGE@
                },
            },
    {
        if !pattern_is_valid(FULL_TIMESTAMP_AND_MESSAGE) {
            return Err(PatternError { pattern: FULL_TIMESTAMP_AND_MESSAGE.to_owned() });
        }
        if !pattern_is_valid(SHORT_TIMESTAMP_AND_MESSAGE) {
            return Err(PatternError { pattern: SHORT_TIMESTAMP_AND_MESSAGE.to_owned() });
        }
        Ok(
            SternJSONRegEx {
                full_timestamp_and_message: FULL_TIMESTAMP_AND_MESSAGE.to_owned(),
                short_timestamp_and_message: SHORT_TIMESTAMP_AND_MESSAGE.to_owned(),
            },
        )
    }
}

} // verus!
