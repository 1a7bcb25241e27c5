//! The patterns by which log messages are tidied.

use crate::pattern::{pattern_is_valid, regex_accepts};
use crate::stern_json_regex::PatternError;
use vstd::prelude::*;

verus! {

/// A timestamp, a level and a place in front of a message, as in
/// `20250902140313.122[ERR][service.views, function (file.py:618)][NULL]: message`.
pub const START_TIMESTAMP_1: &'static str = "^(\\d{14}\\.?\\d{0,3}\\[[A-Z]+\\]\\[.*?\\]\\[[A-Z]+\\]:\\s+)";

/// A date, a time and a level in front of a message, as in
/// `2025-09-02 12:58:52.123 INFO [140358121944832] message`.
pub const START_TIMESTAMP_2: &'static str =
    "^(\\d{4}-\\d{2}-\\d{2} \\d{2}:\\d{2}:\\d{2}\\.?\\d{0,3} [A-Z]+\\s+)";

/// An object in braces that holds no braces itself. The group `(?R)` sets
/// a flag for line ends and matches nothing.
pub const MIXED_OBJECT_1: &'static str = "\\{(?:[^{}]|(?R))*\\}";

/// The three patterns by which messages are tidied.
pub struct MessageRegEx {
    pub start_timestamp_1: String,
    pub start_timestamp_2: String,
    pub mixed_object_1: String,
}

impl MessageRegEx {
    /// The three patterns, once all are known to be accepted; else the
    /// first that is not.
    pub fn new() -> (res: Result<Self, PatternError>)
        ensures
            match res {
                Ok(regex) => {
                    &&& regex.start_timestamp_1@ == START_TIMESTAMP_1@
                    &&& regex.start_timestamp_2@ == START_TIMESTAMP_2@
                    &&& regex.mixed_object_1@ == MIXED_OBJECT_1@
                    &&& regex_accepts(START_TIMESTAMP_1@)
                    &&& regex_accepts(START_TIMESTAMP_2@)
                    &&& regex_accepts(MIXED_OBJECT_1@)
                },
                Err(e) => if !regex_accepts(START_TIMESTAMP_1@) {
                    e.pattern@ == START_TIMESTAMP_1@
                } else if !regex_accepts(START_TIMESTAMP_2@) {
                    e.pattern@ == START_TIMESTAMP_2@
                } else {
                    !regex_accepts(MIXED_OBJECT_1@) && e.pattern@ == MIXED_OBJECT_1@
                },
            },
    {
        if !pattern_is_valid(START_TIMESTAMP_1) {
            return Err(PatternError { pattern: START_TIMESTAMP_1.to_owned() });
        }
        if !pattern_is_valid(START_TIMESTAMP_2) {
            return Err(PatternError { pattern: START_TIMESTAMP_2.to_owned() });
        }
        if !pattern_is_valid(MIXED_OBJECT_1) {
            return Err(PatternError { pattern: MIXED_OBJECT_1.to_owned() });
        }
        Ok(
            MessageRegEx {
                start_timestamp_1: START_TIMESTAMP_1.to_owned(),
                start_timestamp_2: START_TIMESTAMP_2.to_owned(),
                mixed_object_1: MIXED_OBJECT_1.to_owned(),
            },
        )
    }
}

} // verus!
