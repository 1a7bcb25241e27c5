//! The local date and time as text.

use std::fmt::Write;
use vstd::prelude::*;
use vstd::string::StringExecFns;

verus! {

/// Whether a date and time with its offset can be written by the format,
/// as `DateTime::format` writes it: whether the format holds nothing but
/// text and escape sequences of `strftime` kind.
pub uninterp spec fn time_format_accepted(format: Seq<char>) -> bool;

/// `Local::now` reads the clock and `DateTime::format` writes the time by a
/// format of `strftime` kind. Writing fails only where the format holds
/// what is no escape sequence, so whether there is a text depends on the
/// format alone; what the text is depends on the clock, and nothing is
/// claimed of it.
#[verifier::external_body]
pub(crate) fn local_time_text(format: &str) -> (text: Option<String>)
    ensures
        text is Some <==> time_format_accepted(format@),
{
    let mut text = String::new();
    write!(text, "{}", chrono::Local::now().format(format)).ok().map(|_| text)
}

/// The format that writes year, month, day, hour, minute and second with
/// the separators between them.
pub open spec fn datetime_format(
    date_separator: Seq<char>,
    time_date_separator: Seq<char>,
    time_separator: Seq<char>,
) -> Seq<char> {
    "%Y"@ + date_separator + "%m"@ + date_separator + "%d"@ + time_date_separator + "%H"@
        + time_separator + "%M"@ + time_separator + "%S"@
}

/// The format for the date and time with the separators given.
pub fn datetime_format_string(
    date_separator: &String,
    time_date_separator: &String,
    time_separator: &String,
) -> (format: String)
    ensures
        format@ == datetime_format(date_separator@, time_date_separator@, time_separator@),
{
    let mut format = "%Y".to_owned();
    format.append(date_separator.as_str());
    format.append("%m");
    format.append(date_separator.as_str());
    format.append("%d");
    format.append(time_date_separator.as_str());
    format.append("%H");
    format.append(time_separator.as_str());
    format.append("%M");
    format.append(time_separator.as_str());
    format.append("%S");
    format
}

/// The local date and time, written as year, month, day, hour, minute and
/// second with the separators between them, by the format that
/// `datetime_format` gives; none exactly where the separators make a format
/// that cannot be written.
pub fn current_datetime_string(
    date_separator: &String,
    time_date_separator: &String,
    time_separator: &String,
) -> (now: Option<String>)
    ensures
        now is Some <==> time_format_accepted(
            datetime_format(date_separator@, time_date_separator@, time_separator@),
        ),
{
    let format = datetime_format_string(date_separator, time_date_separator, time_separator);
    local_time_text(format.as_str())
}

} // verus!
