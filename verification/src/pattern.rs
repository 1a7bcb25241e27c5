//! Regular expressions, given as their source text and matched by the
//! `regex` crate.

use crate::search::first_match;
use vstd::prelude::*;

verus! {

/// Whether `Regex::new` accepts the pattern.
pub uninterp spec fn regex_accepts(pattern: Seq<char>) -> bool;

/// The text of the leftmost match of the pattern in `text`, as `Regex::find`
/// gives it; none if there is no match or the pattern is not accepted.
pub uninterp spec fn regex_found(pattern: Seq<char>, text: Seq<char>) -> Option<Seq<char>>;

/// The text of the leftmost match of the pattern in `text` that begins at
/// byte `start` or later, as `Regex::find_at` gives it; none if there is no
/// match or the pattern is not accepted.
pub uninterp spec fn regex_found_at(pattern: Seq<char>, text: Seq<char>, start: int) -> Option<
    Seq<char>,
>;

/// The texts of the two named groups of the leftmost match of the pattern
/// in `text`, as `Regex::captures` gives them; none if there is no match,
/// if one of the groups took no part in it, or if the pattern is not
/// accepted.
pub uninterp spec fn regex_captured(
    pattern: Seq<char>,
    text: Seq<char>,
    first: Seq<char>,
    second: Seq<char>,
) -> Option<(Seq<char>, Seq<char>)>;

/// `Regex::new` compiles a pattern or refuses it; which of the two depends
/// on the pattern alone.
#[verifier::external_body]
pub(crate) fn pattern_is_valid(pattern: &str) -> (valid: bool)
    ensures
        valid == regex_accepts(pattern@),
{
    regex::Regex::new(pattern).is_ok()
}

/// `Regex::find` returns the leftmost match in the haystack, and
/// `Match::as_str` the part of the haystack that matched: so a text that is
/// found stands in the haystack.
#[verifier::external_body]
pub(crate) fn find_match(pattern: &str, text: &str) -> (found: Option<String>)
    ensures
        crate::json::texts_agree(found, regex_found(pattern@, text@)),
        found matches Some(part) ==> first_match(text@, part@) >= 0,
{
    regex::Regex::new(pattern).ok()?.find(text).map(|m| m.as_str().to_string())
}

/// `Regex::find_at` is `Regex::find` with the search begun at a byte offset;
/// it panics when the offset lies beyond the end of the haystack.
#[verifier::external_body]
pub(crate) fn find_match_at(pattern: &str, text: &str, start: usize) -> (found: Option<String>)
    requires
        start <= text.len(),
    ensures
        crate::json::texts_agree(found, regex_found_at(pattern@, text@, start as int)),
        found matches Some(part) ==> first_match(text@, part@) >= 0,
{
    regex::Regex::new(pattern).ok()?.find_at(text, start).map(|m| m.as_str().to_string())
}

/// `Regex::captures` returns the groups of the leftmost match, and
/// `Captures::name` the match of a named group if that group took part.
#[verifier::external_body]
pub(crate) fn capture_pair(pattern: &str, text: &str, first: &str, second: &str) -> (pair: Option<
    (String, String),
>)
    ensures
        match pair {
            Some((a, b)) => regex_captured(pattern@, text@, first@, second@) == Some((a@, b@)),
            None => regex_captured(pattern@, text@, first@, second@) is None,
        },
{
    let groups = regex::Regex::new(pattern).ok()?.captures(text)?;
    Some((groups.name(first)?.as_str().to_string(), groups.name(second)?.as_str().to_string()))
}

} // verus!
