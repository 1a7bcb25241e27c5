//! The lines that are printed for a log entry.

use crate::json::{member_views, pretty_json, pretty_print, JsonFieldView, JsonObject};
use crate::message_regex::MessageRegEx;
use crate::pattern::{find_match, find_match_at, regex_found, regex_found_at};
use crate::replace::{replace_text, replaced};
use crate::search::{find_from, first_match};
use crate::table::trim_end_range;
use crate::text::{
    chars_of, push_char, push_range, text_eq, texts, trim, trim_end, trimmed_string,
};
use vstd::prelude::*;
use vstd::string::StringExecFns;
use vstd::utf8::encode_utf8;

verus! {

/// How many bytes the UTF-8 form of a text takes, as `str::len` counts them.
pub open spec fn byte_count(s: Seq<char>) -> usize {
    encode_utf8(s).len() as usize
}

/// `s` with `to` in the place of what the pattern finds first in it: of the
/// text that matched, and where that text first stands. None if the pattern
/// finds nothing.
pub open spec fn replaced_by_regex(s: Seq<char>, pattern: Seq<char>, to: Seq<char>) -> Option<
    Seq<char>,
> {
    match regex_found(pattern, s) {
        Some(found) => Some(replaced(s, found, to, Some(1usize))),
        None => None,
    }
}

/// `s` with `to` in the place of what the pattern finds first in it, as
/// `replaced_by_regex` tells.
pub fn replace_by_regex(s: &String, re: &str, to: &String) -> (res: Option<String>)
    ensures
        crate::json::texts_agree(res, replaced_by_regex(s@, re@, to@)),
{
    match find_match(re, s.as_str()) {
        Some(match_str) => Some(replace_text(s.as_str(), match_str.as_str(), to.as_str(), Some(1))),
        None => None,
    }
}

/// The three patterns of a `MessageRegEx`.
pub struct Patterns {
    pub start_timestamp_1: Seq<char>,
    pub start_timestamp_2: Seq<char>,
    pub mixed_object_1: Seq<char>,
}

impl View for MessageRegEx {
    type V = Patterns;

    open spec fn view(&self) -> Patterns {
        Patterns {
            start_timestamp_1: self.start_timestamp_1@,
            start_timestamp_2: self.start_timestamp_2@,
            mixed_object_1: self.mixed_object_1@,
        }
    }
}

/// The message without what the first start pattern finds, or else without
/// what the second finds, trimmed; none if neither finds anything.
pub open spec fn fixed_by_regex(message: Seq<char>, patterns: Patterns) -> Option<Seq<char>> {
    match replaced_by_regex(message, patterns.start_timestamp_1, Seq::empty()) {
        Some(fixed) => Some(trim(fixed)),
        None => match replaced_by_regex(message, patterns.start_timestamp_2, Seq::empty()) {
            Some(fixed) => Some(trim(fixed)),
            None => None,
        },
    }
}

/// Takes the timestamp and level off the front of a message, by one pattern
/// only: the first that finds something.
pub fn fix_up_message_by_regex(message: &String, message_regex: &MessageRegEx) -> (res: Option<
    String,
>)
    ensures
        crate::json::texts_agree(res, fixed_by_regex(message@, message_regex@)),
{
    let nothing = String::new();
    match replace_by_regex(message, message_regex.start_timestamp_1.as_str(), &nothing) {
        Some(fixed_str) => {
            return Some(trimmed_string(fixed_str.as_str()));
        },
        None => {},
    }
    match replace_by_regex(message, message_regex.start_timestamp_2.as_str(), &nothing) {
        Some(fixed_str) => {
            return Some(trimmed_string(fixed_str.as_str()));
        },
        None => {},
    }
    None
}

/// The object names a member: `":` or `':` stands in it.
pub open spec fn holds_key(object: Seq<char>) -> bool {
    first_match(object, "\":"@) >= 0 || first_match(object, "':"@) >= 0
}

/// One round of the search for objects to print prettily, from byte
/// `offset` on. None ends the search: the offset lies beyond the text or
/// the pattern finds nothing more. Else the text after the round, the
/// offset for the next one, and whether the text changed. An object is
/// passed over if it is `{}`, names no member, or is shorter than 64 bytes;
/// else every copy of it gives way to its pretty form if it has one.
pub open spec fn pretty_step(text: Seq<char>, offset: int, pattern: Seq<char>) -> Option<
    (Seq<char>, int, bool),
> {
    if offset > byte_count(text) {
        None
    } else {
        match regex_found_at(pattern, text, offset) {
            None => None,
            Some(found) => if found == "{}"@ {
                Some((text, offset + 2, false))
            } else if !holds_key(found) || byte_count(found) < 64 {
                Some((text, offset + byte_count(found), false))
            } else {
                match pretty_json(found) {
                    Some(pretty) => Some(
                        (replaced(text, found, pretty, None), offset + byte_count(pretty), true),
                    ),
                    None => Some((text, offset + byte_count(found), false)),
                }
            },
        }
    }
}

/// The text after at most `rounds` rounds of the search, and whether it
/// changed in any of them or before.
pub open spec fn pretty_rounds(
    text: Seq<char>,
    offset: int,
    fixed: bool,
    pattern: Seq<char>,
    rounds: nat,
) -> (Seq<char>, bool)
    decreases rounds,
{
    if rounds == 0 {
        (text, fixed)
    } else {
        match pretty_step(text, offset, pattern) {
            None => (text, fixed),
            Some((next, place, changed)) => pretty_rounds(
                next,
                place,
                fixed || changed,
                pattern,
                (rounds - 1) as nat,
            ),
        }
    }
}

/// The message with its objects printed prettily; none if no object was.
pub open spec fn prettied(message: Seq<char>, pattern: Seq<char>) -> Option<Seq<char>> {
    let (text, fixed) = pretty_rounds(message, 0, false, pattern, usize::MAX as nat);
    if fixed {
        Some(text)
    } else {
        None
    }
}

/// Whether `part` stands in `text`.
fn stands_in(text: &str, part: &str) -> (found: bool)
    ensures
        found == (first_match(text@, part@) >= 0),
{
    let v = chars_of(text);
    let pat = chars_of(part);
    assert(v@.skip(0) =~= v@);
    find_from(&v, &pat, 0).is_some()
}

/// Prints the objects in a message prettily: the search goes on from where
/// the last object was passed over or put in, for as many rounds as a
/// machine word counts.
pub fn _pretty_print_objects(message: &String, message_regex: &MessageRegEx) -> (res: Option<String>)
    ensures
        crate::json::texts_agree(res, prettied(message@, message_regex@.mixed_object_1)),
{
    let ghost pattern = message_regex@.mixed_object_1;
    let mut offset: usize = 0;
    let mut fixed = false;
    let mut message_clone = message.clone();
    let mut rounds: usize = usize::MAX;
    while rounds > 0
        invariant_except_break
            pretty_rounds(message@, 0, false, pattern, usize::MAX as nat) == pretty_rounds(
                message_clone@,
                offset as int,
                fixed,
                pattern,
                rounds as nat,
            ),
        invariant
            pattern == message_regex.mixed_object_1@,
        ensures
            pretty_rounds(message@, 0, false, pattern, usize::MAX as nat) == (
                message_clone@,
                fixed,
            ),
        decreases rounds,
    {
        if offset > message_clone.as_str().len() {
            break ;
        }
        let match_str = match find_match_at(
            message_regex.mixed_object_1.as_str(),
            message_clone.as_str(),
            offset,
        ) {
            Some(found) => found,
            None => {
                break ;
            },
        };
        let ghost before = message_clone@;
        let mut changed = false;
        let step: usize = if text_eq(match_str.as_str(), "{}") {
            2
        } else if !stands_in(match_str.as_str(), "\":") && !stands_in(match_str.as_str(), "':") {
            match_str.as_str().len()
        } else if match_str.as_str().len() < 64 {
            match_str.as_str().len()
        } else {
            match pretty_print(match_str.as_str()) {
                Some(fixed_str) => {
                    message_clone = replace_text(
                        message_clone.as_str(),
                        match_str.as_str(),
                        fixed_str.as_str(),
                        None,
                    );
                    changed = true;
                    fixed_str.as_str().len()
                },
                None => match_str.as_str().len(),
            }
        };
        proof {
            assert(pretty_step(before, offset as int, pattern) == Some(
                (message_clone@, offset + step, changed),
            ));
        }
        if changed {
            fixed = true;
        }
        rounds -= 1;
        match offset.checked_add(step) {
            Some(next) => {
                offset = next;
            },
            None => {
                proof {
                    lemma_search_ends(message_clone@, offset + step, fixed, pattern, rounds as nat);
                    lemma_search_ends(message_clone@, 0, fixed, pattern, 0);
                }
                offset = 0;
                rounds = 0;
            },
        }
    }
    if fixed {
        Some(message_clone)
    } else {
        None
    }
}

/// Beyond the end of the text the search finds nothing more, and with no
/// round left it does not look.
pub proof fn lemma_search_ends(text: Seq<char>, offset: int, fixed: bool, pattern: Seq<char>, rounds: nat)
    requires
        offset > usize::MAX || rounds == 0,
    ensures
        pretty_rounds(text, offset, fixed, pattern, rounds) == (text, fixed),
{
}

/// How messages are to be tidied and printed.
pub struct PrintOptions {
    /// Lines that hold no log entry are passed over.
    pub skip_invalid_messages: bool,
    /// An empty line follows every entry.
    pub blank_line_after_entry: bool,
    /// Only entries of these containers are printed.
    pub include_container: Option<Vec<String>>,
    /// Timestamps in front of messages are taken off.
    pub fix_up_messages: bool,
    /// Objects in messages are printed prettily.
    pub pretty_print_objects: bool,
    /// One blank stands after every message.
    pub space_after_message: bool,
}

/// `PrintOptions` as texts.
pub struct PrintOptionsView {
    pub skip_invalid_messages: bool,
    pub blank_line_after_entry: bool,
    pub include_container: Option<Seq<Seq<char>>>,
    pub fix_up_messages: bool,
    pub pretty_print_objects: bool,
    pub space_after_message: bool,
}

impl View for PrintOptions {
    type V = PrintOptionsView;

    open spec fn view(&self) -> PrintOptionsView {
        PrintOptionsView {
            skip_invalid_messages: self.skip_invalid_messages,
            blank_line_after_entry: self.blank_line_after_entry,
            include_container: match self.include_container {
                Some(list) => Some(texts(list@)),
                None => None,
            },
            fix_up_messages: self.fix_up_messages,
            pretty_print_objects: self.pretty_print_objects,
            space_after_message: self.space_after_message,
        }
    }
}

/// The message after the first tidying step, and whether it changed.
pub open spec fn after_fix_up(message: Seq<char>, fix_up: bool, patterns: Patterns) -> (
    Seq<char>,
    bool,
) {
    if fix_up {
        match fixed_by_regex(message, patterns) {
            Some(fixed) => (fixed, true),
            None => (message, false),
        }
    } else {
        (message, false)
    }
}

/// The message after the second tidying step, and whether it changed.
pub open spec fn after_pretty(message: Seq<char>, pretty: bool, patterns: Patterns) -> (
    Seq<char>,
    bool,
) {
    if pretty {
        match prettied(message, patterns.mixed_object_1) {
            Some(fixed) => (fixed, true),
            None => (message, false),
        }
    } else {
        (message, false)
    }
}

/// The tidied message: the timestamp taken off its front, its objects
/// printed prettily, and one blank put after it in the place of the white
/// space at its end, each as far as it is asked for. None if nothing was
/// asked for that changed the message.
pub open spec fn fixed_up(
    message: Seq<char>,
    fix_up: bool,
    pretty: bool,
    space_after: bool,
    patterns: Patterns,
) -> Option<Seq<char>> {
    let (first, changed_first) = after_fix_up(message, fix_up, patterns);
    let (second, changed_second) = after_pretty(first, pretty, patterns);
    if space_after {
        Some(trim_end(second).push(' '))
    } else if changed_first || changed_second {
        Some(second)
    } else {
        None
    }
}

/// The message as it is printed: tidied, or as it is if tidying changed
/// nothing.
pub open spec fn shown(
    message: Seq<char>,
    fix_up: bool,
    pretty: bool,
    space_after: bool,
    patterns: Patterns,
) -> Seq<char> {
    match fixed_up(message, fix_up, pretty, space_after, patterns) {
        Some(fixed) => fixed,
        None => message,
    }
}

/// Tidies a message, as `fixed_up` tells.
pub fn fix_up_message(
    message: &String,
    arg_fix_up_messages: bool,
    arg_pretty_print_objects: bool,
    arg_space_after_message: bool,
    message_regex: &MessageRegEx,
) -> (res: Option<String>)
    ensures
        crate::json::texts_agree(
            res,
            fixed_up(
                message@,
                arg_fix_up_messages,
                arg_pretty_print_objects,
                arg_space_after_message,
                message_regex@,
            ),
        ),
{
    let mut message_clone = message.clone();
    let mut changed = false;
    if arg_fix_up_messages {
        match fix_up_message_by_regex(&message_clone, message_regex) {
            Some(fixed_message) => {
                message_clone = fixed_message;
                changed = true;
            },
            None => {},
        }
    }
    if arg_pretty_print_objects {
        match _pretty_print_objects(&message_clone, message_regex) {
            Some(fixed_message) => {
                message_clone = fixed_message;
                changed = true;
            },
            None => {},
        }
    }
    if arg_space_after_message {
        let v = chars_of(message_clone.as_str());
        let end = trim_end_range(&v, 0, v.len());
        let mut spaced = String::new();
        push_range(&mut spaced, &v, 0, end);
        push_char(&mut spaced, ' ');
        proof {
            assert(v@.subrange(0, v@.len() as int) =~= v@);
            assert(spaced@ =~= trim_end(v@).push(' '));
        }
        message_clone = spaced;
        changed = true;
    }
    if changed {
        Some(message_clone)
    } else {
        None
    }
}

/// The message as it is printed.
pub fn show_message(message: &String, options: &PrintOptions, pretty: bool, message_regex: &MessageRegEx) -> (res:
    String)
    ensures
        res@ == shown(
            message@,
            options.fix_up_messages,
            pretty,
            options.space_after_message,
            message_regex@,
        ),
{
    match fix_up_message(
        message,
        options.fix_up_messages,
        pretty,
        options.space_after_message,
        message_regex,
    ) {
        Some(formatted_message) => formatted_message,
        None => message.clone(),
    }
}

/// The lines, and an empty one after them if that is asked for.
pub open spec fn with_blank(lines: Seq<Seq<char>>, blank: bool) -> Seq<Seq<char>> {
    if blank {
        lines.push(Seq::empty())
    } else {
        lines
    }
}

/// Adds the empty line after an entry if that is asked for.
fn end_entry(lines: &mut Vec<String>, blank: bool)
    ensures
        texts(final(lines)@) == with_blank(texts(old(lines)@), blank),
{
    if blank {
        let ghost before = texts(lines@);
        lines.push(String::new());
        assert(texts(lines@) =~= before.push(Seq::empty()));
    }
}

/// One line as a list of lines.
fn one_line(line: String) -> (lines: Vec<String>)
    ensures
        texts(lines@) == seq![line@],
{
    let mut lines: Vec<String> = Vec::new();
    lines.push(line);
    assert(texts(lines@) =~= seq![line@]);
    lines
}

/// The two texts put together.
fn glued(first: &String, second: &String) -> (both: String)
    ensures
        both@ == first@ + second@,
{
    let mut both = first.clone();
    both.append(second.as_str());
    both
}

/// The lines for a line of the log that holds no entry: the line itself,
/// tidied.
pub open spec fn raw_lines(message: Seq<char>, options: PrintOptionsView, patterns: Patterns) -> Seq<
    Seq<char>,
> {
    with_blank(
        seq![
            shown(
                message,
                options.fix_up_messages,
                options.pretty_print_objects,
                options.space_after_message,
                patterns,
            ),
        ],
        options.blank_line_after_entry,
    )
}

/// The lines for a line of the log that holds no entry.
pub fn print_raw_message(message: &String, options: &PrintOptions, message_regex: &MessageRegEx) -> (lines:
    Vec<String>)
    ensures
        texts(lines@) == raw_lines(message@, options@, message_regex@),
{
    let mut lines = one_line(
        show_message(message, options, options.pretty_print_objects, message_regex),
    );
    end_entry(&mut lines, options.blank_line_after_entry);
    lines
}

/// The lines for an entry whose message is an object of no known kind: the
/// head of the entry and the object as it is written for debugging.
pub open spec fn internal_lines(basics: Seq<char>, debug: Seq<char>, blank: bool) -> Seq<Seq<char>> {
    with_blank(seq![basics + debug], blank)
}

/// The lines for an entry whose message is an object of no known kind.
pub fn print_internal_json_message(
    basics: &String,
    internal_json_message: &JsonObject,
    arg_blank_line_after_entry: bool,
) -> (lines: Vec<String>)
    ensures
        texts(lines@) == internal_lines(
            basics@,
            internal_json_message.debug@,
            arg_blank_line_after_entry,
        ),
{
    let mut lines = one_line(glued(basics, &internal_json_message.debug));
    end_entry(&mut lines, arg_blank_line_after_entry);
    lines
}

/// The lines for an entry with a plain message: the head of the entry and
/// the message, tidied.
pub open spec fn message_lines(
    basics: Seq<char>,
    message: Seq<char>,
    options: PrintOptionsView,
    patterns: Patterns,
) -> Seq<Seq<char>> {
    with_blank(
        seq![
            basics + shown(
                message,
                options.fix_up_messages,
                options.pretty_print_objects,
                options.space_after_message,
                patterns,
            ),
        ],
        options.blank_line_after_entry,
    )
}

/// The lines for an entry with a plain message.
pub fn print_message(
    basics: &String,
    message: &String,
    options: &PrintOptions,
    message_regex: &MessageRegEx,
) -> (lines: Vec<String>)
    ensures
        texts(lines@) == message_lines(basics@, message@, options@, message_regex@),
{
    let text = show_message(message, options, options.pretty_print_objects, message_regex);
    let mut lines = one_line(glued(basics, &text));
    end_entry(&mut lines, options.blank_line_after_entry);
    lines
}

/// What is put after a line for the request it belongs to.
pub open spec fn request_note(request_id: Option<Seq<char>>) -> Seq<char> {
    match request_id {
        Some(id) => "    (request_id: "@ + id + ")"@,
        None => Seq::empty(),
    }
}

/// The text of a member that is a string.
pub open spec fn text_at(members: Map<Seq<char>, JsonFieldView>, key: Seq<char>) -> Option<Seq<char>> {
    if members.dom().contains(key) {
        members[key].text
    } else {
        None
    }
}

/// The text of a member that is a string.
fn member_string<'a>(object: &'a JsonObject, key: &str) -> (text: Option<&'a String>)
    ensures
        match text {
            Some(t) => text_at(member_views(object.members@), key@) == Some(t@),
            None => text_at(member_views(object.members@), key@) is None,
        },
{
    match object.members.get(key) {
        Some(field) => match &field.text {
            Some(t) => Some(t),
            None => None,
        },
        None => None,
    }
}

/// Puts the note of the request after a line.
fn note_request(line: &mut String, request_id: &Option<String>)
    ensures
        final(line)@ == old(line)@ + request_note(crate::command_streamer::command_streamer::text_of(
            *request_id,
        )),
{
    match request_id {
        Some(id) => {
            let ghost before = line@;
            line.append("    (request_id: ");
            line.append(id.as_str());
            line.append(")");
            assert(line@ =~= before + ("    (request_id: "@ + id@ + ")"@));
        },
        None => {
            assert(line@ + Seq::<char>::empty() =~= line@);
        },
    }
}

/// The lines for an entry whose message is an object with the trace of an
/// exception: the trace, tidied but not printed prettily, and then the
/// message, tidied, each after the head of the entry and before the note of
/// the request. None if the trace or the message is no string.
pub open spec fn exc_info_lines(
    basics: Seq<char>,
    request_id: Option<Seq<char>>,
    members: Map<Seq<char>, JsonFieldView>,
    options: PrintOptionsView,
    patterns: Patterns,
) -> Option<Seq<Seq<char>>> {
    match (text_at(members, "exc_info"@), text_at(members, "message"@)) {
        (Some(exc_info), Some(message)) => Some(
            with_blank(
                seq![
                    basics + shown(
                        exc_info,
                        options.fix_up_messages,
                        false,
                        options.space_after_message,
                        patterns,
                    ) + request_note(request_id),
                    basics + shown(
                        message,
                        options.fix_up_messages,
                        options.pretty_print_objects,
                        options.space_after_message,
                        patterns,
                    ) + request_note(request_id),
                ],
                options.blank_line_after_entry,
            ),
        ),
        _ => None,
    }
}

/// The lines for an entry whose message is an object with the trace of an
/// exception.
pub fn print_json_exc_info_message(
    basics: &String,
    request_id: &Option<String>,
    internal_json_message: &JsonObject,
    options: &PrintOptions,
    message_regex: &MessageRegEx,
) -> (res: Option<Vec<String>>)
    ensures
        match exc_info_lines(
            basics@,
            crate::command_streamer::command_streamer::text_of(*request_id),
            member_views(internal_json_message.members@),
            options@,
            message_regex@,
        ) {
            Some(lines) => res matches Some(list) && texts(list@) == lines,
            None => res is None,
        },
{
    let exc_info = match member_string(internal_json_message, "exc_info") {
        Some(text) => text,
        None => {
            return None;
        },
    };
    let message = match member_string(internal_json_message, "message") {
        Some(text) => text,
        None => {
            return None;
        },
    };
    let exc_info = show_message(exc_info, options, false, message_regex);
    let message = show_message(message, options, options.pretty_print_objects, message_regex);
    let mut line0 = glued(basics, &exc_info);
    let mut line1 = glued(basics, &message);
    note_request(&mut line0, request_id);
    note_request(&mut line1, request_id);
    let mut lines = one_line(line0);
    let ghost first = texts(lines@);
    lines.push(line1);
    assert(texts(lines@) =~= first.push(line1@));
    end_entry(&mut lines, options.blank_line_after_entry);
    Some(lines)
}

/// The lines for an entry whose message is an object with a message: the
/// head of the entry and the message, tidied. None if the message is no
/// string.
pub open spec fn json_message_lines(
    basics: Seq<char>,
    members: Map<Seq<char>, JsonFieldView>,
    options: PrintOptionsView,
    patterns: Patterns,
) -> Option<Seq<Seq<char>>> {
    match text_at(members, "message"@) {
        Some(message) => Some(message_lines(basics, message, options, patterns)),
        None => None,
    }
}

/// The lines for an entry whose message is an object with a message.
pub fn print_json_message(
    basics: &String,
    internal_json_message: &JsonObject,
    options: &PrintOptions,
    message_regex: &MessageRegEx,
) -> (res: Option<Vec<String>>)
    ensures
        match json_message_lines(
            basics@,
            member_views(internal_json_message.members@),
            options@,
            message_regex@,
        ) {
            Some(lines) => res matches Some(list) && texts(list@) == lines,
            None => res is None,
        },
{
    match member_string(internal_json_message, "message") {
        Some(message) => Some(print_message(basics, message, options, message_regex)),
        None => None,
    }
}

/// The members of the record of a request that a proxy served.
pub struct ProxyRecord {
    pub downstream_local_address: Seq<char>,
    pub method: Seq<char>,
    pub path: Seq<char>,
    pub protocol: Seq<char>,
    pub response_code: Seq<char>,
    pub bytes_sent: Seq<char>,
    pub bytes_received: Seq<char>,
    pub duration: Seq<char>,
    pub upstream_service_time: Seq<char>,
}

/// The record of a request in the object, if all its members are strings.
pub open spec fn proxy_record(members: Map<Seq<char>, JsonFieldView>) -> Option<ProxyRecord> {
    match (
        text_at(members, "downstream_local_address"@),
        text_at(members, "method"@),
        text_at(members, "path"@),
        text_at(members, "protocol"@),
        text_at(members, "response_code"@),
        text_at(members, "bytes_sent"@),
        text_at(members, "bytes_received"@),
        text_at(members, "duration"@),
        text_at(members, "upstream_service_time"@),
    ) {
        (
            Some(downstream_local_address),
            Some(method),
            Some(path),
            Some(protocol),
            Some(response_code),
            Some(bytes_sent),
            Some(bytes_received),
            Some(duration),
            Some(upstream_service_time),
        ) => Some(
            ProxyRecord {
                downstream_local_address,
                method,
                path,
                protocol,
                response_code,
                bytes_sent,
                bytes_received,
                duration,
                upstream_service_time,
            },
        ),
        _ => None,
    }
}

/// The line for the record of a request.
pub open spec fn proxy_line(basics: Seq<char>, r: ProxyRecord, request_id: Option<Seq<char>>) -> Seq<
    char,
> {
    basics + r.downstream_local_address + " \""@ + r.method + " "@ + r.path + " "@ + r.protocol
        + "\" "@ + r.response_code + ", "@ + r.bytes_sent + " "@ + r.bytes_received + ", "@
        + r.duration + " "@ + r.upstream_service_time + request_note(request_id)
}

/// The lines for an entry whose message is the record of a request that a
/// proxy served. None if a member of the record is missing or no string.
pub open spec fn proxy_lines(
    basics: Seq<char>,
    request_id: Option<Seq<char>>,
    members: Map<Seq<char>, JsonFieldView>,
    blank: bool,
) -> Option<Seq<Seq<char>>> {
    match proxy_record(members) {
        Some(record) => Some(with_blank(seq![proxy_line(basics, record, request_id)], blank)),
        None => None,
    }
}

/// The lines for an entry whose message is the record of a request that a
/// proxy served.
pub fn print_json_proxy(
    basics: &String,
    request_id: &Option<String>,
    internal_json_message: &JsonObject,
    arg_blank_line_after_entry: bool,
) -> (res: Option<Vec<String>>)
    ensures
        match proxy_lines(
            basics@,
            crate::command_streamer::command_streamer::text_of(*request_id),
            member_views(internal_json_message.members@),
            arg_blank_line_after_entry,
        ) {
            Some(lines) => res matches Some(list) && texts(list@) == lines,
            None => res is None,
        },
{
    let downstream_local_address = match member_string(
        internal_json_message,
        "downstream_local_address",
    ) {
        Some(text) => text,
        None => {
            return None;
        },
    };
    let method = match member_string(internal_json_message, "method") {
        Some(text) => text,
        None => {
            return None;
        },
    };
    let path = match member_string(internal_json_message, "path") {
        Some(text) => text,
        None => {
            return None;
        },
    };
    let protocol = match member_string(internal_json_message, "protocol") {
        Some(text) => text,
        None => {
            return None;
        },
    };
    let response_code = match member_string(internal_json_message, "response_code") {
        Some(text) => text,
        None => {
            return None;
        },
    };
    let bytes_sent = match member_string(internal_json_message, "bytes_sent") {
        Some(text) => text,
        None => {
            return None;
        },
    };
    let bytes_received = match member_string(internal_json_message, "bytes_received") {
        Some(text) => text,
        None => {
            return None;
        },
    };
    let duration = match member_string(internal_json_message, "duration") {
        Some(text) => text,
        None => {
            return None;
        },
    };
    let upstream_service_time = match member_string(
        internal_json_message,
        "upstream_service_time",
    ) {
        Some(text) => text,
        None => {
            return None;
        },
    };
    let mut line0 = basics.clone();
    line0.append(downstream_local_address.as_str());
    line0.append(" \"");
    line0.append(method.as_str());
    line0.append(" ");
    line0.append(path.as_str());
    line0.append(" ");
    line0.append(protocol.as_str());
    line0.append("\" ");
    line0.append(response_code.as_str());
    line0.append(", ");
    line0.append(bytes_sent.as_str());
    line0.append(" ");
    line0.append(bytes_received.as_str());
    line0.append(", ");
    line0.append(duration.as_str());
    line0.append(" ");
    line0.append(upstream_service_time.as_str());
    note_request(&mut line0, request_id);
    let mut lines = one_line(line0);
    end_entry(&mut lines, arg_blank_line_after_entry);
    Some(lines)
}

} // verus!
