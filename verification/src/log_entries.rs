//! A batch of log entries turned into the lines to print, and counted.

use crate::arg_parser::texts_have;
use crate::json::{member_views, JsonFieldView, JsonObject};
use crate::message::{
    exc_info_lines, internal_lines, json_message_lines, message_lines, print_internal_json_message,
    print_json_exc_info_message, print_json_message, print_json_proxy, print_message,
    print_raw_message, proxy_lines, raw_lines, Patterns, PrintOptions, PrintOptionsView,
};
use crate::message_regex::MessageRegEx;
use crate::stats::Stats;
use crate::stern_json::{SternJSON, SternJSONView};
use crate::text::texts;
use vstd::prelude::*;
use vstd::string::StringExecFns;

verus! {

/// The head of the lines of an entry: where it comes from and when.
pub open spec fn basics_of(context: Seq<char>, entry: SternJSONView) -> Seq<char> {
    context + " "@ + entry.pod_name + " "@ + entry.container_name + " "@ + entry.timestamp
        + "    "@
}

/// The request that an object belongs to, written as JSON, if it names one.
pub open spec fn request_id_of(members: Map<Seq<char>, JsonFieldView>) -> Option<Seq<char>> {
    if members.dom().contains("request_id"@) {
        Some(members["request_id"@].display)
    } else {
        None
    }
}

/// The object has all the members of the record of a request that a proxy
/// served.
pub open spec fn has_proxy_members(members: Map<Seq<char>, JsonFieldView>) -> bool {
    &&& members.dom().contains("downstream_local_address"@)
    &&& members.dom().contains("method"@)
    &&& members.dom().contains("path"@)
    &&& members.dom().contains("protocol"@)
    &&& members.dom().contains("response_code"@)
    &&& members.dom().contains("bytes_sent"@)
    &&& members.dom().contains("bytes_received"@)
    &&& members.dom().contains("duration"@)
    &&& members.dom().contains("upstream_service_time"@)
}

/// The text that `{:?}` made of the object in the message of an entry.
pub open spec fn debug_of(entry: SternJSON) -> Seq<char> {
    match entry.internal_json_message {
        Some(object) => object.debug@,
        None => Seq::empty(),
    }
}

/// The lines for an entry that is printed. A message that is an object is
/// printed by its kind: with the trace of an exception, with a message, as
/// the record of a request, or, where it is of none of these kinds or does
/// not hold what its kind needs, as it is written for debugging.
pub open spec fn entry_lines(
    context: Seq<char>,
    entry: SternJSONView,
    debug: Seq<char>,
    options: PrintOptionsView,
    patterns: Patterns,
) -> Seq<Seq<char>> {
    let basics = basics_of(context, entry);
    let blank = options.blank_line_after_entry;
    match entry.internal_json_message {
        Some(members) => {
            let request_id = request_id_of(members);
            let plain = internal_lines(basics, debug, blank);
            let by_kind = if members.dom().contains("exc_info"@) && members.dom().contains(
                "message"@,
            ) {
                exc_info_lines(basics, request_id, members, options, patterns)
            } else if members.dom().contains("message"@) {
                json_message_lines(basics, members, options, patterns)
            } else if has_proxy_members(members) {
                proxy_lines(basics, request_id, members, blank)
            } else {
                None
            };
            match by_kind {
                Some(lines) => lines,
                None => plain,
            }
        },
        None => message_lines(basics, entry.message, options, patterns),
    }
}

/// The entry is of a container that is not asked for.
pub open spec fn is_filtered(entry: SternJSONView, options: PrintOptionsView) -> bool {
    &&& entry.is_valid
    &&& options.include_container matches Some(list)
    &&& !list.contains(entry.container_name)
}

/// The entry is printed: it is a log entry of a container that is asked
/// for, or a line that holds no entry while such lines are not passed over.
pub open spec fn is_printed(entry: SternJSONView, options: PrintOptionsView) -> bool {
    if entry.is_valid {
        !is_filtered(entry, options)
    } else {
        !options.skip_invalid_messages
    }
}

/// The lines for one entry: none if it is not printed.
pub open spec fn lines_for(
    context: Seq<char>,
    entry: SternJSON,
    options: PrintOptionsView,
    patterns: Patterns,
) -> Seq<Seq<char>> {
    if !is_printed(entry@, options) {
        Seq::empty()
    } else if entry.is_valid {
        entry_lines(context, entry@, debug_of(entry), options, patterns)
    } else {
        raw_lines(entry.raw@, options, patterns)
    }
}

/// The lines for a batch of entries, in order.
pub open spec fn all_lines(
    context: Seq<char>,
    entries: Seq<SternJSON>,
    options: PrintOptionsView,
    patterns: Patterns,
) -> Seq<Seq<char>>
    decreases entries.len(),
{
    if entries.len() == 0 {
        Seq::empty()
    } else {
        all_lines(context, entries.drop_last(), options, patterns) + lines_for(
            context,
            entries.last(),
            options,
            patterns,
        )
    }
}

/// How many of the entries are printed.
pub open spec fn printed_count(entries: Seq<SternJSON>, options: PrintOptionsView) -> nat
    decreases entries.len(),
{
    if entries.len() == 0 {
        0
    } else {
        printed_count(entries.drop_last(), options) + if is_printed(entries.last()@, options) {
            1nat
        } else {
            0nat
        }
    }
}

/// How many of the entries are filtered out.
pub open spec fn filtered_count(entries: Seq<SternJSON>, options: PrintOptionsView) -> nat
    decreases entries.len(),
{
    if entries.len() == 0 {
        0
    } else {
        filtered_count(entries.drop_last(), options) + if is_filtered(entries.last()@, options) {
            1nat
        } else {
            0nat
        }
    }
}

/// No more entries are printed or filtered out than there are.
pub proof fn lemma_counts(entries: Seq<SternJSON>, options: PrintOptionsView)
    ensures
        printed_count(entries, options) + filtered_count(entries, options) <= entries.len(),
    decreases entries.len(),
{
    if entries.len() > 0 {
        lemma_counts(entries.drop_last(), options);
    }
}

/// The head of the lines of an entry.
fn entry_basics(context: &str, entry: &SternJSON) -> (basics: String)
    ensures
        basics@ == basics_of(context@, entry@),
{
    let mut basics = context.to_owned();
    basics.append(" ");
    basics.append(entry.pod_name.as_str());
    basics.append(" ");
    basics.append(entry.container_name.as_str());
    basics.append(" ");
    basics.append(entry.timestamp.as_str());
    basics.append("    ");
    basics
}

/// The lines for an entry whose message is an object.
fn object_lines(
    basics: &String,
    object: &JsonObject,
    options: &PrintOptions,
    message_regex: &MessageRegEx,
) -> (lines: Vec<String>)
    ensures
        ({
            let members = member_views(object.members@);
            let request_id = request_id_of(members);
            let blank = options.blank_line_after_entry;
            let by_kind = if members.dom().contains("exc_info"@) && members.dom().contains(
                "message"@,
            ) {
                exc_info_lines(basics@, request_id, members, options@, message_regex@)
            } else if members.dom().contains("message"@) {
                json_message_lines(basics@, members, options@, message_regex@)
            } else if has_proxy_members(members) {
                proxy_lines(basics@, request_id, members, blank)
            } else {
                None
            };
            texts(lines@) == match by_kind {
                Some(list) => list,
                None => internal_lines(basics@, object.debug@, blank),
            }
        }),
{
    let members = &object.members;
    let request_id = match members.get("request_id") {
        Some(field) => Some(field.display.clone()),
        None => None,
    };
    let by_kind = if members.contains_key("exc_info") && members.contains_key("message") {
        print_json_exc_info_message(basics, &request_id, object, options, message_regex)
    } else if members.contains_key("message") {
        print_json_message(basics, object, options, message_regex)
    } else if members.contains_key("downstream_local_address") && members.contains_key("method")
        && members.contains_key("path") && members.contains_key("protocol")
        && members.contains_key("response_code") && members.contains_key("bytes_sent")
        && members.contains_key("bytes_received") && members.contains_key("duration")
        && members.contains_key("upstream_service_time") {
        print_json_proxy(basics, &request_id, object, options.blank_line_after_entry)
    } else {
        None
    };
    match by_kind {
        Some(lines) => lines,
        None => print_internal_json_message(basics, object, options.blank_line_after_entry),
    }
}

/// Turns a batch of entries of one context into the lines to print, and
/// counts them: every entry is counted; a line that holds no entry is
/// printed as it is unless such lines are passed over; an entry of a
/// container that is not asked for is counted as filtered out; every other
/// entry is printed by the kind of its message.
pub fn print_parsed_stern_json(
    context: &str,
    parsed_lines: &Vec<SternJSON>,
    options: &PrintOptions,
    message_regex: &MessageRegEx,
    stats: &mut Stats,
) -> (lines: Vec<String>)
    requires
        old(stats).total_logs + parsed_lines@.len() <= u128::MAX,
        old(stats).filtered_out_logs + parsed_lines@.len() <= u128::MAX,
        old(stats).printed_logs + parsed_lines@.len() <= u128::MAX,
    ensures
        texts(lines@) == all_lines(context@, parsed_lines@, options@, message_regex@),
        final(stats).total_logs == old(stats).total_logs + parsed_lines@.len(),
        final(stats).filtered_out_logs == old(stats).filtered_out_logs + filtered_count(
            parsed_lines@,
            options@,
        ),
        final(stats).printed_logs == old(stats).printed_logs + printed_count(
            parsed_lines@,
            options@,
        ),
{
    let mut lines: Vec<String> = Vec::new();
    let mut i: usize = 0;
    assert(parsed_lines@.take(0) =~= Seq::<SternJSON>::empty());
    assert(texts(lines@) =~= Seq::<Seq<char>>::empty());
    while i < parsed_lines.len()
        invariant
            i <= parsed_lines.len(),
            old(stats).total_logs + parsed_lines@.len() <= u128::MAX,
            old(stats).filtered_out_logs + parsed_lines@.len() <= u128::MAX,
            old(stats).printed_logs + parsed_lines@.len() <= u128::MAX,
            texts(lines@) == all_lines(
                context@,
                parsed_lines@.take(i as int),
                options@,
                message_regex@,
            ),
            stats.total_logs == old(stats).total_logs + i,
            stats.filtered_out_logs == old(stats).filtered_out_logs + filtered_count(
                parsed_lines@.take(i as int),
                options@,
            ),
            stats.printed_logs == old(stats).printed_logs + printed_count(
                parsed_lines@.take(i as int),
                options@,
            ),
        decreases parsed_lines.len() - i,
    {
        let ipar = &parsed_lines[i];
        let ghost done = parsed_lines@.take(i as int);
        let ghost next = parsed_lines@.take(i + 1);
        let ghost before = texts(lines@);
        proof {
            assert(next.drop_last() =~= done);
            assert(next.last() == *ipar);
            lemma_counts(done, options@);
        }
        stats.total_logs += 1;
        let mut more: Vec<String> = if !ipar.is_valid {
            if !options.skip_invalid_messages {
                stats.printed_logs += 1;
                print_raw_message(&ipar.raw, options, message_regex)
            } else {
                Vec::new()
            }
        } else {
            let filtered = match &options.include_container {
                Some(include_container) => !texts_have(
                    include_container,
                    ipar.container_name.as_str(),
                ),
                None => false,
            };
            if filtered {
                stats.filtered_out_logs += 1;
                Vec::new()
            } else {
                stats.printed_logs += 1;
                let basics = entry_basics(context, ipar);
                match &ipar.internal_json_message {
                    Some(internal_json_message) => object_lines(
                        &basics,
                        internal_json_message,
                        options,
                        message_regex,
                    ),
                    None => print_message(&basics, &ipar.message, options, message_regex),
                }
            }
        };
        proof {
            assert(texts(more@) =~= lines_for(context@, *ipar, options@, message_regex@));
        }
        let ghost added = texts(more@);
        lines.append(&mut more);
        assert(texts(lines@) =~= before + added);
        i += 1;
    }
    assert(parsed_lines@.take(parsed_lines.len() as int) =~= parsed_lines@);
    lines
}

} // verus!
