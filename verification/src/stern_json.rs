//! Log entries as `stern` writes them: one JSON object per line.

use crate::json::{json_members, json_to_hashmap, member_views, JsonFieldView, JsonObject};
use crate::pattern::{capture_pair, regex_captured};
use crate::stern_json_regex::SternJSONRegEx;
use crate::string_utils::{tokenize_by, tokens_by, NO_LIMIT};
use crate::text::{chars_of, texts, trim, trimmed_string};
use vstd::prelude::*;

verus! {

/// One line of the log, and what could be read from it.
pub struct SternJSON {
    /// The timestamp found in front of the message.
    pub timestamp: String,
    pub message: String,
    pub node_name: String,
    pub namespace: String,
    pub pod_name: String,
    pub container_name: String,
    /// The line is a JSON object with all the members of a log entry.
    pub is_valid: bool,
    /// The line as it came.
    pub raw: String,
    /// The message read as a JSON object, where it is one.
    pub internal_json_message: Option<JsonObject>,
}

/// A `SternJSON` as character sequences.
pub struct SternJSONView {
    pub timestamp: Seq<char>,
    pub message: Seq<char>,
    pub node_name: Seq<char>,
    pub namespace: Seq<char>,
    pub pod_name: Seq<char>,
    pub container_name: Seq<char>,
    pub is_valid: bool,
    pub raw: Seq<char>,
    pub internal_json_message: Option<Map<Seq<char>, JsonFieldView>>,
}

impl View for SternJSON {
    type V = SternJSONView;

    open spec fn view(&self) -> SternJSONView {
        SternJSONView {
            timestamp: self.timestamp@,
            message: self.message@,
            node_name: self.node_name@,
            namespace: self.namespace@,
            pod_name: self.pod_name@,
            container_name: self.container_name@,
            is_valid: self.is_valid,
            raw: self.raw@,
            internal_json_message: match self.internal_json_message {
                Some(object) => Some(member_views(object.members@)),
                None => None,
            },
        }
    }
}

/// The two patterns of a `SternJSONRegEx`.
pub open spec fn patterns_of(regex: Option<&SternJSONRegEx>) -> Option<(Seq<char>, Seq<char>)> {
    match regex {
        Some(r) => Some((r.full_timestamp_and_message@, r.short_timestamp_and_message@)),
        None => None,
    }
}

/// The text begins with `{` and ends with `}`.
pub open spec fn braced(s: Seq<char>) -> bool {
    s.len() > 0 && s[0] == '{' && s.last() == '}'
}

/// A line of which nothing could be read.
pub open spec fn unread(raw: Seq<char>) -> SternJSONView {
    SternJSONView {
        timestamp: Seq::empty(),
        message: Seq::empty(),
        node_name: Seq::empty(),
        namespace: Seq::empty(),
        pod_name: Seq::empty(),
        container_name: Seq::empty(),
        is_valid: false,
        raw,
        internal_json_message: None,
    }
}

/// The member is there and is a string.
pub open spec fn has_text(map: Map<Seq<char>, JsonFieldView>, key: Seq<char>) -> bool {
    map.dom().contains(key) && map[key].text is Some
}

/// The object has the five members of a log entry, all of them strings.
pub open spec fn is_entry(map: Map<Seq<char>, JsonFieldView>) -> bool {
    has_text(map, "message"@) && has_text(map, "nodeName"@) && has_text(map, "namespace"@)
        && has_text(map, "podName"@) && has_text(map, "containerName"@)
}

/// The timestamp and the message that the patterns find in a message: by
/// the full pattern if it matches, else by the short one, each part
/// trimmed; the message as it is, without a timestamp, if neither matches.
pub open spec fn split_timestamp(message: Seq<char>, patterns: (Seq<char>, Seq<char>)) -> (
    Seq<char>,
    Seq<char>,
) {
    match regex_captured(patterns.0, message, "full_timestamp"@, "message"@) {
        Some((timestamp, rest)) => (trim(timestamp), trim(rest)),
        None => match regex_captured(patterns.1, message, "short_timestamp"@, "message"@) {
            Some((timestamp, rest)) => (trim(timestamp), trim(rest)),
            None => (Seq::empty(), message),
        },
    }
}

/// The log entry that a JSON object holds. Without the five members it is
/// none. A message in braces is read as a JSON object itself; another
/// message is split from its timestamp where patterns are given, and what
/// is left is then read as a JSON object if it is not empty.
pub open spec fn entry_of(
    raw: Seq<char>,
    map: Map<Seq<char>, JsonFieldView>,
    patterns: Option<(Seq<char>, Seq<char>)>,
) -> SternJSONView {
    if !is_entry(map) {
        unread(raw)
    } else {
        let message = trim(map["message"@].text->0);
        let basic = SternJSONView {
            message,
            node_name: trim(map["nodeName"@].text->0),
            namespace: trim(map["namespace"@].text->0),
            pod_name: trim(map["podName"@].text->0),
            container_name: trim(map["containerName"@].text->0),
            is_valid: true,
            ..unread(raw)
        };
        if braced(message) {
            SternJSONView { internal_json_message: json_members(message), ..basic }
        } else {
            match patterns {
                Some(both) => {
                    let (timestamp, rest) = split_timestamp(message, both);
                    SternJSONView {
                        timestamp,
                        message: rest,
                        internal_json_message: if rest.len() > 0 {
                            json_members(rest)
                        } else {
                            None
                        },
                        ..basic
                    }
                },
                None => basic,
            }
        }
    }
}

/// What is read from one line: a log entry if the line is in braces and
/// spells a JSON object that holds one.
pub open spec fn line_read(raw: Seq<char>, patterns: Option<(Seq<char>, Seq<char>)>) -> SternJSONView {
    if braced(raw) {
        match json_members(raw) {
            Some(map) => entry_of(raw, map, patterns),
            None => unread(raw),
        }
    } else {
        unread(raw)
    }
}

/// Whether the text begins with `{` and ends with `}`.
pub fn is_braced(s: &str) -> (yes: bool)
    ensures
        yes == braced(s@),
{
    let v = chars_of(s);
    v.len() > 0 && v[0] == '{' && v[v.len() - 1] == '}'
}

/// The text of a member that is a string, trimmed.
fn member_text(object: &JsonObject, key: &str) -> (text: Option<String>)
    ensures
        match text {
            Some(t) => has_text(member_views(object.members@), key@) && t@ == trim(
                member_views(object.members@)[key@].text->0,
            ),
            None => !has_text(member_views(object.members@), key@),
        },
{
    match object.members.get(key) {
        Some(field) => match &field.text {
            Some(t) => Some(trimmed_string(t.as_str())),
            None => None,
        },
        None => None,
    }
}

impl SternJSON {
    /// Reads the lines of `lines`, each trimmed and the empty ones left
    /// out, one entry per line.
    pub fn parse(lines: &str, regex: Option<&SternJSONRegEx>) -> (parsed: Vec<Self>)
        ensures
            parsed@.len() == tokens_by(lines@, seq!['\n'], NO_LIMIT, true, true).len(),
            forall|i: int|
                0 <= i < parsed@.len() ==> (#[trigger] parsed@[i])@ == line_read(
                    tokens_by(lines@, seq!['\n'], NO_LIMIT, true, true)[i],
                    patterns_of(regex),
                ),
    {
        proof {
            reveal_strlit("\n");
            assert("\n"@ =~= seq!['\n']);
        }
        let list = tokenize_by(lines, "\n", NO_LIMIT, true, true);
        let mut parsed: Vec<SternJSON> = Vec::new();
        let mut i: usize = 0;
        while i < list.len()
            invariant
                i <= list.len(),
                parsed@.len() == i,
                forall|k: int|
                    0 <= k < i ==> (#[trigger] parsed@[k])@ == line_read(
                        texts(list@)[k],
                        patterns_of(regex),
                    ),
            decreases list.len() - i,
        {
            let iline = &list[i];
            let mut json = SternJSON {
                timestamp: String::new(),
                message: String::new(),
                node_name: String::new(),
                namespace: String::new(),
                pod_name: String::new(),
                container_name: String::new(),
                is_valid: false,
                raw: iline.clone(),
                internal_json_message: None,
            };
            if is_braced(iline.as_str()) {
                match json_to_hashmap(iline.as_str()) {
                    Some(hashmap) => {
                        Self::fill_from_hashmap(&mut json, hashmap, regex);
                    },
                    None => {},
                }
            }
            assert(json@ == line_read(texts(list@)[i as int], patterns_of(regex)));
            parsed.push(json);
            i += 1;
        }
        parsed
    }

    /// Fills an entry from the JSON object of its line.
    fn fill_from_hashmap(json: &mut SternJSON, hashmap: JsonObject, regex: Option<&SternJSONRegEx>)
        requires
            old(json)@ == unread(old(json).raw@),
        ensures
            final(json)@ == entry_of(
                old(json).raw@,
                member_views(hashmap.members@),
                patterns_of(regex),
            ),
    {
        json.is_valid = false;
        let message = member_text(&hashmap, "message");
        let node_name = member_text(&hashmap, "nodeName");
        let namespace = member_text(&hashmap, "namespace");
        let pod_name = member_text(&hashmap, "podName");
        let container_name = member_text(&hashmap, "containerName");
        match (message, node_name, namespace, pod_name, container_name) {
            (Some(message), Some(node_name), Some(namespace), Some(pod_name), Some(container_name)) => {
                json.message = message;
                json.node_name = node_name;
                json.namespace = namespace;
                json.pod_name = pod_name;
                json.container_name = container_name;
                json.is_valid = true;
                Self::fill_internal_json_message(json, regex);
            },
            _ => {},
        }
    }

    /// Reads the message of an entry as a JSON object where it is one,
    /// after taking the timestamp off its front where patterns are given.
    fn fill_internal_json_message(json: &mut SternJSON, regex: Option<&SternJSONRegEx>)
        requires
            old(json).internal_json_message is None,
            old(json).timestamp@.len() == 0,
        ensures
            final(json)@ == (if braced(old(json).message@) {
                SternJSONView { internal_json_message: json_members(old(json).message@), ..old(json)@ }
            } else {
                match patterns_of(regex) {
                    Some(both) => {
                        let (timestamp, rest) = split_timestamp(old(json).message@, both);
                        SternJSONView {
                            timestamp,
                            message: rest,
                            internal_json_message: if rest.len() > 0 {
                                json_members(rest)
                            } else {
                                None
                            },
                            ..old(json)@
                        }
                    },
                    None => old(json)@,
                }
            }),
    {
        if is_braced(json.message.as_str()) {
            match json_to_hashmap(json.message.as_str()) {
                Some(parsed_json) => {
                    json.internal_json_message = Some(parsed_json);
                },
                None => {},
            }
        } else {
            match regex {
                Some(regex) => {
                    Self::extract_ts_message_internal_message(json, regex);
                },
                None => {},
            }
        }
    }

    /// Takes the timestamp off the front of the message, by the full
    /// pattern or else the short one, and reads what is left as a JSON
    /// object if it is not empty.
    fn extract_ts_message_internal_message(json: &mut SternJSON, regex: &SternJSONRegEx)
        requires
            old(json).internal_json_message is None,
            old(json).timestamp@.len() == 0,
        ensures
            ({
                let (timestamp, rest) = split_timestamp(
                    old(json).message@,
                    (regex.full_timestamp_and_message@, regex.short_timestamp_and_message@),
                );
                final(json)@ == (SternJSONView {
                    timestamp,
                    message: rest,
                    internal_json_message: if rest.len() > 0 {
                        json_members(rest)
                    } else {
                        None
                    },
                    ..old(json)@
                })
            }),
    {
        match capture_pair(
            regex.full_timestamp_and_message.as_str(),
            json.message.as_str(),
            "full_timestamp",
            "message",
        ) {
            Some((timestamp, message)) => {
                json.timestamp = trimmed_string(timestamp.as_str());
                json.message = trimmed_string(message.as_str());
            },
            None => match capture_pair(
                regex.short_timestamp_and_message.as_str(),
                json.message.as_str(),
                "short_timestamp",
                "message",
            ) {
                Some((timestamp, message)) => {
                    json.timestamp = trimmed_string(timestamp.as_str());
                    json.message = trimmed_string(message.as_str());
                },
                None => {
                    assert(json.timestamp@ =~= Seq::<char>::empty());
                },
            },
        }
        if !json.message.as_str().is_empty() {
            match json_to_hashmap(json.message.as_str()) {
                Some(parsed_json) => {
                    json.internal_json_message = Some(parsed_json);
                },
                None => {},
            }
        }
    }
}

} // verus!
