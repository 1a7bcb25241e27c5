//! JSON objects as the `serde_json` crate reads them, held as plain texts.

use crate::text_map::TextMap;
use vstd::prelude::*;

verus! {

/// An optional string has the text that is expected of it.
pub open spec fn texts_agree(found: Option<String>, expected: Option<Seq<char>>) -> bool {
    match found {
        Some(text) => expected == Some(text@),
        None => expected is None,
    }
}

/// One value of a JSON object.
#[derive(Debug, Clone, PartialEq, Eq)]
pub struct JsonField {
    /// The value itself if it is a string.
    pub text: Option<String>,
    /// The value written as JSON.
    pub display: String,
}

/// A `JsonField` as character sequences.
pub struct JsonFieldView {
    pub text: Option<Seq<char>>,
    pub display: Seq<char>,
}

impl View for JsonField {
    type V = JsonFieldView;

    open spec fn view(&self) -> JsonFieldView {
        JsonFieldView {
            text: match self.text {
                Some(text) => Some(text@),
                None => None,
            },
            display: self.display@,
        }
    }
}

/// A JSON object as it was read: its members in no particular order, and
/// the text that `{:?}` makes of it.
pub struct ParsedJson {
    pub members: Vec<(String, JsonField)>,
    pub debug: String,
}

/// The members of the JSON object that `text` spells, as
/// `serde_json::from_str` reads them into a map from strings to values;
/// none if `text` spells no JSON object.
pub uninterp spec fn json_members(text: Seq<char>) -> Option<Map<Seq<char>, JsonFieldView>>;

/// The list holds exactly the members of the map, each once.
pub open spec fn lists_members(
    members: Seq<(String, JsonField)>,
    map: Map<Seq<char>, JsonFieldView>,
) -> bool {
    &&& forall|i: int|
        0 <= i < members.len() ==> map.dom().contains((#[trigger] members[i]).0@) && map[members[i].0@]
            == members[i].1@
    &&& forall|key: Seq<char>|
        map.dom().contains(key) ==> exists|i: int|
            0 <= i < members.len() && (#[trigger] members[i]).0@ == key
    &&& forall|i: int, j: int|
        0 <= i < j < members.len() ==> (#[trigger] members[i]).0@ != (#[trigger] members[j]).0@
}

/// `serde_json::from_str` reads a text as a map from strings to JSON values
/// or fails; `Value::as_str` gives the text of a value that is a string, and
/// `to_string` writes a value as JSON. Which members come out depends on the
/// text alone; their order, and with it the text for debugging, does not.
#[verifier::external_body]
pub(crate) fn read_json(json: &str) -> (res: Result<ParsedJson, String>)
    ensures
        match res {
            Ok(parsed) => json_members(json@) matches Some(map) && lists_members(
                parsed.members@,
                map,
            ),
            Err(_) => json_members(json@) is None,
        },
{
    let map: std::collections::HashMap<String, serde_json::Value> =
        serde_json::from_str(json).map_err(|e| e.to_string())?;
    let debug = format!("{:?}", map);
    let field = |v: serde_json::Value| JsonField {
        text: v.as_str().map(|s| s.to_string()),
        display: v.to_string(),
    };
    Ok(ParsedJson { members: map.into_iter().map(|(k, v)| (k, field(v))).collect(), debug })
}

/// The pretty form of a JSON text, as `jsonxf::pretty_print` gives it; none
/// if it refuses the text.
pub uninterp spec fn pretty_json(text: Seq<char>) -> Option<Seq<char>>;

/// `jsonxf::pretty_print` writes JSON anew with two blanks of indent and
/// line feeds, or fails; the result depends on the text alone.
#[verifier::external_body]
pub(crate) fn pretty_print(text: &str) -> (pretty: Option<String>)
    ensures
        texts_agree(pretty, pretty_json(text@)),
{
    jsonxf::pretty_print(text).ok()
}

/// A JSON object: its members by name, and the text that `{:?}` makes of it.
pub struct JsonObject {
    pub members: TextMap<JsonField>,
    pub debug: String,
}

/// The members of an object as a map of views.
pub open spec fn member_views(members: Map<Seq<char>, JsonField>) -> Map<Seq<char>, JsonFieldView> {
    members.map_values(|field: JsonField| field@)
}

/// Reads `json` as a JSON object; none if it spells none.
pub fn json_to_hashmap(json: &str) -> (res: Option<JsonObject>)
    ensures
        match res {
            Some(object) => json_members(json@) == Some(member_views(object.members@)),
            None => json_members(json@) is None,
        },
{
    let parsed = match read_json(json) {
        Ok(parsed) => parsed,
        Err(_) => {
            return None;
        },
    };
    let ghost map = json_members(json@)->0;
    let ParsedJson { mut members, debug } = parsed;
    let ghost list = members@;
    let mut table: TextMap<JsonField> = TextMap::new();
    assert(member_views(table@) =~= Map::<Seq<char>, JsonFieldView>::empty());
    while members.len() > 0
        invariant
            members@.len() <= list.len(),
            members@ == list.take(members@.len() as int),
            lists_members(list, map),
            forall|key: Seq<char>|
                member_views(table@).dom().contains(key) <==> exists|i: int|
                    members@.len() <= i < list.len() && (#[trigger] list[i]).0@ == key,
            forall|key: Seq<char>|
                member_views(table@).dom().contains(key) ==> member_views(table@)[key] == map[key],
        decreases members.len(),
    {
        let ghost before = table@;
        let ghost n = members@.len() - 1;
        let (key, field) = match members.pop() {
            Some(member) => member,
            None => {
                assert(false);
                return None;
            },
        };
        proof {
            assert(list[n] == (key, field));
            assert(members@ =~= list.take(n));
            assert(map[list[n].0@] == field@);
        }
        table.insert(key, field);
        proof {
            assert(member_views(table@) =~= member_views(before).insert(key@, field@));
            assert forall|k: Seq<char>|
                member_views(table@).dom().contains(k) <==> exists|i: int|
                    n <= i < list.len() && (#[trigger] list[i]).0@ == k by {
                if k == key@ {
                    assert(list[n].0@ == k);
                } else {
                    if member_views(before).dom().contains(k) {
                        let i = choose|i: int| n + 1 <= i < list.len() && (#[trigger] list[i]).0@ == k;
                        assert(list[i].0@ == k);
                    }
                    if exists|i: int| n <= i < list.len() && (#[trigger] list[i]).0@ == k {
                        let i = choose|i: int| n <= i < list.len() && (#[trigger] list[i]).0@ == k;
                        assert(i != n);
                        assert(n + 1 <= i < list.len() && list[i].0@ == k);
                    }
                }
            }
        }
    }
    proof {
        assert(members@.len() == 0);
        assert forall|k: Seq<char>| map.dom().contains(k) implies member_views(
            table@,
        ).dom().contains(k) by {
            let i = choose|i: int| 0 <= i < list.len() && (#[trigger] list[i]).0@ == k;
            assert(list[i].0@ == k);
        }
        assert forall|k: Seq<char>| member_views(table@).dom().contains(k) implies map.dom().contains(
            k,
        ) by {
            let i = choose|i: int| 0 <= i < list.len() && (#[trigger] list[i]).0@ == k;
            assert(map.dom().contains(list[i].0@));
        }
        assert(member_views(table@) =~= map);
    }
    Some(JsonObject { members: table, debug })
}

} // verus!
