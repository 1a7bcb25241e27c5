//! Command-line arguments sorted into flags, keys with values, a main
//! argument and what is left over, for the program's own arguments and for
//! those that follow `--`.

use crate::command_streamer::command_streamer::clone_texts;
use crate::error::{ValueError, ValueErrorView};
use crate::search::{find_from, first_match, lemma_first_match, matches_at, stands_at};
use crate::string_utils::{
    _string_to_i128, i128_of, means_false, means_true, string_to_bool, strs, tokenize_by,
    tokens_by, NO_LIMIT,
};
use crate::text::{
    chars_of, lowercase_of, push_range, text_eq, texts, to_lowercase, trim, trimmed_string,
};
use crate::text_map::{debug_of_map, distinct_keys, map_of, TextMap};
use vstd::prelude::*;
use vstd::string::StringExecFns;

verus! {

/// A map of texts with its values as character sequences.
pub open spec fn text_values(m: Map<Seq<char>, String>) -> Map<Seq<char>, Seq<char>> {
    m.map_values(|v: String| v@)
}

/// Giving a key a value gives it the value's text.
pub proof fn lemma_text_values_insert(m: Map<Seq<char>, String>, key: Seq<char>, value: String)
    ensures
        text_values(m.insert(key, value)) == text_values(m).insert(key, value@),
{
    assert(text_values(m.insert(key, value)) =~= text_values(m).insert(key, value@));
}

/// Taking a key out takes its text out.
pub proof fn lemma_text_values_remove(m: Map<Seq<char>, String>, key: Seq<char>)
    ensures
        text_values(m.remove(key)) == text_values(m).remove(key),
{
    assert(text_values(m.remove(key)) =~= text_values(m).remove(key));
}

/// The arguments before the first `--` and those after it. Every `--` is
/// left out, also a later one. Without `split_by_dash` all arguments come
/// first, as they are.
pub open spec fn split_at_dashes(args: Seq<Seq<char>>, split_by_dash: bool) -> (
    Seq<Seq<char>>,
    Seq<Seq<char>>,
)
    decreases args.len(),
{
    if !split_by_dash {
        (args, Seq::empty())
    } else if args.len() == 0 {
        (Seq::empty(), Seq::empty())
    } else {
        let (own, ext) = split_at_dashes(args.drop_last(), true);
        let seen = args.drop_last().contains("--"@);
        if args.last() == "--"@ {
            (own, ext)
        } else if seen {
            (own, ext.push(args.last()))
        } else {
            (own.push(args.last()), ext)
        }
    }
}

/// The program's arguments split at `--`: those before the first `--` and
/// those after it, every `--` left out. Without `split_by_dash` all of them
/// come first, as they are, and nothing second.
pub fn args_vec(args: Vec<String>, split_by_dash: bool) -> (res: (Vec<String>, Vec<String>))
    ensures
        (texts(res.0@), texts(res.1@)) == split_at_dashes(texts(args@), split_by_dash),
{
    let mut result_args: Vec<String> = Vec::new();
    let mut result_args_ext: Vec<String> = Vec::new();
    let mut found_ext_args = false;
    if !split_by_dash {
        return (args, Vec::new());
    }
    let mut i: usize = 0;
    assert(texts(args@).take(0) =~= Seq::<Seq<char>>::empty());
    while i < args.len()
        invariant
            i <= args.len(),
            found_ext_args == texts(args@).take(i as int).contains("--"@),
            (texts(result_args@), texts(result_args_ext@)) == split_at_dashes(
                texts(args@).take(i as int),
                true,
            ),
        decreases args.len() - i,
    {
        let ghost done = texts(args@).take(i as int);
        let ghost next = texts(args@).take(i + 1);
        proof {
            assert(next.drop_last() =~= done);
            assert(next.last() == args@[i as int]@);
        }
        if text_eq(args[i].as_str(), "--") {
            found_ext_args = true;
            proof {
                assert(next[i as int] == "--"@);
            }
        } else {
            proof {
                if found_ext_args {
                    let k = choose|k: int| 0 <= k < done.len() && done[k] == "--"@;
                    assert(next[k] == "--"@);
                } else if next.contains("--"@) {
                    let k = choose|k: int| 0 <= k < next.len() && next[k] == "--"@;
                    assert(done[k] == "--"@);
                }
            }
            let ghost own = texts(result_args@);
            let ghost ext = texts(result_args_ext@);
            if found_ext_args {
                result_args_ext.push(args[i].clone());
                assert(texts(result_args_ext@) =~= ext.push(args@[i as int]@));
            } else {
                result_args.push(args[i].clone());
                assert(texts(result_args@) =~= own.push(args@[i as int]@));
            }
        }
        i += 1;
    }
    assert(texts(args@).take(args.len() as int) =~= texts(args@));
    (result_args, result_args_ext)
}

/// The arguments with one blank between each two.
pub fn args_to_string(args: &Vec<String>) -> (line: String)
    ensures
        line@ == crate::text::joined(texts(args@), seq![' ']),
{
    proof {
        reveal_strlit(" ");
        assert(" "@ =~= seq![' ']);
    }
    crate::text::join(args, " ")
}

/// Whether `text` is in the list.
pub fn list_has(list: &[&str], text: &str) -> (found: bool)
    ensures
        found == strs(list@).contains(text@),
{
    let mut i: usize = 0;
    while i < list.len()
        invariant
            i <= list.len(),
            forall|k: int| 0 <= k < i ==> strs(list@)[k] != text@,
        decreases list.len() - i,
    {
        if text_eq(list[i], text) {
            assert(strs(list@)[i as int] == text@);
            return true;
        }
        i += 1;
    }
    false
}

/// Whether `text` is in the list.
pub fn texts_have(list: &Vec<String>, text: &str) -> (found: bool)
    ensures
        found == texts(list@).contains(text@),
{
    let mut i: usize = 0;
    while i < list.len()
        invariant
            i <= list.len(),
            forall|k: int| 0 <= k < i ==> texts(list@)[k] != text@,
        decreases list.len() - i,
    {
        if text_eq(list[i].as_str(), text) {
            assert(texts(list@)[i as int] == text@);
            return true;
        }
        i += 1;
    }
    false
}

/// The arguments that are in `supported`, in order.
pub open spec fn chosen(args: Seq<Seq<char>>, supported: Seq<Seq<char>>) -> Seq<Seq<char>>
    decreases args.len(),
{
    if args.len() == 0 {
        Seq::empty()
    } else if supported.contains(args.last()) {
        chosen(args.drop_last(), supported).push(args.last())
    } else {
        chosen(args.drop_last(), supported)
    }
}

/// The arguments that are not in `supported`, in order.
pub open spec fn unchosen(args: Seq<Seq<char>>, supported: Seq<Seq<char>>) -> Seq<Seq<char>>
    decreases args.len(),
{
    if args.len() == 0 {
        Seq::empty()
    } else if supported.contains(args.last()) {
        unchosen(args.drop_last(), supported)
    } else {
        unchosen(args.drop_last(), supported).push(args.last())
    }
}

/// The arguments still unsorted and the keys that have found a value.
pub struct Fill {
    pub rest: Seq<Seq<char>>,
    pub kv: Map<Seq<char>, Seq<char>>,
}

/// `arg` begins with `key` and `=`.
pub open spec fn assigns(arg: Seq<char>, key: Seq<char>) -> bool {
    stands_at(arg, key + seq!['='], 0)
}

/// What follows the first `=` of `arg`.
pub open spec fn assigned(arg: Seq<char>) -> Seq<char> {
    arg.skip(first_match(arg, seq!['=']) + 1)
}

/// One step of the search for the values of `key`: `arg` stood at `index`
/// when the search began. If `arg` is the key and the unsorted arguments
/// still reach beyond `index`, the two that now stand at `index` leave and
/// the second of them is the value. If `arg` begins with the key and `=`,
/// what follows its first `=` is the value, and the argument that now
/// stands at `index`, if there is one, leaves.
pub open spec fn kv_step(fill: Fill, key: Seq<char>, index: int, arg: Seq<char>) -> Fill {
    if arg == key {
        if fill.rest.len() > index + 1 {
            Fill {
                rest: fill.rest.remove(index).remove(index),
                kv: fill.kv.insert(key, fill.rest[index + 1]),
            }
        } else {
            fill
        }
    } else if assigns(arg, key) {
        Fill {
            rest: if index < fill.rest.len() {
                fill.rest.remove(index)
            } else {
                fill.rest
            },
            kv: fill.kv.insert(key, assigned(arg)),
        }
    } else {
        fill
    }
}

/// The search for the values of `key` through the first `upto` of the
/// arguments that were unsorted when it began.
pub open spec fn kv_scan(fill: Fill, key: Seq<char>, snapshot: Seq<Seq<char>>, upto: nat) -> Fill
    decreases upto,
{
    if upto == 0 {
        fill
    } else {
        kv_step(
            kv_scan(fill, key, snapshot, (upto - 1) as nat),
            key,
            upto - 1,
            snapshot[upto - 1],
        )
    }
}

/// The search for the values of each of `keys` in turn, each through the
/// arguments that the searches before it left unsorted.
pub open spec fn kv_passes(fill: Fill, keys: Seq<Seq<char>>) -> Fill
    decreases keys.len(),
{
    if keys.len() == 0 {
        fill
    } else {
        let before = kv_passes(fill, keys.drop_last());
        kv_scan(before, keys.last(), before.rest, before.rest.len())
    }
}

/// The flags, the keys with their values and the main argument of one side
/// of the command line, and what could not be sorted.
pub struct Side {
    pub kv: Map<Seq<char>, Seq<char>>,
    pub args: Seq<Seq<char>>,
    pub main: Seq<char>,
    pub rest: Seq<Seq<char>>,
}

/// The flags with, once more at the end, each default that is among them
/// already.
pub open spec fn with_default_args(args: Seq<Seq<char>>, defaults: Seq<Seq<char>>) -> Seq<
    Seq<char>,
>
    decreases defaults.len(),
{
    if defaults.len() == 0 {
        args
    } else {
        let before = with_default_args(args, defaults.drop_last());
        if before.contains(defaults.last()) {
            before.push(defaults.last())
        } else {
            before
        }
    }
}

/// The first place of `text` in the list, or -1 if it is not there.
pub open spec fn place_of(list: Seq<Seq<char>>, text: Seq<char>) -> int
    decreases list.len(),
{
    if list.len() == 0 {
        -1
    } else if list[0] == text {
        0
    } else {
        let rest = place_of(list.drop_first(), text);
        if rest < 0 {
            -1
        } else {
            rest + 1
        }
    }
}

/// `place_of` is the least index that holds the text.
pub proof fn lemma_place_of(list: Seq<Seq<char>>, text: Seq<char>)
    ensures
        -1 <= place_of(list, text) < list.len(),
        place_of(list, text) >= 0 ==> list[place_of(list, text)] == text,
        forall|i: int|
            0 <= i < list.len() && (i < place_of(list, text) || place_of(list, text) < 0)
                ==> #[trigger] list[i] != text,
    decreases list.len(),
{
    if list.len() > 0 && list[0] != text {
        let rest = list.drop_first();
        lemma_place_of(rest, text);
        assert forall|i: int|
            0 <= i < list.len() && (i < place_of(list, text) || place_of(list, text) < 0)
                implies #[trigger] list[i] != text by {
            if i > 0 {
                assert(list[i] == rest[i - 1]);
            }
        }
    }
}

/// The flags with the first `short` among them taken out and `long` put at
/// the end; as they are if `short` is not among them.
pub open spec fn renamed_arg(args: Seq<Seq<char>>, long: Seq<char>, short: Seq<char>) -> Seq<
    Seq<char>,
> {
    let place = place_of(args, short);
    if 0 <= place < args.len() {
        args.remove(place).push(long)
    } else {
        args
    }
}

/// The keys with the value of `short` moved to `long`; as they are if
/// `short` is not among them.
pub open spec fn renamed_key(kv: Map<Seq<char>, Seq<char>>, long: Seq<char>, short: Seq<char>) -> Map<
    Seq<char>,
    Seq<char>,
> {
    if kv.dom().contains(short) {
        kv.remove(short).insert(long, kv[short])
    } else {
        kv
    }
}

/// The long and the short name of each pair.
pub open spec fn pairs_of(merges: Seq<&[&str; 2]>) -> Seq<(Seq<char>, Seq<char>)> {
    Seq::new(merges.len(), |i: int| (merges[i]@[0]@, merges[i]@[1]@))
}

/// The flags after every short name in turn gave way to its long name.
pub open spec fn merged_args(args: Seq<Seq<char>>, pairs: Seq<(Seq<char>, Seq<char>)>) -> Seq<
    Seq<char>,
>
    decreases pairs.len(),
{
    if pairs.len() == 0 {
        args
    } else {
        renamed_arg(merged_args(args, pairs.drop_last()), pairs.last().0, pairs.last().1)
    }
}

/// The keys after every short name in turn gave way to its long name.
pub open spec fn merged_kv(kv: Map<Seq<char>, Seq<char>>, pairs: Seq<(Seq<char>, Seq<char>)>) -> Map<
    Seq<char>,
    Seq<char>,
>
    decreases pairs.len(),
{
    if pairs.len() == 0 {
        kv
    } else {
        renamed_key(merged_kv(kv, pairs.drop_last()), pairs.last().0, pairs.last().1)
    }
}

/// The names and rules by which one side of the command line is sorted.
pub struct Rules {
    pub supported_kv: Seq<Seq<char>>,
    pub supported: Seq<Seq<char>>,
    pub merges: Seq<(Seq<char>, Seq<char>)>,
    pub default_kv: Map<Seq<char>, Seq<char>>,
    pub defaults: Seq<Seq<char>>,
    pub support_all: bool,
    pub support_main: bool,
}

/// One side of the command line, sorted: the last argument is the main one
/// where one is supported; the others are all flags where all are supported,
/// else the supported flags are taken and the supported keys find their
/// values; then the defaults come in and the short names give way to the
/// long ones.
pub open spec fn sorted_side(raw: Seq<Seq<char>>, rules: Rules) -> Side {
    let takes_main = rules.support_main && raw.len() > 0;
    let main = if takes_main {
        raw.last()
    } else {
        Seq::empty()
    };
    let others = if takes_main {
        raw.drop_last()
    } else {
        raw
    };
    let flags = if rules.support_all {
        others
    } else {
        chosen(others, rules.supported)
    };
    let fill = if rules.support_all {
        Fill { rest: Seq::empty(), kv: Map::empty() }
    } else {
        kv_passes(
            Fill { rest: unchosen(others, rules.supported), kv: Map::empty() },
            rules.supported_kv,
        )
    };
    Side {
        kv: merged_kv(rules.default_kv.union_prefer_right(fill.kv), rules.merges),
        args: merged_args(with_default_args(flags, rules.defaults), rules.merges),
        main,
        rest: fill.rest,
    }
}

/// The sorted command line.
#[derive(Debug)]
pub struct ArgParser {
    pub kv_args: TextMap<String>,
    pub args: Vec<String>,
    pub main_arg: String,
    pub ext_kv_args: TextMap<String>,
    pub ext_args: Vec<String>,
    pub ext_main_arg: String,
    pub unknown_args: Vec<String>,
}

/// An `ArgParser` as maps and sequences of texts.
pub struct ArgParserView {
    pub kv_args: Map<Seq<char>, Seq<char>>,
    pub args: Seq<Seq<char>>,
    pub main_arg: Seq<char>,
    pub ext_kv_args: Map<Seq<char>, Seq<char>>,
    pub ext_args: Seq<Seq<char>>,
    pub ext_main_arg: Seq<char>,
    pub unknown_args: Seq<Seq<char>>,
}

impl View for ArgParser {
    type V = ArgParserView;

    open spec fn view(&self) -> ArgParserView {
        ArgParserView {
            kv_args: text_values(self.kv_args@),
            args: texts(self.args@),
            main_arg: self.main_arg@,
            ext_kv_args: text_values(self.ext_kv_args@),
            ext_args: texts(self.ext_args@),
            ext_main_arg: self.ext_main_arg@,
            unknown_args: texts(self.unknown_args@),
        }
    }
}

/// What the whole command line sorts into. `raw` holds the program's path
/// first, which is left out, then the program's own arguments, and after the
/// first `--` those of the other side.
pub open spec fn sorted_command_line(raw: Seq<Seq<char>>, own: Rules, ext: Rules) -> ArgParserView {
    let (first, second) = split_at_dashes(raw, true);
    let own_raw = if first.len() > 0 {
        first.drop_first()
    } else {
        first
    };
    let own_side = sorted_side(own_raw, own);
    let ext_side = sorted_side(second, ext);
    ArgParserView {
        kv_args: own_side.kv,
        args: own_side.args,
        main_arg: own_side.main,
        ext_kv_args: ext_side.kv,
        ext_args: ext_side.args,
        ext_main_arg: ext_side.main,
        unknown_args: own_side.rest + ext_side.rest,
    }
}

/// The rules that the arguments of `new` make for one side.
pub open spec fn rules_of(
    supported_kv: &[&str],
    supported: &[&str],
    merges: &[&[&str; 2]],
    default_kv: &TextMap<String>,
    defaults: &[&str],
    support_all: bool,
    support_main: bool,
) -> Rules {
    Rules {
        supported_kv: strs(supported_kv@),
        supported: strs(supported@),
        merges: pairs_of(merges@),
        default_kv: text_values(default_kv@),
        defaults: strs(defaults@),
        support_all,
        support_main,
    }
}

/// The text that `{:?}` makes of a text: the text in double quotes, with
/// its special characters escaped.
pub uninterp spec fn debug_of_text(s: Seq<char>) -> Seq<char>;

/// The text that `{:?}` makes of a list of texts.
pub uninterp spec fn debug_of_list(list: Seq<Seq<char>>) -> Seq<char>;

/// Formats a text with `{:?}`; the result depends on the text alone.
#[verifier::external_body]
fn debug_text(s: &String) -> (text: String)
    ensures
        text@ == debug_of_text(s@),
{
    format!("{:?}", s)
}

/// Formats a list of texts with `{:?}`; the result depends on the texts
/// alone.
#[verifier::external_body]
pub(crate) fn debug_list(list: &Vec<String>) -> (text: String)
    ensures
        text@ == debug_of_list(texts(list@)),
{
    format!("{:?}", list)
}

impl ArgParserView {
    /// The keys and values of one side.
    pub open spec fn kv(self, ext: bool) -> Map<Seq<char>, Seq<char>> {
        if ext {
            self.ext_kv_args
        } else {
            self.kv_args
        }
    }

    /// The sorted command line as one line of text, for diagnostics.
    pub open spec fn described(self) -> Seq<char> {
        "kv_args="@ + debug_of_map(self.kv_args) + ", args="@ + debug_of_list(self.args)
            + ", main_arg="@ + debug_of_text(self.main_arg) + ", ext_kv_args="@ + debug_of_map(
            self.ext_kv_args,
        ) + ", ext_args="@ + debug_of_list(self.ext_args) + ", ext_main_arg="@ + debug_of_text(
            self.ext_main_arg,
        ) + ", unknown_args="@ + debug_of_list(self.unknown_args)
    }
}

/// Where the first `list[i] == text` is, if anywhere.
pub fn find_text(list: &Vec<String>, text: &str) -> (place: Option<usize>)
    ensures
        match place {
            Some(i) => i == place_of(texts(list@), text@),
            None => place_of(texts(list@), text@) == -1,
        },
{
    let mut i: usize = 0;
    proof {
        lemma_place_of(texts(list@), text@);
    }
    while i < list.len()
        invariant
            i <= list.len(),
            forall|k: int| 0 <= k < i ==> texts(list@)[k] != text@,
        decreases list.len() - i,
    {
        if text_eq(list[i].as_str(), text) {
            proof {
                assert(texts(list@)[i as int] == text@);
                lemma_place_of(texts(list@), text@);
                let place = place_of(texts(list@), text@);
                if 0 <= place < i {
                    assert(texts(list@)[place] != text@);
                }
            }
            return Some(i);
        }
        i += 1;
    }
    proof {
        lemma_place_of(texts(list@), text@);
        let place = place_of(texts(list@), text@);
        if place >= 0 {
            assert(texts(list@)[place] != text@);
        }
    }
    None
}

impl ArgParser {
    /// Sorts the command line `raw_args`: the program's path first, then the
    /// program's own arguments, and after the first `--` the arguments of
    /// the other side. Each side is sorted by its own rules.
    pub fn new(
        raw_args: Vec<String>,
        supported_kv_args: &[&str],
        supported_args: &[&str],
        supported_kv_ext_args: &[&str],
        supported_ext_args: &[&str],
        args_to_merge: &[&[&str; 2]],
        ext_args_to_merge: &[&[&str; 2]],
        default_kv_args: &TextMap<String>,
        default_args: &[&str],
        default_kv_ext_args: &TextMap<String>,
        default_ext_args: &[&str],
        support_all_args: bool,
        support_all_ext_args: bool,
        support_main_arg: bool,
        support_main_ext_arg: bool,
    ) -> (parser: Self)
        ensures
            parser@ == sorted_command_line(
                texts(raw_args@),
                rules_of(
                    supported_kv_args,
                    supported_args,
                    args_to_merge,
                    default_kv_args,
                    default_args,
                    support_all_args,
                    support_main_arg,
                ),
                rules_of(
                    supported_kv_ext_args,
                    supported_ext_args,
                    ext_args_to_merge,
                    default_kv_ext_args,
                    default_ext_args,
                    support_all_ext_args,
                    support_main_ext_arg,
                ),
            ),
    {
        let parsed_args = Self::parse_args(
            raw_args,
            supported_kv_args,
            supported_args,
            supported_kv_ext_args,
            supported_ext_args,
            args_to_merge,
            ext_args_to_merge,
            default_kv_args,
            default_args,
            default_kv_ext_args,
            default_ext_args,
            support_all_args,
            support_all_ext_args,
            support_main_arg,
            support_main_ext_arg,
        );
        let (own, ext, unknown_args) = parsed_args;
        ArgParser {
            kv_args: own.0,
            args: own.1,
            main_arg: own.2,
            ext_kv_args: ext.0,
            ext_args: ext.1,
            ext_main_arg: ext.2,
            unknown_args,
        }
    }

    /// The flags as string slices.
    pub fn _args_as_str_vec(&self) -> (list: Vec<&str>)
        ensures
            strs(list@) == self@.args,
    {
        let mut list: Vec<&str> = Vec::new();
        let mut i: usize = 0;
        while i < self.args.len()
            invariant
                i <= self.args.len(),
                strs(list@) == texts(self.args@).take(i as int),
            decreases self.args.len() - i,
        {
            let ghost before = strs(list@);
            list.push(self.args[i].as_str());
            i += 1;
            assert(strs(list@) =~= before.push(self.args@[i - 1]@));
            assert(strs(list@) =~= texts(self.args@).take(i as int));
        }
        assert(texts(self.args@).take(self.args.len() as int) =~= texts(self.args@));
        list
    }

    /// A copy of the flags of the other side.
    pub fn ext_args_as_str_vec(&self) -> (list: Vec<String>)
        ensures
            texts(list@) == self@.ext_args,
    {
        clone_texts(&self.ext_args)
    }

    /// The sorted command line as one line of text, for diagnostics.
    pub fn to_string(&self) -> (text: String)
        ensures
            text@ == self@.described(),
    {
        let mut text = "kv_args=".to_owned();
        text.append(self.kv_args.debug_string().as_str());
        text.append(", args=");
        text.append(debug_list(&self.args).as_str());
        text.append(", main_arg=");
        text.append(debug_text(&self.main_arg).as_str());
        text.append(", ext_kv_args=");
        text.append(self.ext_kv_args.debug_string().as_str());
        text.append(", ext_args=");
        text.append(debug_list(&self.ext_args).as_str());
        text.append(", ext_main_arg=");
        text.append(debug_text(&self.ext_main_arg).as_str());
        text.append(", unknown_args=");
        text.append(debug_list(&self.unknown_args).as_str());
        text
    }

    /// The value of the key `name` on one side, cut at `separator` into its
    /// parts, each trimmed, the empty ones left out; none if the key has no
    /// value. Whether a missing value is fatal
    /// (`should_panic`) is for the caller to act on: it is reported here
    /// either way.
    pub fn get_kv_arg_array_string(
        &self,
        name: &str,
        separator: &str,
        should_panic: bool,
        ext: bool,
    ) -> (parts: Option<Vec<String>>)
        ensures
            match parts {
                Some(list) => self@.kv(ext).dom().contains(name@) && texts(list@) == tokens_by(
                    self@.kv(ext)[name@],
                    separator@,
                    NO_LIMIT,
                    true,
                    true,
                ),
                None => !self@.kv(ext).dom().contains(name@),
            },
    {
        let value = if ext {
            self.ext_kv_args.get(name)
        } else {
            self.kv_args.get(name)
        };
        match value {
            Some(value) => Some(tokenize_by(value.as_str(), separator, NO_LIMIT, true, true)),
            None => None,
        }
    }

    /// The value of the key `name` on one side, trimmed; none if the key has
    /// no value. Whether a missing value is fatal
    /// (`should_panic`) is for the caller to act on: it is reported here
    /// either way.
    pub fn get_kv_arg_string(&self, name: &str, should_panic: bool, ext: bool) -> (value: Option<
        String,
    >)
        ensures
            match value {
                Some(text) => self@.kv(ext).dom().contains(name@) && text@ == trim(
                    self@.kv(ext)[name@],
                ),
                None => !self@.kv(ext).dom().contains(name@),
            },
    {
        let value = if ext {
            self.ext_kv_args.get(name)
        } else {
            self.kv_args.get(name)
        };
        match value {
            Some(value) => Some(trimmed_string(value.as_str())),
            None => None,
        }
    }

    /// The truth value that the key `name` has on one side: its value,
    /// trimmed and in lower case, read as `string_to_bool` reads it. A key
    /// without a value and a value that spells no truth value are errors. Whether
    /// an error is fatal (`should_panic`) is for the caller to act on: it is
    /// reported here either way.
    pub fn get_kv_arg_bool(&self, name: &str, should_panic: bool, ext: bool) -> (res: Result<
        bool,
        ValueError,
    >)
        ensures
            match res {
                Ok(value) => self@.kv(ext).dom().contains(name@) && if value {
                    means_true(lowercase_of(trim(self@.kv(ext)[name@])))
                } else {
                    means_false(lowercase_of(trim(self@.kv(ext)[name@])))
                },
                Err(e) => if self@.kv(ext).dom().contains(name@) {
                    let text = lowercase_of(trim(self@.kv(ext)[name@]));
                    !means_true(text) && !means_false(text) && e@ == ValueErrorView::NoBoolean(
                        text,
                    )
                } else {
                    e@ == ValueErrorView::MissingKey(name@)
                },
            },
    {
        let value = if ext {
            self.ext_kv_args.get(name)
        } else {
            self.kv_args.get(name)
        };
        match value {
            Some(value) => {
                let text = to_lowercase(trimmed_string(value.as_str()).as_str());
                string_to_bool(text.as_str())
            },
            None => Err(ValueError::MissingKey(name.to_owned())),
        }
    }

    /// The whole number that the key `name` has on one side: its value,
    /// trimmed and in lower case, read as `_string_to_i128` reads it. A key
    /// without a value and a value that spells no such number are errors. Whether
    /// an error is fatal (`should_panic`) is for the caller to act on: it is
    /// reported here either way.
    pub fn _get_kv_arg_i128(&self, name: &str, should_panic: bool, ext: bool) -> (res: Result<
        i128,
        ValueError,
    >)
        ensures
            match res {
                Ok(value) => self@.kv(ext).dom().contains(name@) && i128_of(
                    lowercase_of(trim(self@.kv(ext)[name@])),
                ) == Some(value),
                Err(e) => if self@.kv(ext).dom().contains(name@) {
                    let text = lowercase_of(trim(self@.kv(ext)[name@]));
                    i128_of(text) is None && e@ == ValueErrorView::NoInteger(text)
                } else {
                    e@ == ValueErrorView::MissingKey(name@)
                },
            },
    {
        let value = if ext {
            self.ext_kv_args.get(name)
        } else {
            self.kv_args.get(name)
        };
        match value {
            Some(value) => {
                let text = to_lowercase(trimmed_string(value.as_str()).as_str());
                _string_to_i128(text.as_str())
            },
            None => Err(ValueError::MissingKey(name.to_owned())),
        }
    }

    /// The truth value of the key `name` among the program's own arguments.
    pub fn get_bool_kv_arg(&self, name: &str, should_panic: bool) -> (res: Result<bool, ValueError>)
        ensures
            match res {
                Ok(value) => self@.kv_args.dom().contains(name@) && if value {
                    means_true(lowercase_of(trim(self@.kv_args[name@])))
                } else {
                    means_false(lowercase_of(trim(self@.kv_args[name@])))
                },
                Err(e) => if self@.kv_args.dom().contains(name@) {
                    let text = lowercase_of(trim(self@.kv_args[name@]));
                    !means_true(text) && !means_false(text) && e@ == ValueErrorView::NoBoolean(
                        text,
                    )
                } else {
                    e@ == ValueErrorView::MissingKey(name@)
                },
            },
    {
        self.get_kv_arg_bool(name, should_panic, false)
    }

    /// The truth value of the key `name` among the arguments of the other
    /// side.
    pub fn _get_bool_ext_kv_arg(&self, name: &str, should_panic: bool) -> (res: Result<
        bool,
        ValueError,
    >)
        ensures
            match res {
                Ok(value) => self@.ext_kv_args.dom().contains(name@) && if value {
                    means_true(lowercase_of(trim(self@.ext_kv_args[name@])))
                } else {
                    means_false(lowercase_of(trim(self@.ext_kv_args[name@])))
                },
                Err(e) => if self@.ext_kv_args.dom().contains(name@) {
                    let text = lowercase_of(trim(self@.ext_kv_args[name@]));
                    !means_true(text) && !means_false(text) && e@ == ValueErrorView::NoBoolean(
                        text,
                    )
                } else {
                    e@ == ValueErrorView::MissingKey(name@)
                },
            },
    {
        self.get_kv_arg_bool(name, should_panic, true)
    }

    /// The whole number of the key `name` among the program's own arguments.
    pub fn _get_i128_kv_arg(&self, name: &str, should_panic: bool) -> (res: Result<
        i128,
        ValueError,
    >)
        ensures
            match res {
                Ok(value) => self@.kv_args.dom().contains(name@) && i128_of(
                    lowercase_of(trim(self@.kv_args[name@])),
                ) == Some(value),
                Err(e) => if self@.kv_args.dom().contains(name@) {
                    let text = lowercase_of(trim(self@.kv_args[name@]));
                    i128_of(text) is None && e@ == ValueErrorView::NoInteger(text)
                } else {
                    e@ == ValueErrorView::MissingKey(name@)
                },
            },
    {
        self._get_kv_arg_i128(name, should_panic, false)
    }

    /// The whole number of the key `name` among the arguments of the other
    /// side.
    pub fn _get_i128_ext_kv_arg(&self, name: &str, should_panic: bool) -> (res: Result<
        i128,
        ValueError,
    >)
        ensures
            match res {
                Ok(value) => self@.ext_kv_args.dom().contains(name@) && i128_of(
                    lowercase_of(trim(self@.ext_kv_args[name@])),
                ) == Some(value),
                Err(e) => if self@.ext_kv_args.dom().contains(name@) {
                    let text = lowercase_of(trim(self@.ext_kv_args[name@]));
                    i128_of(text) is None && e@ == ValueErrorView::NoInteger(text)
                } else {
                    e@ == ValueErrorView::MissingKey(name@)
                },
            },
    {
        self._get_kv_arg_i128(name, should_panic, true)
    }

    /// Sorts one side of the command line by its rules.
    fn parse_side(
        mut args: Vec<String>,
        supported_kv_args: &[&str],
        supported_args: &[&str],
        args_to_merge: &[&[&str; 2]],
        default_kv_args: &TextMap<String>,
        default_args: &[&str],
        support_all_args: bool,
        support_main_arg: bool,
    ) -> (res: ((TextMap<String>, Vec<String>, String), Vec<String>))
        ensures
            ({
                let side = sorted_side(
                    texts(args@),
                    rules_of(
                        supported_kv_args,
                        supported_args,
                        args_to_merge,
                        default_kv_args,
                        default_args,
                        support_all_args,
                        support_main_arg,
                    ),
                );
                &&& text_values(res.0.0@) == side.kv
                &&& texts(res.0.1@) == side.args
                &&& res.0.2@ == side.main
                &&& texts(res.1@) == side.rest
            }),
    {
        let ghost raw = texts(args@);
        let mut parsed_kv_args: TextMap<String> = TextMap::new();
        let mut parsed_args: Vec<String> = Vec::new();
        let mut parsed_main_arg = String::new();
        if support_main_arg {
            if !args.is_empty() {
                let last = args.len() - 1;
                parsed_main_arg = args.remove(last);
                assert(texts(args@) =~= raw.drop_last());
            }
        }
        assert(text_values(parsed_kv_args@) =~= Map::<Seq<char>, Seq<char>>::empty());
        if support_all_args {
            core::mem::swap(&mut parsed_args, &mut args);
            assert(texts(args@) =~= Seq::<Seq<char>>::empty());
        } else {
            assert(texts(parsed_args@) =~= Seq::<Seq<char>>::empty());
            let ghost others = texts(args@);
            Self::process_fill_args(
                supported_kv_args,
                supported_args,
                &mut args,
                &mut parsed_kv_args,
                &mut parsed_args,
            );
            assert(texts(parsed_args@) =~= chosen(others, strs(supported_args@)));
        }
        Self::add_defaults(default_kv_args, default_args, &mut parsed_kv_args, &mut parsed_args);
        Self::merge_args(args_to_merge, &mut parsed_kv_args, &mut parsed_args);
        ((parsed_kv_args, parsed_args, parsed_main_arg), args)
    }

    /// Sorts the whole command line: splits it at `--`, leaves the program's
    /// path out, and sorts each side by its rules. What neither side could
    /// sort comes back last, the program's own leftovers first.
    fn parse_args(
        raw_args: Vec<String>,
        supported_kv_args: &[&str],
        supported_args: &[&str],
        supported_kv_ext_args: &[&str],
        supported_ext_args: &[&str],
        args_to_merge: &[&[&str; 2]],
        ext_args_to_merge: &[&[&str; 2]],
        default_kv_args: &TextMap<String>,
        default_args: &[&str],
        default_kv_ext_args: &TextMap<String>,
        default_ext_args: &[&str],
        support_all_args: bool,
        support_all_ext_args: bool,
        support_main_arg: bool,
        support_main_ext_arg: bool,
    ) -> (res: (
        (TextMap<String>, Vec<String>, String),
        (TextMap<String>, Vec<String>, String),
        Vec<String>,
    ))
        ensures
            (ArgParserView {
                kv_args: text_values(res.0.0@),
                args: texts(res.0.1@),
                main_arg: res.0.2@,
                ext_kv_args: text_values(res.1.0@),
                ext_args: texts(res.1.1@),
                ext_main_arg: res.1.2@,
                unknown_args: texts(res.2@),
            }) == sorted_command_line(
                texts(raw_args@),
                rules_of(
                    supported_kv_args,
                    supported_args,
                    args_to_merge,
                    default_kv_args,
                    default_args,
                    support_all_args,
                    support_main_arg,
                ),
                rules_of(
                    supported_kv_ext_args,
                    supported_ext_args,
                    ext_args_to_merge,
                    default_kv_ext_args,
                    default_ext_args,
                    support_all_ext_args,
                    support_main_ext_arg,
                ),
            ),
    {
        let (mut args, args_ext) = args_vec(raw_args, true);
        if !args.is_empty() {
            let ghost before = texts(args@);
            args.remove(0);
            assert(texts(args@) =~= before.drop_first());
        }
        let (own, mut unknown_args) = Self::parse_side(
            args,
            supported_kv_args,
            supported_args,
            args_to_merge,
            default_kv_args,
            default_args,
            support_all_args,
            support_main_arg,
        );
        let (ext, mut ext_rest) = Self::parse_side(
            args_ext,
            supported_kv_ext_args,
            supported_ext_args,
            ext_args_to_merge,
            default_kv_ext_args,
            default_ext_args,
            support_all_ext_args,
            support_main_ext_arg,
        );
        let ghost own_rest = texts(unknown_args@);
        let ghost other_rest = texts(ext_rest@);
        unknown_args.append(&mut ext_rest);
        assert(texts(unknown_args@) =~= own_rest + other_rest);
        (own, ext, unknown_args)
    }

    /// Takes the supported flags out of `args` into `parsed_args`, then lets
    /// each supported key in turn find its values among what is left: an
    /// argument that is the key takes the next argument as the value, and an
    /// argument that begins with the key and `=` holds the value itself.
    /// What is found leaves `args`. The places are counted as the arguments
    /// stood when the search for a key began, so after a find the search
    /// looks past its place: what it then removes is the argument that now
    /// stands there, and nothing if none does.
    fn process_fill_args(
        supported_kv_args: &[&str],
        supported_args: &[&str],
        args: &mut Vec<String>,
        parsed_kv_args: &mut TextMap<String>,
        parsed_args: &mut Vec<String>,
    )
        ensures
            texts(final(parsed_args)@) == texts(old(parsed_args)@) + chosen(
                texts(old(args)@),
                strs(supported_args@),
            ),
            ({
                let fill = kv_passes(
                    Fill {
                        rest: unchosen(texts(old(args)@), strs(supported_args@)),
                        kv: text_values(old(parsed_kv_args)@),
                    },
                    strs(supported_kv_args@),
                );
                &&& texts(final(args)@) == fill.rest
                &&& text_values(final(parsed_kv_args)@) == fill.kv
            }),
    {
        let ghost all_texts = texts(args@);
        let ghost flags0 = texts(parsed_args@);
        let ghost supported = strs(supported_args@);
        let mut all: Vec<String> = Vec::new();
        core::mem::swap(args, &mut all);
        let mut i: usize = 0;
        assert(texts(args@) =~= Seq::<Seq<char>>::empty());
        assert(all_texts.take(0) =~= Seq::<Seq<char>>::empty());
        assert(flags0 + Seq::<Seq<char>>::empty() =~= flags0);
        while i < all.len()
            invariant
                i <= all.len(),
                texts(all@) == all_texts,
                supported == strs(supported_args@),
                texts(parsed_args@) == flags0 + chosen(all_texts.take(i as int), supported),
                texts(args@) == unchosen(all_texts.take(i as int), supported),
            decreases all.len() - i,
        {
            let ghost flags = texts(parsed_args@);
            let ghost left = texts(args@);
            proof {
                assert(all_texts.take(i + 1).drop_last() =~= all_texts.take(i as int));
                assert(all_texts.take(i + 1).last() == all@[i as int]@);
            }
            if list_has(supported_args, all[i].as_str()) {
                parsed_args.push(all[i].clone());
                proof {
                    assert(texts(parsed_args@) =~= flags.push(all@[i as int]@));
                    assert(flags.push(all@[i as int]@) =~= flags0 + chosen(
                        all_texts.take(i as int),
                        supported,
                    ).push(all@[i as int]@));
                }
            } else {
                args.push(all[i].clone());
                assert(texts(args@) =~= left.push(all@[i as int]@));
            }
            i += 1;
        }
        assert(all_texts.take(all.len() as int) =~= all_texts);

        let ghost start = Fill { rest: texts(args@), kv: text_values(parsed_kv_args@) };
        let ghost keys = strs(supported_kv_args@);
        let mut k: usize = 0;
        assert(keys.take(0) =~= Seq::<Seq<char>>::empty());
        while k < supported_kv_args.len()
            invariant
                k <= supported_kv_args.len(),
                keys == strs(supported_kv_args@),
                (Fill { rest: texts(args@), kv: text_values(parsed_kv_args@) }) == kv_passes(
                    start,
                    keys.take(k as int),
                ),
            decreases supported_kv_args.len() - k,
        {
            let supported_arg = supported_kv_args[k];
            proof {
                assert(keys.take(k + 1).drop_last() =~= keys.take(k as int));
                assert(keys.take(k + 1).last() == supported_arg@);
            }
            Self::find_values(supported_arg, args, parsed_kv_args);
            k += 1;
        }
        assert(keys.take(supported_kv_args.len() as int) =~= keys);
    }

    /// Lets one key find its values among `args`, as `process_fill_args`
    /// tells.
    fn find_values(supported_arg: &str, args: &mut Vec<String>, parsed_kv_args: &mut TextMap<String>)
        ensures
            (Fill { rest: texts(final(args)@), kv: text_values(final(parsed_kv_args)@) })
                == kv_scan(
                Fill { rest: texts(old(args)@), kv: text_values(old(parsed_kv_args)@) },
                supported_arg@,
                texts(old(args)@),
                old(args)@.len(),
            ),
    {
        let ghost start = Fill { rest: texts(args@), kv: text_values(parsed_kv_args@) };
        let ghost key = supported_arg@;
        let snapshot = clone_texts(args);
        let mut supported_arg_postfix = chars_of(supported_arg);
        supported_arg_postfix.push('=');
        let mut equals: Vec<char> = Vec::new();
        equals.push('=');
        assert(equals@ =~= seq!['=']);
        assert(supported_arg_postfix@ =~= key + seq!['=']);
        let mut iarg_index: usize = 0;
        while iarg_index < snapshot.len()
            invariant
                iarg_index <= snapshot.len(),
                texts(snapshot@) == start.rest,
                key == supported_arg@,
                equals@ == seq!['='],
                supported_arg_postfix@ == key + seq!['='],
                (Fill { rest: texts(args@), kv: text_values(parsed_kv_args@) }) == kv_scan(
                    start,
                    key,
                    start.rest,
                    iarg_index as nat,
                ),
            decreases snapshot.len() - iarg_index,
        {
            let iarg = &snapshot[iarg_index];
            let ghost now = Fill { rest: texts(args@), kv: text_values(parsed_kv_args@) };
            assert(start.rest[iarg_index as int] == iarg@);
            if text_eq(iarg.as_str(), supported_arg) {
                if args.len() > iarg_index + 1 {
                    args.remove(iarg_index);
                    let value = args.remove(iarg_index);
                    proof {
                        assert(texts(args@) =~= now.rest.remove(iarg_index as int).remove(
                            iarg_index as int,
                        ));
                        assert(value@ == now.rest[iarg_index + 1]);
                        lemma_text_values_insert(parsed_kv_args@, key, value);
                    }
                    parsed_kv_args.insert(supported_arg.to_owned(), value);
                }
            } else {
                let chars = chars_of(iarg.as_str());
                if matches_at(&chars, &supported_arg_postfix, 0) {
                    proof {
                        assert(chars@.skip(0) =~= chars@);
                        lemma_first_match(chars@, seq!['=']);
                        let n = key.len() as int;
                        assert(chars@.subrange(n, n + 1) =~= seq!['=']) by {
                            assert(chars@.subrange(0, n + 1)[n] == '=');
                        }
                        assert(stands_at(chars@, seq!['='], key.len() as int));
                    }
                    match find_from(&chars, &equals, 0) {
                        Some(at) => {
                            let mut value = String::new();
                            push_range(&mut value, &chars, at + 1, chars.len());
                            proof {
                                assert(value@ =~= assigned(iarg@));
                                lemma_text_values_insert(parsed_kv_args@, key, value);
                            }
                            parsed_kv_args.insert(supported_arg.to_owned(), value);
                        },
                        None => {
                            assert(false);
                        },
                    }
                    if iarg_index < args.len() {
                        args.remove(iarg_index);
                        assert(texts(args@) =~= now.rest.remove(iarg_index as int));
                    }
                }
            }
            iarg_index += 1;
        }
    }

    /// Gives every default key that has no value its default value, and
    /// repeats at the end of the flags each default flag that is among them
    /// already.
    fn add_defaults(
        default_kv_args: &TextMap<String>,
        default_args: &[&str],
        parsed_kv_args: &mut TextMap<String>,
        parsed_args: &mut Vec<String>,
    )
        ensures
            text_values(final(parsed_kv_args)@) == text_values(
                default_kv_args@,
            ).union_prefer_right(text_values(old(parsed_kv_args)@)),
            texts(final(parsed_args)@) == with_default_args(
                texts(old(parsed_args)@),
                strs(default_args@),
            ),
    {
        let ghost kv0 = text_values(parsed_kv_args@);
        let ghost entries = default_kv_args.entries();
        let count = default_kv_args.len();
        let mut i: usize = 0;
        proof {
            default_kv_args.lemma_view();
            assert(entries.take(0) =~= Seq::<(String, String)>::empty());
            assert(text_values(map_of(entries.take(0))).union_prefer_right(kv0) =~= kv0);
        }
        while i < count
            invariant
                i <= count == entries.len(),
                entries == default_kv_args.entries(),
                distinct_keys(entries),
                text_values(parsed_kv_args@) == text_values(
                    map_of(entries.take(i as int)),
                ).union_prefer_right(kv0),
            decreases count - i,
        {
            let (iarg, iarg_value) = match default_kv_args.entry_at(i) {
                Some(entry) => entry,
                None => {
                    assert(false);
                    return ;
                },
            };
            let ghost had = text_values(parsed_kv_args@);
            let ghost done = map_of(entries.take(i as int));
            proof {
                assert(entries.take(i + 1).drop_last() =~= entries.take(i as int));
                assert(entries.take(i + 1).last() == entries[i as int]);
                assert(distinct_keys(entries.take(i as int))) by {
                    assert forall|a: int, b: int| 0 <= a < b < i implies (
                    #[trigger] entries.take(i as int)[a]).0@ != (
                    #[trigger] entries.take(i as int)[b]).0@ by {
                        assert(entries[a].0@ != entries[b].0@);
                    }
                }
                crate::text_map::lemma_map_has(entries.take(i as int), iarg@);
                if crate::text_map::has_key(entries.take(i as int), iarg@) {
                    let a = choose|a: int|
                        0 <= a < i && (#[trigger] entries.take(i as int)[a]).0@ == iarg@;
                    assert(entries[a].0@ != entries[i as int].0@);
                }
                assert(!done.dom().contains(iarg@));
                assert(!text_values(done).dom().contains(iarg@));
                assert(had.dom().contains(iarg@) == parsed_kv_args@.dom().contains(iarg@));
            }
            if !parsed_kv_args.contains_key(iarg.as_str()) {
                proof {
                    lemma_text_values_insert(parsed_kv_args@, iarg@, *iarg_value);
                }
                parsed_kv_args.insert(iarg.clone(), iarg_value.clone());
            }
            proof {
                let next = text_values(map_of(entries.take(i + 1)));
                lemma_text_values_insert(map_of(entries.take(i as int)), iarg@, *iarg_value);
                assert(text_values(parsed_kv_args@) =~= next.union_prefer_right(kv0));
            }
            i += 1;
        }
        assert(entries.take(count as int) =~= entries);

        let ghost flags0 = texts(parsed_args@);
        let ghost defaults = strs(default_args@);
        let mut j: usize = 0;
        assert(defaults.take(0) =~= Seq::<Seq<char>>::empty());
        while j < default_args.len()
            invariant
                j <= default_args.len(),
                defaults == strs(default_args@),
                texts(parsed_args@) == with_default_args(flags0, defaults.take(j as int)),
            decreases default_args.len() - j,
        {
            let iarg = default_args[j];
            let ghost flags = texts(parsed_args@);
            proof {
                assert(defaults.take(j + 1).drop_last() =~= defaults.take(j as int));
                assert(defaults.take(j + 1).last() == iarg@);
            }
            if texts_have(parsed_args, iarg) {
                parsed_args.push(iarg.to_owned());
                assert(texts(parsed_args@) =~= flags.push(iarg@));
            }
            j += 1;
        }
        assert(defaults.take(default_args.len() as int) =~= defaults);
    }

    /// Lets every short name give way to its long name, pair by pair: among
    /// the flags the first short name leaves and the long name comes last;
    /// among the keys the value of the short name moves to the long name.
    fn merge_args(
        merge_args: &[&[&str; 2]],
        parsed_kv_args: &mut TextMap<String>,
        parsed_args: &mut Vec<String>,
    )
        ensures
            texts(final(parsed_args)@) == merged_args(
                texts(old(parsed_args)@),
                pairs_of(merge_args@),
            ),
            text_values(final(parsed_kv_args)@) == merged_kv(
                text_values(old(parsed_kv_args)@),
                pairs_of(merge_args@),
            ),
    {
        let ghost flags0 = texts(parsed_args@);
        let ghost kv0 = text_values(parsed_kv_args@);
        let ghost pairs = pairs_of(merge_args@);
        let mut i: usize = 0;
        assert(pairs.take(0) =~= Seq::<(Seq<char>, Seq<char>)>::empty());
        while i < merge_args.len()
            invariant
                i <= merge_args.len(),
                pairs == pairs_of(merge_args@),
                texts(parsed_args@) == merged_args(flags0, pairs.take(i as int)),
                text_values(parsed_kv_args@) == merged_kv(kv0, pairs.take(i as int)),
            decreases merge_args.len() - i,
        {
            let to_merge_args = merge_args[i];
            let long = to_merge_args[0];
            let short = to_merge_args[1];
            let ghost flags = texts(parsed_args@);
            proof {
                assert(pairs.take(i + 1).drop_last() =~= pairs.take(i as int));
                assert(pairs.take(i + 1).last() == (long@, short@));
                lemma_place_of(flags, short@);
            }
            match find_text(parsed_args, short) {
                Some(place) => {
                    parsed_args.remove(place);
                    parsed_args.push(long.to_owned());
                    assert(texts(parsed_args@) =~= flags.remove(place as int).push(long@));
                },
                None => {},
            }
            let ghost had = parsed_kv_args@;
            match parsed_kv_args.remove(short) {
                Some(value) => {
                    proof {
                        lemma_text_values_remove(had, short@);
                        lemma_text_values_insert(had.remove(short@), long@, value);
                    }
                    parsed_kv_args.insert(long.to_owned(), value);
                },
                None => {
                    assert(had.remove(short@) =~= had);
                },
            }
            i += 1;
        }
        assert(pairs.take(merge_args.len() as int) =~= pairs);
    }
}

} // verus!
