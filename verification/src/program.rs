//! The program around the streams: its name, the rules of its command line
//! and what it makes of the arguments.

use crate::arg_parser::{
    debug_list, debug_of_list, lemma_text_values_insert, pairs_of, sorted_command_line,
    text_values, texts_have, ArgParser, ArgParserView, Rules,
};
use crate::clock::{current_datetime_string, datetime_format, time_format_accepted};
use crate::search::first_match;
use crate::command_streamer::command_streamer::clone_texts;
use crate::error::{ValueError, ValueErrorView};
use crate::kubectl::{context_views, Context, ContextView};
use crate::message::PrintOptions;
use crate::replace::{replace_text, replaced};
use crate::string_utils::{
    letter_or_blank, lemma_true_is_not_false, means_false, means_true, normalize_spaces,
    replace_non_alphabetic_with_space, strs, tokenize_by, tokens_by, NO_LIMIT,
};
use crate::text::{join, joined, lowercase_of, text_eq, texts, trim, trimmed_string, words};
use crate::text_map::TextMap;
use vstd::prelude::*;
use vstd::string::StringExecFns;

verus! {

/// The program's name.
pub const APP_NAME: &'static str = "log-streamer";

/// The program's version.
pub const APP_VERSION: &'static str = "0.1.0";

/// The program that lists the contexts.
pub const BINARY_KUBECTL: &'static str = "kubectl";

/// The program that follows the logs.
pub const BINARY_STERN: &'static str = "stern";

/// Where the program that follows the logs is to be had.
pub const BINARY_STERN_URL: &'static str = "https://github.com/stern/stern";

/// The program's name with its version.
pub fn get_full_app_name() -> (name: String)
    ensures
        name@ == APP_NAME@ + " v"@ + APP_VERSION@,
{
    let mut name = APP_NAME.to_owned();
    name.append(" v");
    name.append(APP_VERSION);
    name
}

/// What is said when a program that is needed was not found.
pub open spec fn missing_binary(
    kubectl: Result<(), String>,
    stern: Result<(), String>,
) -> Option<Seq<char>> {
    match kubectl {
        Err(reason) => Some(
            "Make sure \""@ + BINARY_KUBECTL@ + "\" exists in your PATH ("@ + reason@ + ")"@,
        ),
        Ok(_) => match stern {
            Err(reason) => Some(
                "Make sure \""@ + BINARY_STERN_URL@ + "\" exists in your PATH, get it from "@
                    + BINARY_STERN@ + " ("@ + reason@ + ")"@,
            ),
            Ok(_) => None,
        },
    }
}

/// Tells whether the programs that are needed were found, given how the
/// search for each went: the reason where it failed. The first that is
/// missing is reported.
pub fn check_required_binaries(kubectl: &Result<(), String>, stern: &Result<(), String>) -> (res:
    Result<(), String>)
    ensures
        match missing_binary(*kubectl, *stern) {
            Some(text) => res matches Err(e) && e@ == text,
            None => res is Ok,
        },
{
    match kubectl {
        Err(err) => {
            let mut text = "Make sure \"".to_owned();
            text.append(BINARY_KUBECTL);
            text.append("\" exists in your PATH (");
            text.append(err.as_str());
            text.append(")");
            return Err(text);
        },
        Ok(_) => {},
    }
    match stern {
        Err(err) => {
            let mut text = "Make sure \"".to_owned();
            text.append(BINARY_STERN_URL);
            text.append("\" exists in your PATH, get it from ");
            text.append(BINARY_STERN);
            text.append(" (");
            text.append(err.as_str());
            text.append(")");
            return Err(text);
        },
        Ok(_) => {},
    }
    Ok(())
}

/// `Path::file_name` gives the last part of a path, if it has one that is
/// no `..`, and `OsStr::to_str` its text if that is valid Unicode. What
/// counts as a part depends on the system, so it is not said when there is
/// a name; a name that is given is a part of the path, and so stands in it.
#[verifier::external_body]
fn file_name_of(path: &str) -> (name: Option<String>)
    ensures
        name matches Some(part) ==> first_match(path@, part@) >= 0,
{
    Some(std::path::Path::new(path).file_name()?.to_str()?.to_string())
}

/// The name of the program's file: the last part of the path that the
/// command line begins with, which stands in that path. None if the
/// command line is empty or the path has no such part.
pub fn get_app_exe_name(args: &Vec<String>) -> (name: Option<String>)
    ensures
        args@.len() == 0 ==> name is None,
        name matches Some(part) ==> args@.len() > 0 && first_match(args@[0]@, part@) >= 0,
{
    if args.len() == 0 {
        return None;
    }
    file_name_of(args[0].as_str())
}

/// The arguments as a part of a file name: put together with blanks, every
/// character that is neither alphabetic nor numeric turned into a blank,
/// the words then joined with `-`.
pub open spec fn name_part(args: Seq<Seq<char>>) -> Seq<char> {
    replaced(
        joined(words(joined(args, seq![' ']).map_values(|c: char| letter_or_blank(c))), seq![' ']),
        seq![' '],
        seq!['-'],
        None,
    )
}

/// The name of the log file for a command line and a time: the program's
/// name, the arguments and the time, with `-` between them, and `.txt`.
/// None for a command line without arguments.
pub open spec fn log_filename(args: Seq<Seq<char>>, now: Seq<char>) -> Option<Seq<char>> {
    if args.len() <= 1 {
        None
    } else {
        Some(APP_NAME@ + "-"@ + name_part(args.drop_first()) + "-"@ + now + ".txt"@)
    }
}

/// The name of the log file for the command line `args`, which begins with
/// the program's path, and the time `now`.
pub fn log_filename_for(args: &Vec<String>, now: &str) -> (name: Option<String>)
    ensures
        crate::json::texts_agree(name, log_filename(texts(args@), now@)),
{
    if args.len() <= 1 {
        return None;
    }
    let mut own = clone_texts(args);
    own.remove(0);
    assert(texts(own@) =~= texts(args@).drop_first());
    proof {
        reveal_strlit(" ");
        reveal_strlit("-");
        assert(" "@ =~= seq![' ']);
        assert("-"@ =~= seq!['-']);
    }
    let line = join(&own, " ");
    let filename = replace_text(
        normalize_spaces(&replace_non_alphabetic_with_space(&line)).as_str(),
        " ",
        "-",
        None,
    );
    let mut name = APP_NAME.to_owned();
    name.append("-");
    name.append(filename.as_str());
    name.append("-");
    name.append(now);
    name.append(".txt");
    Some(name)
}

/// The format by which the time is written into the name of a log file.
pub open spec fn log_time_format() -> Seq<char> {
    datetime_format("-"@, "-"@, "-"@)
}

/// The name of the log file for the command line `args` and the time that
/// it is now: the name that `log_filename` gives for the command line and
/// the time as `log_time_format` writes it. None for a command line without
/// arguments; else there is a name exactly if the time can be written.
pub fn generate_log_filename(args: &Vec<String>) -> (name: Option<String>)
    ensures
        texts(args@).len() <= 1 ==> name is None,
        texts(args@).len() > 1 ==> (name is Some <==> time_format_accepted(log_time_format())),
        name matches Some(text) ==> exists|now: Seq<char>|
            #[trigger] log_filename(texts(args@), now) == Some(text@),
{
    if args.len() <= 1 {
        return None;
    }
    let dash = "-".to_owned();
    match current_datetime_string(&dash, &dash, &dash) {
        Some(now) => log_filename_for(args, now.as_str()),
        None => None,
    }
}

/// Where the log is to be written.
pub enum LogName {
    /// Nowhere.
    NoLog,
    /// To a file whose name is made of the command line and the time.
    Generated,
    /// To the file of this name.
    Given(String),
}

/// What the arguments ask for the log: the file that `--save` names; a
/// generated name if `--save` has an empty value or is given as a flag;
/// else no log.
pub open spec fn log_name_asked(args: ArgParserView) -> Option<Option<Seq<char>>> {
    if args.kv_args.dom().contains("--save"@) {
        if trim(args.kv_args["--save"@]).len() == 0 {
            Some(None)
        } else {
            Some(Some(trim(args.kv_args["--save"@])))
        }
    } else if args.args.contains("--save"@) {
        Some(None)
    } else {
        None
    }
}

/// What the arguments ask for the log.
pub fn log_name_request(args: &ArgParser) -> (request: LogName)
    ensures
        match request {
            LogName::NoLog => log_name_asked(args@) is None,
            LogName::Generated => log_name_asked(args@) == Some(None::<Seq<char>>),
            LogName::Given(name) => log_name_asked(args@) == Some(Some(name@)),
        },
{
    match args.kv_args.get("--save") {
        Some(value) => {
            let filename = trimmed_string(value.as_str());
            if filename.as_str().is_empty() {
                LogName::Generated
            } else {
                LogName::Given(filename)
            }
        },
        None => {
            if texts_have(&args.args, "--save") {
                LogName::Generated
            } else {
                LogName::NoLog
            }
        },
    }
}

/// The name of the log file that the arguments ask for, before it is made
/// a full path: none if no log is asked for, the name given if there is
/// one, else a name generated from the command line `raw_args`.
pub fn get_log_filename(args: &ArgParser, raw_args: &Vec<String>) -> (name: Option<String>)
    ensures
        match log_name_asked(args@) {
            None => name is None,
            Some(Some(given)) => name matches Some(text) && text@ == given,
            Some(None) => texts(raw_args@).len() <= 1 ==> name is None,
        },
{
    match log_name_request(args) {
        LogName::NoLog => None,
        LogName::Given(name) => Some(name),
        LogName::Generated => generate_log_filename(raw_args),
    }
}

/// The arguments with which `stern` is started for one context: the
/// context; with the defaults, all namespaces, JSON output, short
/// timestamps, the time to look back, the time zone UTC, and no following
/// unless following is asked for; then the arguments given for `stern`.
pub open spec fn stern_args_of(
    context: Seq<char>,
    stern_defaults: bool,
    since: Seq<char>,
    ext_args: Seq<Seq<char>>,
    follow: bool,
) -> Seq<Seq<char>> {
    seq!["--context"@, context] + (if stern_defaults {
        seq![
            "--all-namespaces"@,
            "--output"@,
            "json"@,
            "--timestamps=short"@,
            "--since"@,
            since,
            "--timezone"@,
            "UTC"@,
        ] + (if follow {
            Seq::<Seq<char>>::empty()
        } else {
            seq!["--no-follow"@]
        })
    } else {
        Seq::<Seq<char>>::empty()
    }) + ext_args
}

/// The arguments with which `stern` is started for one context.
pub fn stern_args(
    context: &str,
    arg_stern_defaults: bool,
    arg_since: &String,
    arg_ext_args: &Vec<String>,
    arg_follow: bool,
) -> (args: Vec<String>)
    ensures
        texts(args@) == stern_args_of(
            context@,
            arg_stern_defaults,
            arg_since@,
            texts(arg_ext_args@),
            arg_follow,
        ),
{
    let mut stern_args: Vec<String> = Vec::new();
    stern_args.push("--context".to_owned());
    stern_args.push(context.to_owned());
    if arg_stern_defaults {
        stern_args.push("--all-namespaces".to_owned());
        stern_args.push("--output".to_owned());
        stern_args.push("json".to_owned());
        stern_args.push("--timestamps=short".to_owned());
        stern_args.push("--since".to_owned());
        stern_args.push(arg_since.clone());
        stern_args.push("--timezone".to_owned());
        stern_args.push("UTC".to_owned());
        if !arg_follow {
            stern_args.push("--no-follow".to_owned());
        }
    }
    let ghost head = texts(stern_args@);
    let mut rest = clone_texts(arg_ext_args);
    stern_args.append(&mut rest);
    proof {
        assert(texts(stern_args@) =~= head + texts(arg_ext_args@));
        assert(texts(stern_args@) =~= stern_args_of(
            context@,
            arg_stern_defaults,
            arg_since@,
            texts(arg_ext_args@),
            arg_follow,
        ));
    }
    stern_args
}

/// The contexts that the argument names, by name only.
pub open spec fn named_contexts(names: Seq<Seq<char>>) -> Seq<ContextView> {
    Seq::new(
        names.len(),
        |i: int|
            ContextView {
                current: false,
                name: names[i],
                cluster: Seq::empty(),
                auth_info: Seq::empty(),
                namespace: Seq::empty(),
            },
    )
}

/// The contexts that the value of `--context` names: none for `all`, which
/// asks for every context there is; else one for each name between commas,
/// trimmed, the empty ones left out.
pub fn contexts_from_arg(arg_context: &str) -> (contexts: Option<Vec<Context>>)
    ensures
        match contexts {
            None => arg_context@ == "all"@,
            Some(list) => arg_context@ != "all"@ && context_views(list@) == named_contexts(
                tokens_by(arg_context@, seq![','], NO_LIMIT, true, true),
            ),
        },
{
    if text_eq(arg_context, "all") {
        return None;
    }
    proof {
        reveal_strlit(",");
        assert(","@ =~= seq![',']);
    }
    let names = tokenize_by(arg_context, ",", NO_LIMIT, true, true);
    let mut contexts: Vec<Context> = Vec::new();
    let mut i: usize = 0;
    while i < names.len()
        invariant
            i <= names.len(),
            context_views(contexts@) == named_contexts(texts(names@)).take(i as int),
        decreases names.len() - i,
    {
        let ghost before = context_views(contexts@);
        let context = Context::named(names[i].clone());
        contexts.push(context);
        i += 1;
        proof {
            assert(context_views(contexts@) =~= before.push(context@));
            assert(context@ == named_contexts(texts(names@))[i - 1]);
            assert(context_views(contexts@) =~= named_contexts(texts(names@)).take(i as int));
        }
    }
    assert(named_contexts(texts(names@)).take(names.len() as int) =~= named_contexts(
        texts(names@),
    ));
    Some(contexts)
}

/// The truth value of a key: its value, trimmed and in lower case, read as
/// a truth value.
pub open spec fn flag_value(kv: Map<Seq<char>, Seq<char>>, key: Seq<char>) -> Result<
    bool,
    ValueErrorView,
> {
    if !kv.dom().contains(key) {
        Err(ValueErrorView::MissingKey(key))
    } else {
        let text = lowercase_of(trim(kv[key]));
        if means_true(text) {
            Ok(true)
        } else if means_false(text) {
            Ok(false)
        } else {
            Err(ValueErrorView::NoBoolean(text))
        }
    }
}

/// The result with its error as texts.
pub open spec fn flag_view(res: Result<bool, ValueError>) -> Result<bool, ValueErrorView> {
    match res {
        Ok(value) => Ok(value),
        Err(e) => Err(e@),
    }
}

/// The truth value of a key among the program's own arguments.
pub fn flag(args: &ArgParser, name: &str) -> (res: Result<bool, ValueError>)
    ensures
        flag_view(res) == flag_value(args@.kv_args, name@),
{
    proof {
        if args@.kv_args.dom().contains(name@) {
            lemma_true_is_not_false(lowercase_of(trim(args@.kv_args[name@])));
        }
    }
    args.get_bool_kv_arg(name, false)
}

/// How the streams are to be run.
pub struct StreamOptions {
    pub stern_defaults: bool,
    pub all_contexts_at_once: bool,
    pub ext_args: Vec<String>,
    pub quiet: bool,
    pub follow: bool,
    pub since: String,
}

impl StreamOptions {
    /// Reads from the arguments how the streams are to be run. The first
    /// key that is missing or does not read as asked is the error.
    pub fn from_args(args: &ArgParser) -> (res: Result<Self, ValueError>)
        ensures
            match res {
                Ok(options) => {
                    &&& flag_value(args@.kv_args, "--stern-defaults"@) == Ok::<
                        bool,
                        ValueErrorView,
                    >(options.stern_defaults)
                    &&& flag_value(args@.kv_args, "--all-at-once"@) == Ok::<bool, ValueErrorView>(
                        options.all_contexts_at_once,
                    )
                    &&& texts(options.ext_args@) == args@.ext_args
                    &&& options.quiet == args@.args.contains("--quiet"@)
                    &&& options.follow == args@.args.contains("--follow"@)
                    &&& args@.kv_args.dom().contains("--since"@)
                    &&& options.since@ == trim(args@.kv_args["--since"@])
                },
                Err(e) => match flag_value(args@.kv_args, "--stern-defaults"@) {
                    Err(first) => e@ == first,
                    Ok(_) => match flag_value(args@.kv_args, "--all-at-once"@) {
                        Err(second) => e@ == second,
                        Ok(_) => !args@.kv_args.dom().contains("--since"@) && e@
                            == ValueErrorView::MissingKey("--since"@),
                    },
                },
            },
    {
        let stern_defaults = match flag(args, "--stern-defaults") {
            Ok(value) => value,
            Err(e) => {
                return Err(e);
            },
        };
        let all_contexts_at_once = match flag(args, "--all-at-once") {
            Ok(value) => value,
            Err(e) => {
                return Err(e);
            },
        };
        let ext_args = args.ext_args_as_str_vec();
        let quiet = texts_have(&args.args, "--quiet");
        let follow = texts_have(&args.args, "--follow");
        let since = match args.get_kv_arg_string("--since", false, false) {
            Some(value) => value,
            None => {
                return Err(ValueError::MissingKey("--since".to_owned()));
            },
        };
        Ok(StreamOptions { stern_defaults, all_contexts_at_once, ext_args, quiet, follow, since })
    }
}

/// The containers that the arguments ask for, if they name any.
pub open spec fn containers_asked(kv: Map<Seq<char>, Seq<char>>) -> Option<Seq<Seq<char>>> {
    if kv.dom().contains("--include-container"@) {
        Some(tokens_by(kv["--include-container"@], seq![','], NO_LIMIT, true, true))
    } else {
        None
    }
}

/// Reads from the arguments how messages are to be tidied and printed. The
/// first key that is missing or does not read as a truth value is the
/// error.
pub fn print_options_from_args(args: &ArgParser) -> (res: Result<PrintOptions, ValueError>)
    ensures
        match res {
            Ok(options) => {
                let kv = args@.kv_args;
                let o = options@;
                &&& flag_value(kv, "--skip-invalid-messages"@) == Ok::<bool, ValueErrorView>(
                    o.skip_invalid_messages,
                )
                &&& flag_value(kv, "--blank-line-after-entry"@) == Ok::<bool, ValueErrorView>(
                    o.blank_line_after_entry,
                )
                &&& flag_value(kv, "--space-after-message"@) == Ok::<bool, ValueErrorView>(
                    o.space_after_message,
                )
                &&& o.include_container == containers_asked(kv)
                &&& flag_value(kv, "--fix-up-messages"@) == Ok::<bool, ValueErrorView>(
                    o.fix_up_messages,
                )
                &&& flag_value(kv, "--pretty-print-objects"@) == Ok::<bool, ValueErrorView>(
                    o.pretty_print_objects,
                )
            },
            Err(e) => {
                let kv = args@.kv_args;
                ||| flag_value(kv, "--skip-invalid-messages"@) == Err::<bool, ValueErrorView>(e@)
                ||| flag_value(kv, "--blank-line-after-entry"@) == Err::<bool, ValueErrorView>(e@)
                ||| flag_value(kv, "--space-after-message"@) == Err::<bool, ValueErrorView>(e@)
                ||| flag_value(kv, "--fix-up-messages"@) == Err::<bool, ValueErrorView>(e@)
                ||| flag_value(kv, "--pretty-print-objects"@) == Err::<bool, ValueErrorView>(e@)
            },
        },
{
    let skip_invalid_messages = match flag(args, "--skip-invalid-messages") {
        Ok(value) => value,
        Err(e) => {
            return Err(e);
        },
    };
    let blank_line_after_entry = match flag(args, "--blank-line-after-entry") {
        Ok(value) => value,
        Err(e) => {
            return Err(e);
        },
    };
    let space_after_message = match flag(args, "--space-after-message") {
        Ok(value) => value,
        Err(e) => {
            return Err(e);
        },
    };
    proof {
        reveal_strlit(",");
        assert(","@ =~= seq![',']);
    }
    let include_container = args.get_kv_arg_array_string("--include-container", ",", false, false);
    let fix_up_messages = match flag(args, "--fix-up-messages") {
        Ok(value) => value,
        Err(e) => {
            return Err(e);
        },
    };
    let pretty_print_objects = match flag(args, "--pretty-print-objects") {
        Ok(value) => value,
        Err(e) => {
            return Err(e);
        },
    };
    Ok(
        PrintOptions {
            skip_invalid_messages,
            blank_line_after_entry,
            include_container,
            fix_up_messages,
            pretty_print_objects,
            space_after_message,
        },
    )
}

/// Takes `--include-container` out of the keys where it asks for `all`
/// containers, which is to ask for none in particular.
pub fn clean_args(args: &mut ArgParser)
    ensures
        final(args)@ == (if old(args)@.kv_args.dom().contains("--include-container"@) && old(
            args,
        )@.kv_args["--include-container"@] == "all"@ {
            ArgParserView {
                kv_args: old(args)@.kv_args.remove("--include-container"@),
                ..old(args)@
            }
        } else {
            old(args)@
        }),
{
    let all = match args.kv_args.get("--include-container") {
        Some(include_container) => text_eq(include_container.as_str(), "all"),
        None => false,
    };
    if all {
        proof {
            crate::arg_parser::lemma_text_values_remove(
                args.kv_args@,
                "--include-container"@,
            );
        }
        args.kv_args.remove("--include-container");
    }
}

/// Whether the usage is to be printed: it is asked for with `--help`, or
/// nothing is given for `stern` to look for.
pub fn should_print_usages(args: &ArgParser) -> (usage: bool)
    ensures
        usage == (args@.args.contains("--help"@) || args@.ext_args.len() == 0),
{
    texts_have(&args.args, "--help") || args.ext_args.len() == 0
}

/// Why the command line is refused.
#[derive(Debug, Clone, PartialEq, Eq)]
pub enum ArgsError {
    /// A key does not have the value it needs.
    Value(ValueError),
    /// These arguments are not known.
    Unknown(Vec<String>),
}

impl ArgsError {
    /// The text that describes the error.
    pub fn message(&self) -> (text: String)
        ensures
            text@ == match self {
                ArgsError::Value(e) => e@.message(),
                ArgsError::Unknown(list) => "Unknown parameter(s): "@ + debug_of_list(texts(list@)),
            },
    {
        match self {
            ArgsError::Value(e) => e.message(),
            ArgsError::Unknown(list) => {
                let mut text = "Unknown parameter(s): ".to_owned();
                text.append(debug_list(list).as_str());
                text
            },
        }
    }
}

/// The rules for the program's own arguments: the keys and flags it knows,
/// each with its short name, and the defaults of the keys.
pub open spec fn own_rules() -> Rules {
    Rules {
        supported_kv: seq![
            "--context"@,
            "-c"@,
            "--stern-defaults"@,
            "-d"@,
            "--all-at-once"@,
            "-a"@,
            "--skip-invalid-messages"@,
            "-s"@,
            "--blank-line-after-entry"@,
            "-b"@,
            "--include-container"@,
            "-i"@,
            "--save"@,
            "-f"@,
            "--work-dir"@,
            "-w"@,
            "--fix-up-messages"@,
            "-m"@,
            "--pretty-print-objects"@,
            "-p"@,
            "--since"@,
            "-t"@,
            "--space-after-message"@,
            "-r"@,
        ],
        supported: seq![
            "--help"@,
            "-h"@,
            "--save"@,
            "-f"@,
            "--quiet"@,
            "-q"@,
            "--follow"@,
            "-g"@,
        ],
        merges: seq![
            ("--context"@, "-c"@),
            ("--help"@, "-h"@),
            ("--stern-defaults"@, "-d"@),
            ("--all-at-once"@, "-a"@),
            ("--skip-invalid-messages"@, "-s"@),
            ("--blank-line-after-entry"@, "-b"@),
            ("--include-container"@, "-i"@),
            ("--save"@, "-f"@),
            ("--quiet"@, "-q"@),
            ("--work-dir"@, "-w"@),
            ("--fix-up-messages"@, "-m"@),
            ("--pretty-print-objects"@, "-p"@),
            ("--since"@, "-t"@),
            ("--space-after-message"@, "-r"@),
            ("--follow"@, "-g"@),
        ],
        default_kv: Map::<Seq<char>, Seq<char>>::empty().insert("--context"@, "default"@).insert(
            "--stern-defaults"@,
            "true"@,
        ).insert("--all-at-once"@, "false"@).insert("--skip-invalid-messages"@, "false"@).insert(
            "--blank-line-after-entry"@,
            "false"@,
        ).insert("--fix-up-messages"@, "true"@).insert("--pretty-print-objects"@, "false"@).insert(
            "--since"@,
            "1h"@,
        ).insert("--space-after-message"@, "true"@),
        defaults: Seq::empty(),
        support_all: false,
        support_main: false,
    }
}

/// The rules for the arguments after `--`: all of them are passed on.
pub open spec fn ext_rules() -> Rules {
    Rules {
        supported_kv: Seq::empty(),
        supported: Seq::empty(),
        merges: Seq::empty(),
        default_kv: Map::empty(),
        defaults: Seq::empty(),
        support_all: true,
        support_main: false,
    }
}

/// The keys that must read as truth values, in the order in which they are
/// looked at.
pub open spec fn checked_flags() -> Seq<Seq<char>> {
    seq![
        "--stern-defaults"@,
        "--all-at-once"@,
        "--skip-invalid-messages"@,
        "--blank-line-after-entry"@,
        "--fix-up-messages"@,
        "--pretty-print-objects"@,
        "--space-after-message"@,
    ]
}

/// The error of the first of the keys that does not read as a truth value.
pub open spec fn first_flag_error(kv: Map<Seq<char>, Seq<char>>, keys: Seq<Seq<char>>) -> Option<
    ValueErrorView,
>
    decreases keys.len(),
{
    if keys.len() == 0 {
        None
    } else {
        match flag_value(kv, keys[0]) {
            Err(e) => Some(e),
            Ok(_) => first_flag_error(kv, keys.drop_first()),
        }
    }
}

/// Gives a key a value.
fn put(map: &mut TextMap<String>, key: &str, value: &str)
    ensures
        text_values(final(map)@) == text_values(old(map)@).insert(key@, value@),
{
    let text = value.to_owned();
    proof {
        lemma_text_values_insert(map@, key@, text);
    }
    map.insert(key.to_owned(), text);
}

/// Sorts the command line `raw_args`, which begins with the program's
/// path, by the program's rules. It is refused if one of the keys that
/// must read as a truth value does not, and else if arguments are left
/// that the program does not know.
pub fn parse_args(raw_args: Vec<String>) -> (res: Result<ArgParser, ArgsError>)
    ensures
        ({
            let parsed = sorted_command_line(texts(raw_args@), own_rules(), ext_rules());
            match first_flag_error(parsed.kv_args, checked_flags()) {
                Some(error) => res matches Err(ArgsError::Value(e)) && e@ == error,
                None => if parsed.unknown_args.len() > 0 {
                    res matches Err(ArgsError::Unknown(list)) && texts(list@)
                        == parsed.unknown_args
                } else {
                    res matches Ok(args) && args@ == parsed
                },
            }
        }),
{
    let supported_kv_args: [&str; 24] = [
        "--context",
        "-c",
        "--stern-defaults",
        "-d",
        "--all-at-once",
        "-a",
        "--skip-invalid-messages",
        "-s",
        "--blank-line-after-entry",
        "-b",
        "--include-container",
        "-i",
        "--save",
        "-f",
        "--work-dir",
        "-w",
        "--fix-up-messages",
        "-m",
        "--pretty-print-objects",
        "-p",
        "--since",
        "-t",
        "--space-after-message",
        "-r",
    ];
    let supported_args: [&str; 8] = [
        "--help",
        "-h",
        "--save",
        "-f",
        "--quiet",
        "-q",
        "--follow",
        "-g",
    ];
    let args_to_merge: [&[&str; 2]; 15] = [
        &["--context", "-c"],
        &["--help", "-h"],
        &["--stern-defaults", "-d"],
        &["--all-at-once", "-a"],
        &["--skip-invalid-messages", "-s"],
        &["--blank-line-after-entry", "-b"],
        &["--include-container", "-i"],
        &["--save", "-f"],
        &["--quiet", "-q"],
        &["--work-dir", "-w"],
        &["--fix-up-messages", "-m"],
        &["--pretty-print-objects", "-p"],
        &["--since", "-t"],
        &["--space-after-message", "-r"],
        &["--follow", "-g"],
    ];
    let nothing: [&str; 0] = [];
    let no_merges: [&[&str; 2]; 0] = [];
    let mut default_kv_args: TextMap<String> = TextMap::new();
    assert(text_values(default_kv_args@) =~= Map::<Seq<char>, Seq<char>>::empty());
    put(&mut default_kv_args, "--context", "default");
    put(&mut default_kv_args, "--stern-defaults", "true");
    put(&mut default_kv_args, "--all-at-once", "false");
    put(&mut default_kv_args, "--skip-invalid-messages", "false");
    put(&mut default_kv_args, "--blank-line-after-entry", "false");
    put(&mut default_kv_args, "--fix-up-messages", "true");
    put(&mut default_kv_args, "--pretty-print-objects", "false");
    put(&mut default_kv_args, "--since", "1h");
    put(&mut default_kv_args, "--space-after-message", "true");
    let no_defaults: TextMap<String> = TextMap::new();
    proof {
        assert(text_values(no_defaults@) =~= Map::<Seq<char>, Seq<char>>::empty());
        assert(strs(supported_kv_args@) =~= own_rules().supported_kv);
        assert(strs(supported_args@) =~= own_rules().supported);
        assert(pairs_of(args_to_merge@) =~= own_rules().merges);
        assert(strs(nothing@) =~= Seq::<Seq<char>>::empty());
        assert(pairs_of(no_merges@) =~= Seq::<(Seq<char>, Seq<char>)>::empty());
    }
    let ghost wanted = sorted_command_line(texts(raw_args@), own_rules(), ext_rules());
    let parsed = ArgParser::new(
        raw_args,
        &supported_kv_args,
        &supported_args,
        &nothing,
        &nothing,
        &args_to_merge,
        &no_merges,
        &default_kv_args,
        &nothing,
        &no_defaults,
        &nothing,
        false,
        true,
        false,
        false,
    );
    let flags: [&str; 7] = [
        "--stern-defaults",
        "--all-at-once",
        "--skip-invalid-messages",
        "--blank-line-after-entry",
        "--fix-up-messages",
        "--pretty-print-objects",
        "--space-after-message",
    ];
    let ghost keys = checked_flags();
    assert(strs(flags@) =~= keys);
    assert(keys.skip(0) =~= keys);
    let mut i: usize = 0;
    while i < 7
        invariant
            i <= 7,
            keys == checked_flags(),
            strs(flags@) == keys,
            parsed@ == wanted,
            wanted == sorted_command_line(texts(raw_args@), own_rules(), ext_rules()),
            first_flag_error(parsed@.kv_args, keys) == first_flag_error(
                parsed@.kv_args,
                keys.skip(i as int),
            ),
        decreases 7 - i,
    {
        proof {
            assert(keys.skip(i as int)[0] == flags@[i as int]@);
            assert(keys.skip(i as int).drop_first() =~= keys.skip(i + 1));
        }
        match flag(&parsed, flags[i]) {
            Ok(_) => {},
            Err(e) => {
                return Err(ArgsError::Value(e));
            },
        }
        i += 1;
    }
    if parsed.unknown_args.len() > 0 {
        return Err(ArgsError::Unknown(clone_texts(&parsed.unknown_args)));
    }
    Ok(parsed)
}

} // verus!
