use log_streamer::arg_parser::{args_to_string, args_vec, ArgParser};
use log_streamer::error::ValueError;
use log_streamer::stats::Stats;
use log_streamer::text_map::TextMap;

fn owned(list: &[&str]) -> Vec<String> {
    list.iter().map(|s| s.to_string()).collect()
}

fn map_of(pairs: &[(&str, &str)]) -> TextMap<String> {
    let mut map = TextMap::new();
    for (key, value) in pairs {
        map.insert(key.to_string(), value.to_string());
    }
    map
}

fn parse(raw: &[&str]) -> ArgParser {
    ArgParser::new(
        owned(raw),
        &["--context", "-c", "--save", "-f", "--since", "-t"],
        &["--help", "-h", "--save", "-f", "--quiet", "-q"],
        &[],
        &[],
        &[&["--context", "-c"], &["--help", "-h"], &["--save", "-f"], &["--quiet", "-q"], &["--since", "-t"]],
        &[],
        &map_of(&[("--context", "default"), ("--since", "1h")]),
        &[],
        &map_of(&[]),
        &[],
        false,
        true,
        false,
        false,
    )
}

#[test]
fn stats_start_at_zero() {
    let stats = Stats::new();
    assert_eq!(stats.total_logs, 0);
    assert_eq!(stats.filtered_out_logs, 0);
    assert_eq!(stats.printed_logs, 0);
}

#[test]
fn text_map_behaves_as_a_map() {
    let mut map: TextMap<String> = TextMap::new();
    assert!(map.is_empty());
    assert_eq!(map.insert("b".to_string(), "1".to_string()), None);
    assert_eq!(map.insert("a".to_string(), "2".to_string()), None);
    assert_eq!(map.insert("b".to_string(), "3".to_string()), Some("1".to_string()));
    assert_eq!(map.len(), 2);
    assert!(map.contains_key("a"));
    assert!(!map.contains_key("c"));
    assert_eq!(map.get("b"), Some(&"3".to_string()));
    assert_eq!(map.entry_at(0), Some((&"b".to_string(), &"3".to_string())));
    assert_eq!(map.entry_at(1), Some((&"a".to_string(), &"2".to_string())));
    assert_eq!(map.entry_at(2), None);
    assert_eq!(map.remove("b"), Some("3".to_string()));
    assert_eq!(map.remove("b"), None);
    assert_eq!(map.len(), 1);
    assert_eq!(map.get("b"), None);
}

#[test]
fn arguments_split_at_the_dashes() {
    let (own, ext) = args_vec(owned(&["exe", "-a", "--", "x", "--", "y"]), true);
    assert_eq!(own, owned(&["exe", "-a"]));
    assert_eq!(ext, owned(&["x", "y"]));
    let (own, ext) = args_vec(owned(&["exe", "-a", "--", "x"]), false);
    assert_eq!(own, owned(&["exe", "-a", "--", "x"]));
    assert_eq!(ext, owned(&[]));
    let (own, ext) = args_vec(owned(&[]), true);
    assert!(own.is_empty() && ext.is_empty());
    assert_eq!(args_to_string(&owned(&["exe", "-a", "b c"])), "exe -a b c");
}

#[test]
fn flags_keys_and_leftovers_are_sorted() {
    let parser = parse(&["exe", "-q", "-c", "dev,prod", "--since=5m", "bogus", "--", "nginx", "-x"]);
    assert_eq!(parser.args, owned(&["--quiet"]));
    assert_eq!(parser.kv_args.len(), 2);
    assert_eq!(parser.kv_args.get("--context"), Some(&"dev,prod".to_string()));
    assert_eq!(parser.kv_args.get("--since"), Some(&"5m".to_string()));
    assert_eq!(parser.main_arg, "");
    assert_eq!(parser.ext_args, owned(&["nginx", "-x"]));
    assert!(parser.ext_kv_args.is_empty());
    assert_eq!(parser.ext_main_arg, "");
    assert_eq!(parser.unknown_args, owned(&["bogus"]));
    assert_eq!(parser.ext_args_as_str_vec(), owned(&["nginx", "-x"]));
    assert_eq!(parser._args_as_str_vec(), vec!["--quiet"]);
}

#[test]
fn defaults_fill_what_is_missing() {
    let parser = parse(&["exe", "--", "nginx"]);
    assert_eq!(parser.kv_args.get("--context"), Some(&"default".to_string()));
    assert_eq!(parser.kv_args.get("--since"), Some(&"1h".to_string()));
    assert!(parser.args.is_empty());
    assert!(parser.unknown_args.is_empty());
}

#[test]
fn a_flag_that_is_also_a_key_is_taken_as_a_flag() {
    let parser = parse(&["exe", "--save", "-f", "out.txt"]);
    assert_eq!(parser.args, owned(&["--save", "--save"]));
    assert_eq!(parser.kv_args.get("--save"), None);
    assert_eq!(parser.unknown_args, owned(&["out.txt"]));
    let parser = parse(&["exe", "--save=out.txt", "-f=x=y"]);
    assert_eq!(parser.kv_args.get("--save"), Some(&"x=y".to_string()));
    assert!(parser.unknown_args.is_empty());
}

#[test]
fn places_are_counted_as_they_stood() {
    let parser = parse(&["exe", "--since=1", "--since=2", "z"]);
    assert_eq!(parser.kv_args.get("--since"), Some(&"2".to_string()));
    assert_eq!(parser.unknown_args, owned(&["--since=2"]));
    let parser = parse(&["exe", "-c", "x", "-c=y"]);
    assert_eq!(parser.kv_args.get("--context"), Some(&"y".to_string()));
    assert_eq!(parser.unknown_args, owned(&["-c=y"]));
    let parser = parse(&["exe", "-c"]);
    assert_eq!(parser.kv_args.get("--context"), Some(&"default".to_string()));
    assert_eq!(parser.unknown_args, owned(&["-c"]));
}

#[test]
fn main_arguments_and_all_arguments() {
    let parser = ArgParser::new(
        owned(&["exe", "a", "b", "--", "c", "d"]),
        &[],
        &[],
        &[],
        &["c"],
        &[],
        &[],
        &map_of(&[]),
        &["a", "zz"],
        &map_of(&[("k", "v")]),
        &[],
        true,
        false,
        true,
        true,
    );
    assert_eq!(parser.main_arg, "b");
    assert_eq!(parser.args, owned(&["a", "a"]));
    assert_eq!(parser.ext_main_arg, "d");
    assert_eq!(parser.ext_args, owned(&["c"]));
    assert_eq!(parser.ext_kv_args.get("k"), Some(&"v".to_string()));
    assert!(parser.unknown_args.is_empty());
    let parser = ArgParser::new(
        owned(&[]),
        &[],
        &[],
        &[],
        &[],
        &[],
        &[],
        &map_of(&[]),
        &[],
        &map_of(&[]),
        &[],
        false,
        false,
        true,
        true,
    );
    assert_eq!(parser.main_arg, "");
    assert!(parser.args.is_empty());
}

#[test]
fn values_are_read_as_asked() {
    let mut parser = parse(&["exe"]);
    parser.kv_args.insert("--list".to_string(), " a, b ,,c ".to_string());
    parser.kv_args.insert("--flag".to_string(), " YES ".to_string());
    parser.kv_args.insert("--count".to_string(), " -12 ".to_string());
    parser.ext_kv_args.insert("--flag".to_string(), "0".to_string());
    parser.ext_kv_args.insert("--count".to_string(), "seven".to_string());
    assert_eq!(
        parser.get_kv_arg_array_string("--list", ",", false, false),
        Some(owned(&["a", "b", "c"]))
    );
    assert_eq!(parser.get_kv_arg_array_string("--list", ",", false, true), None);
    assert_eq!(
        parser.get_kv_arg_string("--list", false, false),
        Some("a, b ,,c".to_string())
    );
    assert_eq!(parser.get_kv_arg_string("--none", false, false), None);
    assert_eq!(parser.get_bool_kv_arg("--flag", true), Ok(true));
    assert_eq!(parser._get_bool_ext_kv_arg("--flag", false), Ok(false));
    assert_eq!(
        parser.get_bool_kv_arg("--list", false),
        Err(ValueError::NoBoolean("a, b ,,c".to_string()))
    );
    assert_eq!(
        parser.get_bool_kv_arg("--none", false),
        Err(ValueError::MissingKey("--none".to_string()))
    );
    assert_eq!(parser.get_kv_arg_bool("--flag", false, true), Ok(false));
    assert_eq!(parser._get_i128_kv_arg("--count", false), Ok(-12));
    assert_eq!(
        parser._get_i128_ext_kv_arg("--count", false),
        Err(ValueError::NoInteger("seven".to_string()))
    );
    assert_eq!(
        parser._get_kv_arg_i128("--none", false, true),
        Err(ValueError::MissingKey("--none".to_string()))
    );
}

#[test]
fn the_description_lists_every_field() {
    let parser = parse(&["exe", "-q", "-c", "a\"b", "x", "--", "nginx"]);
    assert_eq!(
        parser.to_string(),
        "kv_args={\"--context\": \"a\\\"b\", \"--since\": \"1h\"}, args=[\"--quiet\"], main_arg=\"\", ext_kv_args={}, ext_args=[\"nginx\"], ext_main_arg=\"\", unknown_args=[\"x\"]"
    );
}
