use log_streamer::arg_parser::ArgParser;
use log_streamer::error::ValueError;
use log_streamer::kubectl::Context;
use log_streamer::program::{
    check_required_binaries, clean_args, contexts_from_arg, generate_log_filename,
    get_app_exe_name, get_full_app_name, get_log_filename, log_filename_for, log_name_request,
    parse_args, print_options_from_args, should_print_usages, stern_args, ArgsError, LogName,
    StreamOptions, APP_NAME, APP_VERSION,
};

fn owned(list: &[&str]) -> Vec<String> {
    list.iter().map(|s| s.to_string()).collect()
}

fn parsed(raw: &[&str]) -> ArgParser {
    parse_args(owned(raw)).unwrap()
}

#[test]
fn the_name_carries_the_version() {
    assert_eq!(get_full_app_name(), format!("{} v{}", APP_NAME, APP_VERSION));
}

#[test]
fn the_first_missing_program_is_reported() {
    assert_eq!(check_required_binaries(&Ok(()), &Ok(())), Ok(()));
    assert_eq!(
        check_required_binaries(&Err("cannot find binary path".to_string()), &Err("x".to_string())),
        Err("Make sure \"kubectl\" exists in your PATH (cannot find binary path)".to_string())
    );
    assert_eq!(
        check_required_binaries(&Ok(()), &Err("gone".to_string())),
        Err("Make sure \"https://github.com/stern/stern\" exists in your PATH, get it from stern (gone)".to_string())
    );
}

#[test]
fn the_file_name_is_the_last_part_of_the_path() {
    assert_eq!(get_app_exe_name(&owned(&["/usr/local/bin/tool", "-x"])), Some("tool".to_string()));
    assert_eq!(get_app_exe_name(&owned(&["tool"])), Some("tool".to_string()));
    assert_eq!(get_app_exe_name(&owned(&[])), None);
    assert_eq!(get_app_exe_name(&owned(&["/usr/.."])), None);
}

#[test]
fn the_log_file_is_named_after_the_arguments() {
    assert_eq!(
        log_filename_for(&owned(&["exe", "--save", "--", "nginx-1", "  a_b "]), "2025-01-02-03-04-05"),
        Some(format!("{}-save-nginx-1-a-b-2025-01-02-03-04-05.txt", APP_NAME))
    );
    assert_eq!(log_filename_for(&owned(&["exe"]), "now"), None);
    assert_eq!(log_filename_for(&owned(&[]), "now"), None);
    assert_eq!(
        log_filename_for(&owned(&["exe", "--"]), "now"),
        Some(format!("{}--now.txt", APP_NAME))
    );
    assert_eq!(generate_log_filename(&owned(&["exe"])), None);
    let name = generate_log_filename(&owned(&["exe", "q"])).unwrap();
    assert!(name.starts_with(&format!("{}-q-", APP_NAME)));
    assert!(name.ends_with(".txt"));
    assert_eq!(name.len(), APP_NAME.len() + 3 + 19 + 4);
}

#[test]
fn the_log_is_named_as_asked() {
    let raw = owned(&["exe", "--", "q"]);
    let args = parsed(&["exe", "--", "q"]);
    assert!(matches!(log_name_request(&args), LogName::NoLog));
    assert_eq!(get_log_filename(&args, &raw), None);
    let args = parsed(&["exe", "-f= out.txt ", "--", "q"]);
    assert!(matches!(log_name_request(&args), LogName::Given(name) if name == "out.txt"));
    assert_eq!(get_log_filename(&args, &raw), Some("out.txt".to_string()));
    let args = parsed(&["exe", "--save=", "--", "q"]);
    assert!(matches!(log_name_request(&args), LogName::Generated));
    assert!(get_log_filename(&args, &raw).unwrap().ends_with(".txt"));
    let args = parsed(&["exe", "--save", "--", "q"]);
    assert!(matches!(log_name_request(&args), LogName::Generated));
    assert_eq!(get_log_filename(&args, &owned(&["exe"])), None);
}

#[test]
fn stern_is_started_with_these_arguments() {
    let ext = owned(&["nginx", "-n", "web"]);
    assert_eq!(
        stern_args("dev", true, &"5m".to_string(), &ext, false),
        owned(&[
            "--context", "dev", "--all-namespaces", "--output", "json", "--timestamps=short",
            "--since", "5m", "--timezone", "UTC", "--no-follow", "nginx", "-n", "web"
        ])
    );
    assert_eq!(
        stern_args("dev", true, &"1h".to_string(), &owned(&[]), true),
        owned(&[
            "--context", "dev", "--all-namespaces", "--output", "json", "--timestamps=short",
            "--since", "1h", "--timezone", "UTC"
        ])
    );
    assert_eq!(
        stern_args("prod", false, &"1h".to_string(), &ext, false),
        owned(&["--context", "prod", "nginx", "-n", "web"])
    );
}

#[test]
fn contexts_are_named_between_commas() {
    assert_eq!(contexts_from_arg("all"), None);
    assert_eq!(
        contexts_from_arg(" dev, ,prod ,"),
        Some(vec![Context::named("dev".to_string()), Context::named("prod".to_string())])
    );
    assert_eq!(contexts_from_arg(""), Some(vec![]));
    assert_eq!(contexts_from_arg("All"), Some(vec![Context::named("All".to_string())]));
}

#[test]
fn the_command_line_is_sorted_by_the_rules() {
    let args = parsed(&["exe", "-q", "-c", "dev", "-a", "YES", "-g", "--", "nginx"]);
    assert_eq!(args.args, owned(&["--quiet", "--follow"]));
    assert_eq!(args.kv_args.get("--context"), Some(&"dev".to_string()));
    assert_eq!(args.kv_args.get("--all-at-once"), Some(&"YES".to_string()));
    assert_eq!(args.kv_args.get("--since"), Some(&"1h".to_string()));
    assert_eq!(args.kv_args.get("--stern-defaults"), Some(&"true".to_string()));
    assert_eq!(args.kv_args.len(), 9);
    assert_eq!(args.ext_args, owned(&["nginx"]));
    assert!(!should_print_usages(&args));
    assert!(should_print_usages(&parsed(&["exe"])));
    assert!(should_print_usages(&parsed(&["exe", "-h", "--", "nginx"])));
}

#[test]
fn a_bad_command_line_is_refused() {
    assert_eq!(
        parse_args(owned(&["exe", "-a", "maybe", "-s", "perhaps"])).err(),
        Some(ArgsError::Value(ValueError::NoBoolean("maybe".to_string())))
    );
    assert_eq!(
        parse_args(owned(&["exe", "-s", " Perhaps ", "bogus"])).err(),
        Some(ArgsError::Value(ValueError::NoBoolean("perhaps".to_string())))
    );
    let error = parse_args(owned(&["exe", "bogus", "-x", "--", "nginx"])).unwrap_err();
    assert_eq!(error, ArgsError::Unknown(owned(&["bogus", "-x"])));
    assert_eq!(error.message(), "Unknown parameter(s): [\"bogus\", \"-x\"]");
    assert_eq!(
        ArgsError::Value(ValueError::NoBoolean("x".to_string())).message(),
        "\"x\" no boolean value"
    );
}

#[test]
fn all_containers_are_none_in_particular() {
    let mut args = parsed(&["exe", "-i", "all", "--", "q"]);
    assert!(args.kv_args.contains_key("--include-container"));
    clean_args(&mut args);
    assert!(!args.kv_args.contains_key("--include-container"));
    let mut args = parsed(&["exe", "-i", "app,side", "--", "q"]);
    clean_args(&mut args);
    assert_eq!(args.kv_args.get("--include-container"), Some(&"app,side".to_string()));
    let options = print_options_from_args(&args).unwrap();
    assert_eq!(options.include_container, Some(owned(&["app", "side"])));
    assert!(options.fix_up_messages);
    assert!(options.space_after_message);
    assert!(!options.pretty_print_objects);
    assert!(!options.skip_invalid_messages);
    assert!(!options.blank_line_after_entry);
}

#[test]
fn the_options_are_read_from_the_arguments() {
    let args = parsed(&["exe", "-d", "no", "-a", "1", "-t", " 2h ", "-q", "--", "nginx", "-l", "x"]);
    let options = StreamOptions::from_args(&args).unwrap();
    assert!(!options.stern_defaults);
    assert!(options.all_contexts_at_once);
    assert!(options.quiet);
    assert!(!options.follow);
    assert_eq!(options.since, "2h");
    assert_eq!(options.ext_args, owned(&["nginx", "-l", "x"]));
    let mut args = parsed(&["exe"]);
    args.kv_args.remove("--since");
    assert_eq!(
        StreamOptions::from_args(&args).err(),
        Some(ValueError::MissingKey("--since".to_string()))
    );
    args.kv_args.remove("--fix-up-messages");
    assert_eq!(
        print_options_from_args(&args).err(),
        Some(ValueError::MissingKey("--fix-up-messages".to_string()))
    );
}
