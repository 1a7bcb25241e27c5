use log_streamer::clock::{current_datetime_string, datetime_format_string};
use log_streamer::json::json_to_hashmap;
use log_streamer::log_entries::print_parsed_stern_json;
use log_streamer::message::{
    _pretty_print_objects, fix_up_message, fix_up_message_by_regex, print_json_exc_info_message,
    print_json_proxy, print_raw_message, replace_by_regex, PrintOptions,
};
use log_streamer::message_regex::{MessageRegEx, MIXED_OBJECT_1, START_TIMESTAMP_1, START_TIMESTAMP_2};
use log_streamer::replace::replace_text;
use log_streamer::stats::Stats;
use log_streamer::stern_json::SternJSON;
use log_streamer::stern_json_regex::{PatternError, SternJSONRegEx};

fn patterns() -> MessageRegEx {
    MessageRegEx::new().unwrap()
}

fn options() -> PrintOptions {
    PrintOptions {
        skip_invalid_messages: false,
        blank_line_after_entry: false,
        include_container: None,
        fix_up_messages: true,
        pretty_print_objects: false,
        space_after_message: false,
    }
}

fn entry(message: &str, container: &str) -> String {
    let mut members = serde_json::Map::new();
    members.insert("message".to_string(), serde_json::Value::String(message.to_string()));
    members.insert("nodeName".to_string(), serde_json::Value::String(" node ".to_string()));
    members.insert("namespace".to_string(), serde_json::Value::String("ns".to_string()));
    members.insert("podName".to_string(), serde_json::Value::String("pod-1".to_string()));
    members.insert("containerName".to_string(), serde_json::Value::String(container.to_string()));
    serde_json::Value::Object(members).to_string()
}

#[test]
fn text_is_replaced_as_the_standard_library_does() {
    for (text, pattern, to) in [
        ("a-b-c", "-", "+"),
        ("aaa", "aa", "b"),
        ("abc", "", "-"),
        ("", "", "x"),
        ("abc", "x", "y"),
        ("é-é", "é", ""),
    ] {
        assert_eq!(replace_text(text, pattern, to, None), text.replace(pattern, to));
        for n in 0..4 {
            assert_eq!(
                replace_text(text, pattern, to, Some(n)),
                text.replacen(pattern, to, n),
                "replacen {:?} {:?} {}",
                text,
                pattern,
                n
            );
        }
    }
}

#[test]
fn the_stern_patterns_compile() {
    let regex = SternJSONRegEx::new().unwrap();
    assert!(regex.full_timestamp_and_message.starts_with("^(?P<full_timestamp>"));
    assert!(regex.short_timestamp_and_message.starts_with("^(?P<short_timestamp>"));
}

#[test]
fn the_message_patterns_compile() {
    let regex = MessageRegEx::new().unwrap();
    assert_eq!(regex.start_timestamp_1, START_TIMESTAMP_1);
    assert_eq!(regex.start_timestamp_2, START_TIMESTAMP_2);
    assert_eq!(regex.mixed_object_1, MIXED_OBJECT_1);
    let text = "a {\"k\": {\"n\": 1}} b".to_string();
    assert_eq!(
        replace_by_regex(&text, &regex.mixed_object_1, &"#".to_string()),
        Some("a {\"k\": #} b".to_string())
    );
    let error = PatternError { pattern: "(".to_string() };
    assert_eq!(error.pattern, "(");
}

#[test]
fn json_objects_are_read_member_by_member() {
    let object = json_to_hashmap("{\"a\": \"x\", \"b\": 5, \"c\": {\"d\": [1, null]}}").unwrap();
    assert_eq!(object.members.len(), 3);
    let a = object.members.get("a").unwrap();
    assert_eq!(a.text, Some("x".to_string()));
    assert_eq!(a.display, "\"x\"");
    let b = object.members.get("b").unwrap();
    assert_eq!(b.text, None);
    assert_eq!(b.display, "5");
    assert_eq!(object.members.get("c").unwrap().display, "{\"d\":[1,null]}");
    assert!(json_to_hashmap("[1, 2]").is_none());
    assert!(json_to_hashmap("{broken").is_none());
    assert!(json_to_hashmap("\"text\"").is_none());
    let twice = json_to_hashmap("{\"k\": 1, \"k\": 2}").unwrap();
    assert_eq!(twice.members.len(), 1);
    assert_eq!(twice.members.get("k").unwrap().display, "2");
    assert_eq!(twice.debug, "{\"k\": Number(2)}");
}

#[test]
fn lines_are_read_as_entries() {
    let regex = SternJSONRegEx::new().unwrap();
    let lines = format!(
        "{}\n\n  not json  \n{}\n{}\n{{\"message\": \"x\"}}\n{}\n",
        entry(" 2021-08-26T21:52:09.123+02:00 hello world ", "app"),
        entry("08-26 22:08:51 {\"message\": \"inner\"}", "side"),
        entry("{\"a\": 1}", "app"),
        "{\"message\": 1, \"nodeName\": \"n\", \"namespace\": \"n\", \"podName\": \"p\", \"containerName\": \"c\"}",
    );
    let parsed = SternJSON::parse(&lines, Some(&regex));
    assert_eq!(parsed.len(), 6);

    assert!(parsed[0].is_valid);
    assert_eq!(parsed[0].timestamp, "2021-08-26T21:52:09.123+02:00");
    assert_eq!(parsed[0].message, "hello world");
    assert_eq!(parsed[0].node_name, "node");
    assert_eq!(parsed[0].namespace, "ns");
    assert_eq!(parsed[0].pod_name, "pod-1");
    assert_eq!(parsed[0].container_name, "app");
    assert!(parsed[0].internal_json_message.is_none());

    assert!(!parsed[1].is_valid);
    assert_eq!(parsed[1].raw, "not json");
    assert_eq!(parsed[1].message, "");

    assert!(parsed[2].is_valid);
    assert_eq!(parsed[2].timestamp, "08-26 22:08:51");
    assert_eq!(parsed[2].message, "{\"message\": \"inner\"}");
    let inner = parsed[2].internal_json_message.as_ref().unwrap();
    assert_eq!(inner.members.get("message").unwrap().text, Some("inner".to_string()));

    assert!(parsed[3].is_valid);
    assert_eq!(parsed[3].timestamp, "");
    assert_eq!(parsed[3].message, "{\"a\": 1}");
    assert!(parsed[3].internal_json_message.is_some());

    assert!(!parsed[4].is_valid);
    assert!(!parsed[5].is_valid);
    assert_eq!(parsed[5].pod_name, "");

    let plain = SternJSON::parse(&entry("08-26 22:08:51 text", "app"), None);
    assert_eq!(plain[0].timestamp, "");
    assert_eq!(plain[0].message, "08-26 22:08:51 text");
    assert!(SternJSON::parse(" \n\n", None).is_empty());
}

#[test]
fn what_a_pattern_finds_gives_way() {
    let s = "ab 123 cd 123".to_string();
    assert_eq!(
        replace_by_regex(&s, "\\d+", &"#".to_string()),
        Some("ab # cd 123".to_string())
    );
    assert_eq!(replace_by_regex(&s, "x+", &"#".to_string()), None);
    assert_eq!(replace_by_regex(&s, "(", &"#".to_string()), None);
    assert_eq!(
        replace_by_regex(&"aXa".to_string(), "a$", &"-".to_string()),
        Some("-Xa".to_string())
    );
}

#[test]
fn timestamps_come_off_the_front() {
    let regex = patterns();
    let first = "20250902140313.122[ERR][service.views, function (file.py:618)][NULL]: failed  ".to_string();
    assert_eq!(fix_up_message_by_regex(&first, &regex), Some("failed".to_string()));
    let second = "2025-09-02 12:58:52.123 INFO [140358121944832] started".to_string();
    assert_eq!(
        fix_up_message_by_regex(&second, &regex),
        Some("[140358121944832] started".to_string())
    );
    assert_eq!(fix_up_message_by_regex(&"plain".to_string(), &regex), None);
}

#[test]
fn messages_are_tidied_as_asked() {
    let regex = patterns();
    let message = "2025-09-02 12:58:52 WARN  careful \t".to_string();
    assert_eq!(fix_up_message(&message, false, false, false, &regex), None);
    assert_eq!(
        fix_up_message(&message, true, false, false, &regex),
        Some("careful".to_string())
    );
    assert_eq!(
        fix_up_message(&message, false, false, true, &regex),
        Some("2025-09-02 12:58:52 WARN  careful ".to_string())
    );
    assert_eq!(
        fix_up_message(&"plain".to_string(), true, true, false, &regex),
        None
    );
    assert_eq!(
        fix_up_message(&"plain".to_string(), true, true, true, &regex),
        Some("plain ".to_string())
    );
}

#[test]
fn long_objects_are_printed_prettily() {
    let regex = patterns();
    let object = "{\"first_member\": \"a value that is long enough\", \"second\": \"to pass the limit\"}";
    assert!(object.len() >= 64);
    let pretty = jsonxf::pretty_print(object).unwrap();
    let message = format!("before {} between {{}} {{\"k\":1}} {} after", object, object);
    let expected = format!("before {} between {{}} {{\"k\":1}} {} after", pretty, pretty);
    assert_eq!(_pretty_print_objects(&message, &regex), Some(expected));
    assert_eq!(_pretty_print_objects(&"{} {\"k\":1} {no key at all but long enough to pass the limit of sixty-four}".to_string(), &regex), None);
    assert_eq!(_pretty_print_objects(&"nothing".to_string(), &regex), None);
    let odd = "{\"first_member\": a value that is long enough, \"second\": 'to pass the limit'}".to_string();
    assert_eq!(_pretty_print_objects(&odd, &regex), jsonxf::pretty_print(&odd).ok());
}

#[test]
fn a_batch_is_printed_and_counted() {
    let regex = patterns();
    let lines = format!(
        "{}\nnot json\n{}\n{}\n",
        entry("2025-09-02 12:58:52 INFO  hello", "app"),
        entry("ignored", "side"),
        entry("{\"message\": \"inner\", \"request_id\": 7}", "app"),
    );
    let parsed = SternJSON::parse(&lines, Some(&SternJSONRegEx::new().unwrap()));
    let mut stats = Stats::new();
    let mut opts = options();
    opts.include_container = Some(vec!["app".to_string()]);
    opts.blank_line_after_entry = true;
    opts.space_after_message = true;
    let printed = print_parsed_stern_json("ctx", &parsed, &opts, &regex, &mut stats);
    assert_eq!(
        printed,
        vec![
            "ctx pod-1 app     hello ".to_string(),
            String::new(),
            "not json ".to_string(),
            String::new(),
            "ctx pod-1 app     inner ".to_string(),
            String::new(),
        ]
    );
    assert_eq!(stats.total_logs, 4);
    assert_eq!(stats.filtered_out_logs, 1);
    assert_eq!(stats.printed_logs, 3);

    opts.skip_invalid_messages = true;
    opts.include_container = None;
    opts.blank_line_after_entry = false;
    opts.space_after_message = false;
    let printed = print_parsed_stern_json("ctx", &parsed, &opts, &regex, &mut stats);
    assert_eq!(
        printed,
        vec![
            "ctx pod-1 app     hello".to_string(),
            "ctx pod-1 side     ignored".to_string(),
            "ctx pod-1 app     inner".to_string(),
        ]
    );
    assert_eq!(stats.total_logs, 8);
    assert_eq!(stats.filtered_out_logs, 1);
    assert_eq!(stats.printed_logs, 6);
}

#[test]
fn objects_are_printed_by_their_kind() {
    let regex = patterns();
    let opts = options();
    let basics = "head ".to_string();
    let request = Some("\"r-1\"".to_string());

    let exc = json_to_hashmap("{\"exc_info\": \"trace\", \"message\": \"boom\"}").unwrap();
    assert_eq!(
        print_json_exc_info_message(&basics, &request, &exc, &opts, &regex),
        Some(vec![
            "head trace    (request_id: \"r-1\")".to_string(),
            "head boom    (request_id: \"r-1\")".to_string()
        ])
    );
    let odd = json_to_hashmap("{\"exc_info\": 1, \"message\": \"boom\"}").unwrap();
    assert_eq!(print_json_exc_info_message(&basics, &None, &odd, &opts, &regex), None);

    let proxy = json_to_hashmap(
        "{\"downstream_local_address\": \"10.0.0.1:80\", \"method\": \"GET\", \"path\": \"/x\", \"protocol\": \"HTTP/1.1\", \"response_code\": \"200\", \"bytes_sent\": \"10\", \"bytes_received\": \"20\", \"duration\": \"3\", \"upstream_service_time\": \"2\"}",
    )
    .unwrap();
    assert_eq!(
        print_json_proxy(&basics, &None, &proxy, true),
        Some(vec![
            "head 10.0.0.1:80 \"GET /x HTTP/1.1\" 200, 10 20, 3 2".to_string(),
            String::new()
        ])
    );
    assert_eq!(print_json_proxy(&basics, &None, &exc, false), None);
    assert_eq!(
        print_raw_message(&"2025-09-02 12:58:52 INFO  raw".to_string(), &opts, &regex),
        vec!["raw".to_string()]
    );
}

#[test]
fn an_object_of_no_known_kind_is_printed_for_debugging() {
    let regex = patterns();
    let parsed = SternJSON::parse(&entry("{\"other\": 5}", "app"), None);
    let mut stats = Stats::new();
    let printed = print_parsed_stern_json("c", &parsed, &options(), &regex, &mut stats);
    assert_eq!(printed, vec!["c pod-1 app     {\"other\": Number(5)}".to_string()]);
    let parsed = SternJSON::parse(&entry("{\"message\": 5}", "app"), None);
    let printed = print_parsed_stern_json("c", &parsed, &options(), &regex, &mut stats);
    assert_eq!(printed, vec!["c pod-1 app     {\"message\": Number(5)}".to_string()]);
    let parsed = SternJSON::parse(
        &entry("{\"message\": \"m\", \"exc_info\": \"e\", \"request_id\": \"r\"}", "app"),
        None,
    );
    let printed = print_parsed_stern_json("c", &parsed, &options(), &regex, &mut stats);
    assert_eq!(
        printed,
        vec![
            "c pod-1 app     e    (request_id: \"r\")".to_string(),
            "c pod-1 app     m    (request_id: \"r\")".to_string()
        ]
    );
}

#[test]
fn the_time_is_written_with_the_separators() {
    assert_eq!(
        datetime_format_string(&"-".to_string(), &" ".to_string(), &":".to_string()),
        "%Y-%m-%d %H:%M:%S"
    );
    let now = current_datetime_string(&"-".to_string(), &"_".to_string(), &":".to_string()).unwrap();
    assert_eq!(now.len(), 19);
    let bytes = now.as_bytes();
    assert_eq!((bytes[4], bytes[7], bytes[10], bytes[13], bytes[16]), (b'-', b'-', b'_', b':', b':'));
    assert!(now.chars().filter(|c| c.is_ascii_digit()).count() == 14);
    assert_eq!(
        current_datetime_string(&"%Q".to_string(), &" ".to_string(), &":".to_string()),
        None
    );
}
