use log_streamer::command_streamer::lines::{
    buffer_vec_extract_lines, buffer_vec_line_pos, trim_lines,
};
use log_streamer::command_streamer::{ChannelRead, CommandStreamer, StreamError};

fn opened() -> CommandStreamer {
    CommandStreamer::new_from_child(true, true, Some("ctx".to_string())).unwrap()
}

fn nothing() -> ChannelRead {
    ChannelRead::nothing()
}

fn out(streamer: &mut CommandStreamer, text: &str) {
    streamer
        .fill_buffers(&ChannelRead::delivered(text), &nothing())
        .unwrap();
}

fn err(streamer: &mut CommandStreamer, text: &str) {
    streamer
        .fill_buffers(&nothing(), &ChannelRead::delivered(text))
        .unwrap();
}

/// Drains standard output with requests for all lines, joining what comes.
fn drain_stdout(streamer: &mut CommandStreamer) -> String {
    let mut all = String::new();
    loop {
        let (lines, side) = streamer.get_lines(-1, None, false);
        assert!(side);
        match lines.unwrap() {
            Some(text) if !text.is_empty() => all.push_str(&text),
            _ => break,
        }
    }
    all
}

#[test]
fn line_pos_finds_first_terminator() {
    let buffer: Vec<char> = "ab\ncd\r".chars().collect();
    assert_eq!(buffer_vec_line_pos(&buffer), Some(3));
    let buffer: Vec<char> = "\rab".chars().collect();
    assert_eq!(buffer_vec_line_pos(&buffer), Some(1));
    let buffer: Vec<char> = "abc".chars().collect();
    assert_eq!(buffer_vec_line_pos(&buffer), None);
    let buffer: Vec<char> = Vec::new();
    assert_eq!(buffer_vec_line_pos(&buffer), None);
}

#[test]
fn extract_takes_whole_lines_only() {
    let mut buffer: Vec<char> = "a\nb\nc".chars().collect();
    let (lines, affected) = buffer_vec_extract_lines(&mut buffer, -1);
    assert_eq!(lines, Some("a\nb\n".to_string()));
    assert!(affected);
    assert_eq!(buffer, vec!['c']);
    let (lines, affected) = buffer_vec_extract_lines(&mut buffer, -1);
    assert_eq!(lines, Some(String::new()));
    assert!(!affected);
    assert_eq!(buffer, vec!['c']);
}

#[test]
fn extract_honours_the_line_count() {
    let mut buffer: Vec<char> = "a\nb\nc\nd".chars().collect();
    let (lines, _) = buffer_vec_extract_lines(&mut buffer, 2);
    assert_eq!(lines, Some("a\nb\n".to_string()));
    let (lines, _) = buffer_vec_extract_lines(&mut buffer, 1);
    assert_eq!(lines, Some("c\n".to_string()));
    assert_eq!(buffer, vec!['d']);
}

#[test]
fn extract_counts_below_one_as_one() {
    let mut buffer: Vec<char> = "a\nb\nc\n".chars().collect();
    let (lines, _) = buffer_vec_extract_lines(&mut buffer, 0);
    assert_eq!(lines, Some("a\n".to_string()));
    let (lines, _) = buffer_vec_extract_lines(&mut buffer, -7);
    assert_eq!(lines, Some("b\n".to_string()));
}

#[test]
fn carriage_return_and_newline_each_end_a_line() {
    let mut buffer: Vec<char> = "a\r\nb".chars().collect();
    let (lines, _) = buffer_vec_extract_lines(&mut buffer, 1);
    assert_eq!(lines, Some("a\r".to_string()));
    let (lines, _) = buffer_vec_extract_lines(&mut buffer, 1);
    assert_eq!(lines, Some("\n".to_string()));
    assert_eq!(buffer, vec!['b']);
}

#[test]
fn trim_splits_at_every_terminator_and_drops_empty_lines() {
    assert_eq!(
        trim_lines(Some("  a \r\n\n b\t\n".to_string())),
        Some("a\nb".to_string())
    );
    assert_eq!(
        trim_lines(Some("10%\r20%\r\n".to_string())),
        Some("10%\n20%".to_string())
    );
    assert_eq!(trim_lines(Some(" \r\n \n".to_string())), None);
    assert_eq!(trim_lines(Some(String::new())), None);
    assert_eq!(trim_lines(None), None);
    assert_eq!(trim_lines(Some("x".to_string())), Some("x".to_string()));
}

#[test]
fn creation_needs_a_channel() {
    assert_eq!(
        CommandStreamer::new_from_child(false, false, None).err(),
        Some(StreamError::NoChannelsCaptured)
    );
    assert!(CommandStreamer::new_from_child(true, false, None).is_ok());
    assert!(CommandStreamer::new_from_child(false, true, None).is_ok());
    let streamer = opened();
    assert_eq!(streamer.user_data, Some("ctx".to_string()));
    assert!(!streamer.has_data_in_buffers());
    assert!(streamer.reads_stdout());
    assert!(streamer.reads_stderr());
}

#[test]
fn new_reports_a_failed_start() {
    let args = vec!["--x".to_string()];
    let res = CommandStreamer::new("prog", &args, None, Err("no such file".to_string()));
    assert_eq!(
        res.err(),
        Some(StreamError::SpawnFailure("no such file".to_string()))
    );
    let res = CommandStreamer::new("prog", &args, None, Ok((false, false)));
    assert_eq!(res.err(), Some(StreamError::NoChannelsCaptured));
    let streamer = CommandStreamer::new("prog", &args, None, Ok((true, true))).unwrap();
    assert_eq!(streamer.get_program(), &Some("prog".to_string()));
    assert_eq!(streamer.get_args(), &Some(args));
}

#[test]
fn format_command_joins_program_and_arguments() {
    let mut streamer = opened();
    assert_eq!(
        streamer.format_command().err(),
        Some(StreamError::ProgramNotSet)
    );
    streamer.set_program("stern");
    assert_eq!(streamer.format_command().err(), Some(StreamError::ArgsNotSet));
    streamer.set_args(vec!["--context".to_string(), "dev".to_string()]);
    assert_eq!(
        streamer.format_command(),
        Ok("stern --context dev".to_string())
    );
    let mut bare = opened();
    bare.set_program("ls").set_args(vec![]);
    assert_eq!(bare.format_command(), Ok("ls".to_string()));
}

#[test]
fn error_messages_read_as_before() {
    assert_eq!(
        StreamError::NoChannelsCaptured.message(),
        "both stdout and stderr are none"
    );
    assert_eq!(StreamError::ProgramNotSet.message(), "program not set");
    assert_eq!(StreamError::ArgsNotSet.message(), "args not set");
    assert_eq!(StreamError::ReadFailure("pipe".to_string()).message(), "pipe");
    assert_eq!(StreamError::SpawnFailure("gone".to_string()).message(), "gone");
}

#[test]
fn extraction_does_not_depend_on_fragmentation() {
    let mut whole = opened();
    out(&mut whole, "a\nb\nc");
    let from_whole = drain_stdout(&mut whole);

    let mut pieces = opened();
    let mut from_pieces = String::new();
    for piece in ["a\n", "b\n", "c"] {
        out(&mut pieces, piece);
        from_pieces.push_str(&drain_stdout(&mut pieces));
    }

    let mut odd = opened();
    let mut from_odd = String::new();
    for piece in ["a", "\nb", "", "\n", "c"] {
        out(&mut odd, piece);
        from_odd.push_str(&drain_stdout(&mut odd));
    }

    assert_eq!(from_whole, "a\nb\n");
    assert_eq!(from_pieces, "a\nb\n");
    assert_eq!(from_odd, "a\nb\n");
    assert_eq!(whole.get_stdout_buffer(), "c");
    assert_eq!(pieces.get_stdout_buffer(), "c");
    assert_eq!(odd.get_stdout_buffer(), "c");
}

#[test]
fn lines_come_one_by_one_whatever_the_fragmentation() {
    for pieces in [vec!["a\nb\nc"], vec!["a\n", "b\n", "c"], vec!["a", "\n", "b\nc"]] {
        let mut streamer = opened();
        for piece in pieces {
            out(&mut streamer, piece);
        }
        let (first, _) = streamer.get_lines(1, None, true);
        let (second, _) = streamer.get_lines(1, None, true);
        let (third, _) = streamer.get_lines(1, None, true);
        assert_eq!(first, Ok(Some("a".to_string())));
        assert_eq!(second, Ok(Some("b".to_string())));
        assert_eq!(third, Ok(None));
        assert_eq!(streamer.get_stdout_buffer(), "c");
        assert!(streamer.has_data_in_buffers());
    }
}

#[test]
fn round_trip_gives_back_what_was_delivered() {
    let mut streamer = opened();
    let mut stdout = String::new();
    let mut stderr = String::new();
    let deliveries = [("one\ntw", "e1\r"), ("o\n", ""), ("", "e2\ne"), ("three\n", "3\n")];
    for (o, e) in deliveries {
        streamer
            .fill_buffers(&ChannelRead::delivered(o), &ChannelRead::delivered(e))
            .unwrap();
        while streamer.has_data_in_buffers() {
            let (lines, side) = streamer.get_lines(-1, None, false);
            let text = lines.unwrap().unwrap();
            if text.is_empty() {
                break;
            }
            if side {
                stdout.push_str(&text);
            } else {
                stderr.push_str(&text);
            }
        }
    }
    stdout.push_str(&streamer.get_stdout_buffer());
    stderr.push_str(&streamer.get_stderr_buffer());
    assert_eq!(stdout, "one\ntwo\nthree\n");
    assert_eq!(stderr, "e1\re2\ne3\n");
}

#[test]
fn channels_take_turns_while_both_have_text() {
    let mut streamer = opened();
    out(&mut streamer, "o1\no2\no3\n");
    err(&mut streamer, "e1\ne2\ne3\n");
    let mut sides = Vec::new();
    let mut texts = Vec::new();
    for _ in 0..4 {
        let (lines, side) = streamer.get_lines(1, None, true);
        sides.push(side);
        texts.push(lines.unwrap().unwrap());
    }
    assert_eq!(sides, vec![true, false, true, false]);
    assert_eq!(texts, vec!["o1", "e1", "o2", "e2"]);
}

#[test]
fn an_empty_channel_yields_its_turn() {
    let mut streamer = opened();
    err(&mut streamer, "e1\ne2\n");
    let (lines, side) = streamer.get_lines(1, None, false);
    assert_eq!((lines, side), (Ok(Some("e1\n".to_string())), false));
    let (lines, side) = streamer.get_lines(1, None, false);
    assert_eq!((lines, side), (Ok(Some("e2\n".to_string())), false));
    let (lines, side) = streamer.get_lines(1, None, false);
    assert_eq!((lines, side), (Ok(None), true));
}

#[test]
fn end_of_stream_waits_for_both_channels() {
    let mut streamer = opened();
    assert!(!streamer.is_eof(false, false));
    assert!(!streamer.is_eof(true, false));
    assert!(!streamer.reads_stdout());
    assert!(streamer.reads_stderr());
    assert!(!streamer.is_eof(false, false));
    assert!(streamer.is_eof(false, true));
    assert!(streamer.is_eof(false, false));
    assert!(streamer.is_eof(true, true));
}

#[test]
fn a_channel_that_was_not_captured_holds_nothing_up() {
    let mut streamer = CommandStreamer::new_from_child(true, false, None).unwrap();
    assert!(!streamer.is_eof(false, true));
    assert!(streamer.is_eof(true, false));
    assert!(streamer.is_eof(false, false));
}

#[test]
fn a_partial_line_is_pending() {
    let mut streamer = opened();
    out(&mut streamer, "unfinished");
    assert!(streamer.has_data_in_buffers());
    let (lines, side) = streamer.get_lines(-1, None, true);
    assert_eq!((lines, side), (Ok(None), true));
    let (lines, side) = streamer.get_lines(-1, None, false);
    assert_eq!((lines, side), (Ok(Some(String::new())), true));
    assert!(streamer.has_data_in_buffers());
    assert_eq!(streamer.get_stdout_buffer(), "unfinished");
    out(&mut streamer, " now\n");
    let (lines, _) = streamer.get_lines(-1, None, true);
    assert_eq!(lines, Ok(Some("unfinished now".to_string())));
    assert!(!streamer.has_data_in_buffers());
}

#[test]
fn pending_data_outlives_end_of_stream() {
    let mut streamer = opened();
    out(&mut streamer, "last\n");
    assert!(streamer.is_eof(true, true));
    assert!(streamer.has_data_in_buffers());
    let (lines, _) = streamer.get_lines(-1, None, true);
    assert_eq!(lines, Ok(Some("last".to_string())));
    assert!(!streamer.has_data_in_buffers());
}

#[test]
fn a_failed_read_is_reported_and_keeps_what_arrived() {
    let mut streamer = opened();
    let broken = ChannelRead {
        data: "part".to_string(),
        failure: Some("broken pipe".to_string()),
    };
    let res = streamer.fill_buffers(&broken, &ChannelRead::delivered("e\n"));
    assert_eq!(res, Err(StreamError::ReadFailure("broken pipe".to_string())));
    assert_eq!(streamer.get_stdout_buffer(), "part");
    assert_eq!(streamer.get_stderr_buffer(), "e\n");
    assert!(streamer.reads_stdout());
    let res = streamer.fill_buffers(&nothing(), &ChannelRead::failed("bad"));
    assert_eq!(res, Err(StreamError::ReadFailure("bad".to_string())));
}

#[test]
fn get_lines_fails_with_its_fill() {
    let mut streamer = opened();
    out(&mut streamer, "kept\n");
    let failed = ChannelRead::failed("oops");
    let (lines, side) = streamer.get_lines(-1, Some((&failed, &nothing())), true);
    assert_eq!(lines, Err(StreamError::ReadFailure("oops".to_string())));
    assert!(!side);
    assert_eq!(streamer.get_stdout_buffer(), "kept\n");
    let more = ChannelRead::delivered("more\n");
    let (lines, side) = streamer.get_lines(-1, Some((&more, &nothing())), true);
    assert_eq!((lines, side), (Ok(Some("kept\nmore".to_string())), true));
}

#[test]
fn reads_of_an_ended_channel_are_left_aside() {
    let mut streamer = opened();
    streamer.is_eof(true, false);
    let res = streamer.fill_buffers(&ChannelRead::failed("late"), &ChannelRead::delivered("e\n"));
    assert_eq!(res, Ok(()));
    assert_eq!(streamer.get_stdout_buffer(), "");
    assert_eq!(streamer.get_stderr_buffer(), "e\n");
}

#[test]
fn draining_a_short_lived_process() {
    let mut streamer = opened();
    let mut stdout = String::new();
    let mut stderr = String::new();
    let polls = [("x\n", "y\n", false, false), ("", "", true, true), ("", "", true, true)];
    let mut more = true;
    let mut rounds = 0;
    for (o, e, out_ended, err_ended) in polls {
        if !more {
            break;
        }
        let mut collected = String::new();
        let side_before_stdout = streamer.get_stdout_buffer().len();
        more = streamer
            .get_all_lines(
                &mut collected,
                &ChannelRead::delivered(o),
                &ChannelRead::delivered(e),
                out_ended,
                err_ended,
                true,
            )
            .unwrap();
        let took_stdout = streamer.get_stdout_buffer().len() < side_before_stdout + o.len();
        if took_stdout {
            stdout.push_str(&collected);
        } else {
            stderr.push_str(&collected);
        }
        rounds += 1;
    }
    assert_eq!(stdout, "x");
    assert_eq!(stderr, "y");
    assert!(!more);
    assert_eq!(rounds, 2);
    assert!(streamer.is_eof(false, false));
    assert!(!streamer.has_data_in_buffers());
}

#[test]
fn an_unfinished_last_line_keeps_the_drain_going() {
    let mut streamer = CommandStreamer::new_from_child(true, false, None).unwrap();
    let mut collected = String::new();
    let more = streamer
        .get_all_lines(&mut collected, &ChannelRead::delivered("a\nb\nc"), &nothing(), true, true, true)
        .unwrap();
    assert_eq!(collected, "a\nb");
    assert!(more);
    for _ in 0..3 {
        let more = streamer
            .get_all_lines(&mut collected, &nothing(), &nothing(), true, true, true)
            .unwrap();
        assert!(more);
    }
    assert_eq!(collected, "a\nb");
    assert_eq!(streamer.get_stdout_buffer(), "c");
    assert!(streamer.is_eof(true, true));
    assert!(streamer.has_data_in_buffers());
}

#[test]
fn draining_collects_in_order_and_stops_on_failure() {
    let mut streamer = CommandStreamer::new_from_child(true, false, None).unwrap();
    let mut collected = String::new();
    let more = streamer
        .get_all_lines(&mut collected, &ChannelRead::delivered("a\nb"), &nothing(), false, false, false)
        .unwrap();
    assert!(more);
    assert_eq!(collected, "a\n");
    let res = streamer.get_all_lines(
        &mut collected,
        &ChannelRead::failed("gone"),
        &nothing(),
        true,
        false,
        false,
    );
    assert_eq!(res, Err(StreamError::ReadFailure("gone".to_string())));
    assert_eq!(collected, "a\n");
    assert!(streamer.reads_stdout());
    let more = streamer
        .get_all_lines(&mut collected, &ChannelRead::delivered("\n"), &nothing(), true, false, false)
        .unwrap();
    assert!(!more);
    assert_eq!(collected, "a\nb\n");
}
