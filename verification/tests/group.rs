use log_streamer::command_streamer::multi_command_streamer::MultiCommandStreamer;
use log_streamer::command_streamer::{ChannelRead, CommandStreamer, StreamError};

fn read(text: &str) -> ChannelRead {
    ChannelRead::delivered(text)
}

fn group_of(labels: &[&str]) -> MultiCommandStreamer {
    let mut group = MultiCommandStreamer::new_empty();
    for label in labels {
        group
            .add("stern", &vec![], Some(label.to_string()), Ok((true, true)))
            .unwrap();
    }
    group
}

#[test]
fn an_empty_group_has_ended_and_holds_nothing() {
    let mut group = MultiCommandStreamer::new_empty();
    assert_eq!(group.len(), 0);
    assert!(group.is_eof(&vec![]));
    assert!(!group.has_data_in_buffers());
    assert!(group.fill_buffers(&vec![]).is_empty());
    assert!(group.get_lines(-1, None, true).is_empty());
}

#[test]
fn a_member_that_fails_to_start_leaves_the_others_usable() {
    let mut group = MultiCommandStreamer::new_empty();
    let args = vec!["logs".to_string()];
    assert_eq!(group.add("stern", &args, Some("a".to_string()), Ok((true, true))), Ok(()));
    assert_eq!(
        group.add("stern", &args, Some("b".to_string()), Err("not found".to_string())),
        Err(StreamError::SpawnFailure("not found".to_string()))
    );
    assert_eq!(group.add("stern", &args, Some("c".to_string()), Ok((true, true))), Ok(()));
    assert_eq!(group.len(), 2);

    let reads = vec![(read("from a\n"), read("")), (read("from c\n"), read(""))];
    let filled = group.fill_buffers(&reads);
    assert_eq!(filled, vec![Ok(()), Ok(())]);
    let lines = group.get_lines(-1, None, true);
    assert_eq!(
        lines,
        vec![
            (Ok(Some("from a".to_string())), Some("a".to_string()), true),
            (Ok(Some("from c".to_string())), Some("c".to_string()), true),
        ]
    );
}

#[test]
fn a_failed_read_of_one_member_stops_no_other() {
    let mut group = group_of(&["a", "b", "c"]);
    let reads = vec![
        (read("a1\n"), read("")),
        (ChannelRead::failed("broken"), read("")),
        (read("c1\n"), read("")),
    ];
    let lines = group.get_lines(-1, Some(&reads), true);
    assert_eq!(
        lines,
        vec![
            (Ok(Some("a1".to_string())), Some("a".to_string()), true),
            (
                Err(StreamError::ReadFailure("broken".to_string())),
                Some("b".to_string()),
                false
            ),
            (Ok(Some("c1".to_string())), Some("c".to_string()), true),
        ]
    );
    let filled = group.fill_buffers(&reads);
    assert_eq!(
        filled,
        vec![
            Ok(()),
            Err(StreamError::ReadFailure("broken".to_string())),
            Ok(())
        ]
    );
}

#[test]
fn the_group_ends_when_every_member_has() {
    let mut group = group_of(&["a", "b"]);
    assert!(!group.is_eof(&vec![(true, true), (true, false)]));
    assert!(!group.is_eof(&vec![(false, false), (false, false)]));
    assert!(group.is_eof(&vec![(false, false), (false, true)]));
    assert!(group.is_eof(&vec![]));
}

#[test]
fn every_member_is_asked_even_after_one_says_no() {
    let mut group = group_of(&["a", "b"]);
    assert!(!group.is_eof(&vec![(false, false), (true, true)]));
    let members = group.get_streamers();
    assert!(members[0].reads_stdout());
    assert!(!members[1].reads_stdout());
    assert!(!members[1].reads_stderr());
}

#[test]
fn pending_data_of_any_member_counts() {
    let mut group = group_of(&["a", "b"]);
    assert!(!group.has_data_in_buffers());
    group.fill_buffers(&vec![(read(""), read("")), (read(""), read("partial"))]);
    assert!(group.has_data_in_buffers());
}

#[test]
fn members_without_reads_read_nothing() {
    let mut group = group_of(&["a", "b"]);
    let filled = group.fill_buffers(&vec![(read("only a\n"), read(""))]);
    assert_eq!(filled.len(), 2);
    let lines = group.get_lines(-1, None, false);
    assert_eq!(lines[0].0, Ok(Some("only a\n".to_string())));
    assert_eq!(lines[1].0, Ok(None));
}

#[test]
fn results_keep_the_order_of_the_members() {
    let mut group = MultiCommandStreamer::new_empty();
    for label in ["z", "m", "a"] {
        let streamer = CommandStreamer::new_from_child(true, true, Some(label.to_string())).unwrap();
        group.add_streamer(streamer);
    }
    let labels: Vec<Option<String>> = group
        .get_lines(-1, None, true)
        .into_iter()
        .map(|(_, label, _)| label)
        .collect();
    assert_eq!(
        labels,
        vec![Some("z".to_string()), Some("m".to_string()), Some("a".to_string())]
    );
}

#[test]
fn new_makes_a_group_of_one() {
    let group = MultiCommandStreamer::new("kubectl", &vec![], None, Ok((true, false))).unwrap();
    assert_eq!(group.len(), 1);
    assert!(MultiCommandStreamer::new("kubectl", &vec![], None, Err("x".to_string())).is_err());
    let streamer = CommandStreamer::new_from_child(true, true, None).unwrap();
    let group = MultiCommandStreamer::new_from_streamer(streamer).unwrap().unwrap();
    assert_eq!(group.len(), 1);
}

#[test]
fn one_member_is_drained_at_a_time() {
    let mut group = group_of(&["a", "b"]);
    let mut collected = String::new();
    let more = group
        .get_all_lines(1, &mut collected, &read("b1\nb2\n"), &read(""), true, true, true)
        .unwrap();
    assert!(!more);
    assert_eq!(collected, "b1\nb2");
    assert!(!group.has_data_in_buffers());
    let more = group
        .get_all_lines(5, &mut collected, &read("lost\n"), &read(""), true, true, true)
        .unwrap();
    assert!(!more);
    assert_eq!(collected, "b1\nb2");
    assert!(!group.is_eof(&vec![]));
}
