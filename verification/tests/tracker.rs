use termsnoop::boundary::{BoundaryEvent, BoundaryParser, CommandTracker};

const SESSION: &[u8] = b"\x1b]133;A\x07$ \x1b]133;B\x07ls -la\x1b]133;C\x07\r\nfile1\r\nfile2\r\n\x1b]133;D;0\x07";

#[test]
fn tracker_records_command_and_output() {
    let mut t = CommandTracker::new("/tmp/sess");
    assert_eq!(t.commands_path(), "/tmp/sess/commands.jsonl");
    assert!(!t.is_active());
    let done = t.process(SESSION);
    assert!(t.is_active());
    assert_eq!(done.len(), 1);
    assert_eq!(done[0].index, 0);
    assert_eq!(done[0].command, "ls -la");
    assert_eq!(done[0].output, "file1\nfile2");
    assert_eq!(done[0].exit_code, Some(0));
}

#[test]
fn tracker_same_result_byte_by_byte() {
    let mut whole = CommandTracker::new("/tmp/sess");
    let a = whole.process(SESSION);
    let mut pieces = CommandTracker::new("/tmp/sess");
    let mut b = Vec::new();
    for byte in SESSION {
        b.extend(pieces.process(&[*byte]));
    }
    assert_eq!(a.len(), b.len());
    assert_eq!(a[0].command, b[0].command);
    assert_eq!(a[0].output, b[0].output);
    assert_eq!(a[0].exit_code, b[0].exit_code);
}

#[test]
fn tracker_numbers_commands_consecutively() {
    let mut t = CommandTracker::new("/tmp/sess");
    let mut stream = Vec::new();
    stream.extend_from_slice(SESSION);
    stream.extend_from_slice(b"\x1b]133;A\x07$ \x1b]133;B\x07pwd\x1b]133;C\x07\n/home\n\x1b]133;D;3\x07");
    let done = t.process(&stream);
    assert_eq!(done.len(), 2);
    assert_eq!(done[0].index, 0);
    assert_eq!(done[1].index, 1);
    assert_eq!(done[1].command, "pwd");
    assert_eq!(done[1].output, "/home");
    assert_eq!(done[1].exit_code, Some(3));
}

#[test]
fn tracker_without_c_marker_splits_first_line() {
    let mut t = CommandTracker::new("/tmp/sess");
    let done = t.process(b"\x1b]133;A\x07> \x1b]133;B\x07 echo hi \nhi\nthere\n\x1b]133;D;1\x07");
    assert_eq!(done.len(), 1);
    assert_eq!(done[0].command, "echo hi");
    assert_eq!(done[0].output, "hi\nthere");
    assert_eq!(done[0].exit_code, Some(1));
}

#[test]
fn tracker_skips_empty_command() {
    let mut t = CommandTracker::new("/tmp/sess");
    let done = t.process(b"\x1b]133;A\x07$ \x1b]133;B\x07   \x1b]133;C\x07\x1b]133;D;0\x07");
    assert!(done.is_empty());
}

#[test]
fn tracker_ignores_markers_before_first_prompt() {
    let mut t = CommandTracker::new("/tmp/sess");
    let done = t.process(b"\x1b]133;B\x07ls\x1b]133;C\x07out\x1b]133;D;0\x07");
    assert!(done.is_empty());
    assert!(!t.is_active());
}

#[test]
fn tracker_new_joins_path_with_trailing_slash() {
    let t = CommandTracker::new("/tmp/sess/");
    assert_eq!(t.commands_path(), "/tmp/sess/commands.jsonl");
}

#[test]
fn parser_exit_code_forms() {
    let cases: Vec<(&[u8], i32)> = vec![
        (b"\x1b]133;D;-7\x07", -7),
        (b"\x1b]133;D;+5\x07", 5),
        (b"\x1b]133;D; 12 \x07", 12),
        (b"\x1b]133;D;abc\x07", 0),
        (b"\x1b]133;D\x07", 0),
        (b"\x1b]133;D;\x07", 0),
        (b"\x1b]133;D;2147483647\x07", 2147483647),
        (b"\x1b]133;D;-2147483648\x07", -2147483648),
        (b"\x1b]133;D;2147483648\x07", 0),
        (b"\x1b]133;D;\xff1\x07", 0),
        (b"\x1b]133;D;-\x07", 0),
    ];
    for (input, code) in cases {
        let mut p = BoundaryParser::new();
        let events = p.feed(input);
        assert_eq!(events, vec![BoundaryEvent::CommandDone { exit_code: code }]);
    }
}

#[test]
fn parser_unknown_and_empty_payloads() {
    let mut p = BoundaryParser::new();
    assert!(p.feed(b"\x1b]133;Z\x07").is_empty());
    assert!(p.feed(b"\x1b]133;\x07").is_empty());
    assert!(p.feed(b"\x1b]1330;A\x07").is_empty());
    assert!(p.feed(b"\x1b[31mred\x1b[0m").is_empty());
}

#[test]
fn parser_in_sequence() {
    let mut p = BoundaryParser::new();
    assert!(!p.in_sequence());
    p.feed(b"\x1b]13");
    assert!(p.in_sequence());
    p.feed(b"3;A\x07");
    assert!(!p.in_sequence());
}

#[test]
fn parser_plain_text_yields_nothing() {
    let mut p = BoundaryParser::new();
    assert!(p.feed(b"just some text\r\nand more").is_empty());
    assert!(!p.in_sequence());
}

#[test]
fn parser_broken_st_drops_marker() {
    let mut p = BoundaryParser::new();
    assert!(p.feed(b"\x1b]133;A\x1bX").is_empty());
    assert!(!p.in_sequence());
}

#[test]
fn tracker_index_room() {
    let t = CommandTracker::new("/tmp/sess");
    assert!(t.has_index_room(4096));
    assert!(t.has_index_room(usize::MAX));
}

#[test]
fn tracker_process_checked_runs_when_index_fits() {
    let mut t = CommandTracker::new("/tmp/sess");
    let done = t.process_checked(SESSION).expect("index fits");
    assert_eq!(done.len(), 1);
    assert_eq!(done[0].command, "ls -la");
    assert!(t.is_active());
}

#[test]
fn tracker_active_after_prompt_marker_only() {
    let mut t = CommandTracker::new("/tmp/sess");
    assert!(t.process(b"plain text \x1b]133;B\x07").is_empty());
    assert!(!t.is_active());
    assert!(t.process(b"\x1b]133").is_empty());
    assert!(!t.is_active());
    assert!(t.process(b";A\x07").is_empty());
    assert!(t.is_active());
    assert!(t.process(b"more plain text").is_empty());
    assert!(t.is_active());
}

#[test]
fn tracker_records_are_trimmed_with_exit_code() {
    let mut t = CommandTracker::new("/tmp/sess");
    let done = t.process(b"\x1b]133;A\x07$ \x1b]133;B\x07\t  make \r\n\x1b]133;C\x07\n\n  built  \n\x1b]133;D;2\x07");
    assert_eq!(done.len(), 1);
    assert_eq!(done[0].command, "make");
    assert_eq!(done[0].output, "built");
    assert_eq!(done[0].exit_code, Some(2));
}

#[test]
fn tracker_split_stream_records_alike() {
    let mut whole = CommandTracker::new("/tmp/sess");
    let a = whole.process(SESSION);
    for cut in 0..=SESSION.len() {
        let mut split = CommandTracker::new("/tmp/sess");
        let mut b = split.process(&SESSION[..cut]);
        b.extend(split.process(&SESSION[cut..]));
        assert_eq!(a.len(), b.len());
        assert_eq!(a[0].index, b[0].index);
        assert_eq!(a[0].command, b[0].command);
        assert_eq!(a[0].output, b[0].output);
        assert_eq!(a[0].exit_code, b[0].exit_code);
        assert_eq!(whole.is_active(), split.is_active());
    }
}

#[test]
fn tracker_many_chunks_record_alike() {
    let mut whole = CommandTracker::new("/tmp/sess");
    let mut stream = Vec::new();
    stream.extend_from_slice(SESSION);
    stream.extend_from_slice(SESSION);
    let a = whole.process(&stream);
    let mut pieces = CommandTracker::new("/tmp/sess");
    let mut b = Vec::new();
    for chunk in stream.chunks(5) {
        b.extend(pieces.process(chunk));
    }
    assert_eq!(a.len(), 2);
    assert_eq!(b.len(), 2);
    for i in 0..2 {
        assert_eq!(a[i].index, i);
        assert_eq!(b[i].index, i);
        assert_eq!(a[i].command, b[i].command);
        assert_eq!(a[i].output, b[i].output);
        assert_eq!(a[i].exit_code, b[i].exit_code);
    }
    assert!(whole.is_active() && pieces.is_active());
}
