use termsnoop::boundary::{BoundaryEvent, BoundaryParser};

#[test]
fn parse_osc133_a() {
    let mut parser = BoundaryParser::new();
    let events = parser.feed(b"\x1b]133;A\x07");
    assert_eq!(events.len(), 1);
    assert!(matches!(events[0], BoundaryEvent::PromptStart));
}

#[test]
fn parse_osc133_b() {
    let mut parser = BoundaryParser::new();
    let events = parser.feed(b"\x1b]133;B\x07");
    assert_eq!(events.len(), 1);
    assert!(matches!(events[0], BoundaryEvent::PromptEnd));
}

#[test]
fn parse_osc133_c() {
    let mut parser = BoundaryParser::new();
    let events = parser.feed(b"\x1b]133;C\x07");
    assert_eq!(events.len(), 1);
    assert!(matches!(events[0], BoundaryEvent::CommandStart));
}

#[test]
fn parse_osc133_d_with_exit_code() {
    let mut parser = BoundaryParser::new();
    let events = parser.feed(b"\x1b]133;D;42\x07");
    assert_eq!(events.len(), 1);
    match &events[0] {
        BoundaryEvent::CommandDone { exit_code } => assert_eq!(*exit_code, 42),
        _ => panic!("expected CommandDone"),
    }
}

#[test]
fn parse_osc133_d_zero() {
    let mut parser = BoundaryParser::new();
    let events = parser.feed(b"\x1b]133;D;0\x07");
    assert_eq!(events.len(), 1);
    match &events[0] {
        BoundaryEvent::CommandDone { exit_code } => assert_eq!(*exit_code, 0),
        _ => panic!("expected CommandDone"),
    }
}

#[test]
fn parse_multiple_markers() {
    let mut parser = BoundaryParser::new();
    let events = parser.feed(b"hello\x1b]133;A\x07prompt\x1b]133;B\x07input\x1b]133;C\x07output\x1b]133;D;0\x07");
    assert_eq!(events.len(), 4);
    assert!(matches!(events[0], BoundaryEvent::PromptStart));
    assert!(matches!(events[1], BoundaryEvent::PromptEnd));
    assert!(matches!(events[2], BoundaryEvent::CommandStart));
    assert!(matches!(events[3], BoundaryEvent::CommandDone { exit_code: 0 }));
}

#[test]
fn parse_split_across_chunks() {
    let mut parser = BoundaryParser::new();
    // Split the sequence \x1b]133;A\x07 across two chunks
    let e1 = parser.feed(b"\x1b]13");
    assert!(e1.is_empty());
    let e2 = parser.feed(b"3;A\x07");
    assert_eq!(e2.len(), 1);
    assert!(matches!(e2[0], BoundaryEvent::PromptStart));
}

#[test]
fn parse_st_terminator() {
    let mut parser = BoundaryParser::new();
    // Use ST (\x1b\\) instead of BEL
    let events = parser.feed(b"\x1b]133;A\x1b\\");
    assert_eq!(events.len(), 1);
    assert!(matches!(events[0], BoundaryEvent::PromptStart));
}

#[test]
fn ignore_non_133_osc() {
    let mut parser = BoundaryParser::new();
    let events = parser.feed(b"\x1b]0;title\x07");
    assert!(events.is_empty());
}
