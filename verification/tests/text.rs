use termsnoop::paths::{config_file, debug_log_file, sessions_root};
use termsnoop::session::session_dir;
use termsnoop::text::{chars_of, count_lines, parse_i32, same_text, split_lines, tail_lines, trim};

#[test]
fn text_trim() {
    assert_eq!(trim("  a b \t\n"), "a b");
    assert_eq!(trim("\u{a0}x\u{3000}"), "x");
    assert_eq!(trim("   "), "");
    assert_eq!(trim(""), "");
}

#[test]
fn text_lines_like_std() {
    for s in ["", "a", "a\n", "a\nb", "a\r\nb\r\n", "\n\n", "x\r", "a\rb\n", "\r\n"] {
        let ours: Vec<String> = split_lines(&chars_of(s))
            .into_iter()
            .map(|l| l.into_iter().collect())
            .collect();
        let std_lines: Vec<String> = s.lines().map(|l| l.to_string()).collect();
        assert_eq!(ours, std_lines, "lines of {:?}", s);
        assert_eq!(count_lines(s), s.lines().count());
    }
}

#[test]
fn text_tail() {
    assert_eq!(tail_lines("a\nb\nc\n", 2), "b\nc");
    assert_eq!(tail_lines("a\nb\nc", 5), "a\nb\nc");
    assert_eq!(tail_lines("a\nb\nc", 0), "");
    assert_eq!(tail_lines("", 3), "");
}

#[test]
fn text_parse_i32_like_std() {
    for s in ["0", "42", "-42", "+7", "", "+", "-", "1a", "2147483647", "2147483648", "-2147483648", "-2147483649", "007", "99999999999999999999"] {
        let cs: Vec<char> = s.chars().collect();
        assert_eq!(parse_i32(&cs), s.parse::<i32>().ok(), "parse of {:?}", s);
    }
}

#[test]
fn text_same_and_paths() {
    assert!(same_text("exited", "exited"));
    assert!(!same_text("exited", "exit"));
    assert_eq!(session_dir("/home/u/.termsnoop/sessions", "abc1234"), "/home/u/.termsnoop/sessions/abc1234");
    assert_eq!(session_dir("/root/", "x"), "/root/x");
    assert_eq!(session_dir("", "x"), "x");
    assert_eq!(session_dir("/root", "/etc"), "/etc");
}

#[test]
fn text_data_paths() {
    assert_eq!(sessions_root("/home/u"), "/home/u/.termsnoop/sessions");
    assert_eq!(config_file("/home/u/"), "/home/u/.termsnoop/config.toml");
    assert_eq!(debug_log_file("/home/u"), "/home/u/.termsnoop/debug.log");
    assert_eq!(sessions_root(""), ".termsnoop/sessions");
}
