use termsnoop::boundary::CompletedCommand;
use termsnoop::session::{
    clean_cutoff, find_latest_session, generate_id, id_from_indices, last_entries, read_session,
    render_commands, render_log, session_dir, session_table, sessions_to_clean,
    sort_newest_first, CommandEntry, ReadMode, SessionError, SessionMeta, Timestamp,
};

fn meta(id: &str, secs: i64) -> SessionMeta {
    SessionMeta::new_active(
        id.to_string(),
        None,
        1,
        "bash".to_string(),
        "/".to_string(),
        Timestamp { secs, nanos: 0 },
    )
}

#[test]
fn session_new_and_status() {
    let mut m = meta("abc", 10);
    assert_eq!(m.status, "active");
    assert!(m.ended_at.is_none());
    m.set_status("running", Timestamp { secs: 20, nanos: 0 });
    assert_eq!(m.status, "running");
    assert!(m.ended_at.is_none());
    m.set_status("exited", Timestamp { secs: 30, nanos: 5 });
    assert_eq!(m.status, "exited");
    assert_eq!(m.ended_at, Some(Timestamp { secs: 30, nanos: 5 }));
}

#[test]
fn session_sort_and_latest() {
    let sorted = sort_newest_first(vec![meta("a", 1), meta("b", 3), meta("c", 2), meta("d", 3)]);
    let ids: Vec<&str> = sorted.iter().map(|m| m.id.as_str()).collect();
    assert_eq!(ids, vec!["b", "d", "c", "a"]);
    assert_eq!(find_latest_session(vec![meta("a", 1), meta("b", 3), meta("c", 2)]), Ok("b".to_string()));
    assert_eq!(find_latest_session(vec![]), Err(SessionError::NoSessions));
}

#[test]
fn session_read_plans() {
    let p = read_session(Some("x".into()), Some(3), Some(9), true, vec![]).unwrap();
    assert_eq!(p.session_id, "x");
    assert_eq!(p.mode, ReadMode::Commands(3));
    assert!(p.json);
    let p = read_session(None, None, Some(9), false, vec![meta("a", 1), meta("b", 2)]).unwrap();
    assert_eq!(p.session_id, "b");
    assert_eq!(p.mode, ReadMode::Log(Some(9)));
    assert!(!p.json);
    assert_eq!(read_session(None, None, None, false, vec![]).unwrap_err(), SessionError::NoSessions);
}

fn entry(i: usize, cmd: &str, out: &str) -> CommandEntry {
    CommandEntry::recorded(
        CompletedCommand { index: i, command: cmd.into(), exit_code: Some(0), output: out.into() },
        Timestamp { secs: 5, nanos: 0 },
    )
}

#[test]
fn session_commands_output() {
    let es = vec![entry(0, "ls", "a\nb"), entry(1, "true", ""), entry(2, "pwd", "/")];
    let last = last_entries(es, 2);
    assert_eq!(last.len(), 2);
    assert_eq!(last[0].command, "true");
    assert_eq!(render_commands(&last), "$ true\n\n$ pwd\n/\n\n");
    assert_eq!(last_entries(vec![entry(0, "x", "")], 5).len(), 1);
    assert_eq!(last[1].timestamp, Timestamp { secs: 5, nanos: 0 });
}

#[test]
fn session_log_output() {
    let raw = b"\x1b[32mgreen\x1b[0m\r\nline2\nline3\n";
    assert_eq!(render_log(raw, None), "green\nline2\nline3\n");
    assert_eq!(render_log(raw, Some(2)), "line2\nline3");
    assert_eq!(render_log(b"bad \xff byte", None), "bad \u{fffd} byte");
}

#[test]
fn session_cleaning() {
    let ss = vec![meta("old", 100), meta("new", 1000), meta("older", 50)];
    assert_eq!(sessions_to_clean(&ss, Timestamp { secs: 500, nanos: 0 }), vec!["old", "older"]);
    assert!(sessions_to_clean(&ss, Timestamp { secs: 50, nanos: 0 }).is_empty());
    let now = Timestamp { secs: 1_700_000_000, nanos: 7 };
    assert_eq!(clean_cutoff(now, 7), Some(Timestamp { secs: 1_700_000_000 - 7 * 86400, nanos: 7 }));
    assert_eq!(clean_cutoff(now, 0), Some(now));
    assert_eq!(clean_cutoff(now, u64::MAX / 2), None);
}

#[test]
fn session_ids() {
    let id = generate_id();
    assert_eq!(id.chars().count(), 7);
    assert!(id.chars().all(|c| c.is_ascii_lowercase() || c.is_ascii_digit()));
    assert_eq!(id_from_indices(&[0, 25, 26, 35]), "az09");
    assert_eq!(session_dir("/h/.termsnoop/sessions", "abc"), "/h/.termsnoop/sessions/abc");
}

#[test]
fn session_listing() {
    assert_eq!(session_table(vec![]), Some(vec!["No sessions found.".to_string()]));
    let mut named = meta("abc1234", 0);
    named.name = Some("build".into());
    let rows = session_table(vec![meta("zzz", 86400), named]).unwrap();
    assert_eq!(rows.len(), 4);
    assert_eq!(rows[0], format!("{:<10} {:<15} {:<10} {:<8} {}", "ID", "Name", "Status", "Shell", "Started"));
    assert_eq!(rows[1], "-".repeat(70));
    assert_eq!(rows[2], format!("{:<10} {:<15} {:<10} {:<8} {}", "zzz", "-", "active", "bash", "1970-01-02 00:00:00"));
    assert_eq!(rows[3], format!("{:<10} {:<15} {:<10} {:<8} {}", "abc1234", "build", "active", "bash", "1970-01-01 00:00:00"));
}

#[test]
fn session_cutoff_out_of_range() {
    let now = Timestamp { secs: 0, nanos: 0 };
    // More days than a TimeDelta holds.
    assert_eq!(clean_cutoff(now, 200_000_000_000), None);
    // A date before chrono's earliest year.
    assert_eq!(clean_cutoff(now, 100_000_000), None);
    assert_eq!(clean_cutoff(now, 1), Some(Timestamp { secs: -86400, nanos: 0 }));
}

#[test]
fn session_cutoff_at_calendar_edges() {
    let now = Timestamp { secs: 0, nanos: 0 };
    assert_eq!(clean_cutoff(now, 96_465_292), Some(Timestamp { secs: -8_334_601_228_800, nanos: 0 }));
    assert_eq!(clean_cutoff(now, 96_465_293), None);
    let late = Timestamp { secs: 8_210_266_876_799, nanos: 0 };
    assert_eq!(clean_cutoff(late, 0), Some(late));
    assert_eq!(clean_cutoff(Timestamp { secs: 8_210_266_876_800, nanos: 0 }, 0), None);
}

#[test]
fn session_listing_at_calendar_edges() {
    let rows = session_table(vec![meta("last", 8_210_266_876_799)]).unwrap();
    assert!(rows[2].ends_with("+262142-12-31 23:59:59"));
    let rows = session_table(vec![meta("first", -8_334_601_228_800)]).unwrap();
    assert!(rows[2].ends_with("-262143-01-01 00:00:00"));
    assert_eq!(session_table(vec![meta("after", 8_210_266_876_800)]), None);
    assert_eq!(session_table(vec![meta("before", -8_334_601_228_801)]), None);
}
