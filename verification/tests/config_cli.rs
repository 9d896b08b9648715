use termsnoop::cli::{Cli, Commands};
use termsnoop::config::{Config, LogBudget};
use termsnoop::mcp::{find_latest, ReadTerminalRequest};
use termsnoop::session::{ReadMode, SessionError, SessionMeta, Timestamp};

#[test]
fn config_defaults() {
    let c = Config::default();
    assert_eq!(c.session_ttl_days, 7);
    assert_eq!(c.max_log_bytes, 52428800);
    assert!(c.default_shell.is_none());
    assert_eq!(c.command_history_size, 500);
}

#[test]
fn log_budget_admits_until_limit() {
    let mut b = LogBudget::new(10);
    assert_eq!(b.take_chunk(6), 6);
    assert_eq!(b.take_chunk(6), 4);
    assert_eq!(b.written, 10);
    assert_eq!(b.take_chunk(1), 0);
    assert_eq!(b.written, 10);
}

#[test]
fn log_budget_zero_limit_logs_nothing() {
    let mut b = LogBudget::new(0);
    assert_eq!(b.take_chunk(4096), 0);
    assert_eq!(b.written, 0);
}

#[test]
fn log_budget_exact_fit() {
    let mut b = LogBudget::new(8);
    assert_eq!(b.take_chunk(8), 8);
    assert_eq!(b.take_chunk(0), 0);
    assert_eq!(b.written, 8);
}

#[test]
fn cli_defaults_to_start() {
    match (Cli { command: None }).effective_command() {
        Commands::Start { name, shell, debug } => {
            assert!(name.is_none() && shell.is_none() && !debug);
        }
        _ => panic!("expected start"),
    }
    match (Cli { command: Some(Commands::List) }).effective_command() {
        Commands::List => {}
        _ => panic!("expected list"),
    }
}

#[test]
fn mcp_plans() {
    let s = |id: &str, secs: i64| {
        SessionMeta::new_active(id.into(), None, 1, "sh".into(), "/".into(), Timestamp { secs, nanos: 0 })
    };
    assert_eq!(find_latest(vec![s("a", 1), s("b", 2)]), Ok("b".to_string()));
    assert_eq!(find_latest(vec![]), Err(SessionError::NoSessions));
    let req = ReadTerminalRequest { session_id: None, last_commands: None, tail_lines: Some(4) };
    let plan = req.plan(vec![s("a", 1)]).unwrap();
    assert_eq!(plan.session_id, "a");
    assert_eq!(plan.mode, ReadMode::Log(Some(4)));
    let req = ReadTerminalRequest { session_id: None, last_commands: Some(2), tail_lines: None };
    assert!(req.plan(vec![]).is_err());
}
