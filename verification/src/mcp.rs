//! The decisions of the MCP tools that read sessions.
use vstd::prelude::*;

use crate::session::{
    find_latest_session, latest_id, read_mode, read_session, ReadPlan, SessionError, SessionMeta,
};

verus! {

/// The arguments of the `read_terminal_output` tool.
#[derive(Debug)]
pub struct ReadTerminalRequest {
    /// Session ID to read from; the latest session if omitted.
    pub session_id: Option<String>,
    /// Number of recent commands to return (requires command tracking).
    pub last_commands: Option<usize>,
    /// Number of lines to return from the end of the output log.
    pub tail_lines: Option<usize>,
}

/// The id of the latest session.
pub fn find_latest(sessions: Vec<SessionMeta>) -> (r: Result<String, SessionError>)
    ensures
        match r {
            Ok(id) => latest_id(sessions@) == Some(id@),
            Err(e) => e == SessionError::NoSessions && latest_id(sessions@) is None,
        },
{
    find_latest_session(sessions)
}

impl ReadTerminalRequest {
    /// What the tool reads: the session asked for (the latest when none is
    /// named), then the last commands when a number is given, else the log
    /// (its last lines, or all of it). Commands are answered as JSON.
    pub fn plan(self, sessions: Vec<SessionMeta>) -> (r: Result<ReadPlan, SessionError>)
        ensures
            r is Ok <==> (self.session_id is Some || sessions@.len() > 0),
            match r {
                Ok(plan) => {
                    &&& plan.session_id@ == match self.session_id {
                        Some(id) => id@,
                        None => latest_id(sessions@).unwrap(),
                    }
                    &&& plan.mode == read_mode(self.last_commands, self.tail_lines)
                    &&& plan.json
                },
                Err(e) => e == SessionError::NoSessions,
            },
    {
        read_session(self.session_id, self.last_commands, self.tail_lines, true, sessions)
    }
}

} // verus!
