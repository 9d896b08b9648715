//! Application configuration (`~/.termsnoop/config.toml`).
use vstd::prelude::*;

verus! {

/// Application configuration; every field left out of the file takes its
/// default.
#[derive(Debug, Clone)]
pub struct Config {
    /// Maximum age of sessions before `clean` removes them (days).
    pub session_ttl_days: u64,
    /// Maximum log file size per session (bytes).
    pub max_log_bytes: u64,
    /// Default shell to spawn.
    pub default_shell: Option<String>,
    /// Number of commands to keep in shell history.
    pub command_history_size: usize,
}

impl Default for Config {
    /// Sessions kept 7 days, logs of at most 50 MiB, no default shell, 500
    /// commands of history.
    fn default() -> (c: Self)
        ensures
            c.session_ttl_days == 7,
            c.max_log_bytes == 50 * 1024 * 1024,
            c.default_shell is None,
            c.command_history_size == 500,
    {
        Config {
            session_ttl_days: 7,
            max_log_bytes: 50 * 1024 * 1024,
            default_shell: None,
            command_history_size: 500,
        }
    }
}

/// How much of a session's output goes to its log: bytes are logged until
/// `max` have been written, and never more, so the log stays within the limit.
pub struct LogBudget {
    pub written: u64,
    pub max: u64,
}

impl LogBudget {
    /// The budget's invariant: no more than the limit has been written.
    pub open spec fn wf(&self) -> bool {
        self.written <= self.max
    }

    /// What is left under the limit.
    pub open spec fn room(&self) -> int {
        self.max - self.written
    }

    /// Nothing written yet, with the given limit.
    pub fn new(max: u64) -> (b: LogBudget)
        ensures
            b.written == 0,
            b.max == max,
            b.wf(),
    {
        LogBudget { written: 0, max }
    }

    /// How many leading bytes of a chunk of `n` bytes are logged: all of them
    /// while they fit under the limit, else what is left of it. Counts them.
    pub fn take_chunk(&mut self, n: usize) -> (r: usize)
        requires
            old(self).wf(),
        ensures
            r == (if n < old(self).room() { n as int } else { old(self).room() }),
            final(self).written == old(self).written + r,
            final(self).max == old(self).max,
            final(self).wf(),
    {
        let room: u64 = self.max - self.written;
        let r: usize = if (n as u64) < room {
            n
        } else {
            room as usize
        };
        self.written = self.written + r as u64;
        r
    }
}

} // verus!
