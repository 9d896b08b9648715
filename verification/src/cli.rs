//! The command line: what `termsnoop` is asked to do.
use vstd::prelude::*;

verus! {

/// The parsed command line.
#[derive(Debug)]
pub struct Cli {
    pub command: Option<Commands>,
}

/// The subcommands.
#[derive(Debug)]
pub enum Commands {
    /// Start a captured shell session.
    Start { name: Option<String>, shell: Option<String>, debug: bool },
    /// List active and recent sessions.
    List,
    /// Read output from a session.
    Read {
        session_id: Option<String>,
        last_commands: Option<usize>,
        tail: Option<usize>,
        json: bool,
    },
    /// Remove old session data.
    Clean { days: u64 },
    /// Run as MCP server over stdio.
    McpServer,
}

impl Cli {
    /// The subcommand to run: the one given, or `start` (with no name, the
    /// default shell and no debug log) when there is none.
    pub fn effective_command(self) -> (c: Commands)
        ensures
            match self.command {
                Some(given) => c == given,
                None => c == (Commands::Start { name: None, shell: None, debug: false }),
            },
    {
        match self.command {
            Some(c) => c,
            None => Commands::Start { name: None, shell: None, debug: false },
        }
    }
}

} // verus!
