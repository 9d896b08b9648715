# termsnoop

Terminal capture for AI CLI integration: a PTY proxy records a shell session,
detects command boundaries from OSC 133 shell-integration markers, and lets
other tools (a CLI and an MCP server) read the captured output.

## Layout

- `src/` — the library, verified with Verus:
  - `boundary.rs` — the streaming OSC 133 parser and the command tracker,
    with their state-machine models and laws (chunking never changes the
    result, markers yield their events, commands are numbered consecutively).
  - `text.rs` — trimming, line splitting and joining as `str` does them,
    decimal parsing, and the decoding of captured bytes.
  - `shell.rs` — shell detection, init scripts and startup arguments.
  - `keys.rs` — console key events to VT byte sequences.
  - `session.rs` — session metadata, newest-first ordering, read plans,
    rendering, cleaning and the session table.
  - `paths.rs`, `config.rs`, `cli.rs`, `mcp.rs` — path joining,
    configuration defaults and the log budget, the command line, and the
    MCP read plan.
- `app/` — the program: argument parsing, file and terminal I/O, the PTY,
  the MCP server and the Windows console.
- `tests/` — tests of the library.
