# agent-procs

A concurrent process runner for AI agents. Processes run under a per-session
background daemon that outlives each command; the command line starts, stops,
restarts, waits for and searches them, and a terminal UI follows them live.

The library (`src/`) holds the logic, verified with Verus: the wire protocol's
types, configuration and dependency ordering, the daemon's process table and
supervisor (names, ids, ports, restart policies), the log index format and
rotation plan, the log search pipeline, the proxy's routing, and the terminal
UI's state and key handling. Public functions state in their contracts what
they return; where an outside call or the machine decides (a port probe, a
signal, what a regex or a glob set accepts), the contract says what holds
whatever it decided. Properties that span functions are proved as lemmas
(for example: context expansion lists each nearby line once and in order; a
process stopped by hand is never restarted; index records read back as
written; a startup order respects every dependency).

The program (`app/`) is the unverified shell around it: argument parsing,
sockets, child processes, files, the file watcher, the HTTP proxy and the
terminal drawing. It hands the library plain values and acts on what comes
back.

Layout:

- `src/protocol.rs`, `src/config.rs`, `src/paths.rs`, `src/session.rs`
- `src/daemon/`: process manager, port allocation, log index and writer,
  wait engine, server decisions, proxy routing
- `src/cli/`: log search, logs, status table, `up`
- `src/tui/`: UI state, keys, events and what the panes show
- `tests/`: tests of the library
- `app/`: the `agent-procs` program
