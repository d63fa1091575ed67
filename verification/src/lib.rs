//! A concurrent process runner for AI agents: the verified core.
//!
//! Processes run under a background daemon and persist across invocations
//! of the command-line client, which talks to the daemon over a Unix
//! socket. This crate holds the decisions of that system: the protocol,
//! configuration and startup ordering, the supervisor's bookkeeping, log
//! indexing and search, and the state of the terminal UI.

pub mod cli;
pub mod config;
pub mod daemon;
pub mod disk_log_reader;
pub mod error;
pub mod keyed;
pub mod matching;
pub mod paths;
pub mod protocol;
pub mod session;
pub mod text;
pub mod tui;
