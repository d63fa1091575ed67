//! The decisions of the command-line client.

pub mod log_search;
pub mod logs;
pub mod status;
pub mod up;
