//! The decisions of the background daemon.

pub mod log_index;
pub mod log_writer;
pub mod port_allocator;
pub mod process_manager;
pub mod proxy;
pub mod server;
pub mod wait_engine;
pub mod watch_patterns;
