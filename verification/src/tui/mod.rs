//! State of the terminal UI.

pub mod app;
pub mod events;
pub mod input;
pub mod view;
