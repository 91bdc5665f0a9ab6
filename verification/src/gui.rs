//! The state of the table view and the messages that change it.

pub mod app;
