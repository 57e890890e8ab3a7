//! Browsing the logs of a remote machine over SSH: finding the logs
//! (files under `/var/log` and `/opt`, containers, service units),
//! filtering the list, following a log in a bounded buffer, and searching
//! it; with the key bindings of the terminal interface.

pub mod text;
pub mod config;
pub mod discovery;
pub mod log_stream;
pub mod search;
pub mod ssh;
pub mod app;
pub mod events;
pub mod ui;
pub mod laws;
