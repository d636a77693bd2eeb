//! Core logic of `quay`, a language-agnostic file watcher.
//!
//! The library holds what the watcher decides and computes: path filtering,
//! change matching, debouncing, the diff store, the messages sent to browser
//! clients and the control protocol.  Everything here works on plain values.
//! Reading files, spawning commands and talking to sockets is done by the
//! program around it.

pub mod text;
pub mod ordered;
pub mod json;
pub mod lines;
pub mod diff;
pub mod kv;
pub mod path;
pub mod globs;
pub mod filter;
pub mod command;
pub mod config;
pub mod debounce;
pub mod encoding;
pub mod server;
pub mod watcher;
pub mod client;
pub mod validate;
pub mod control;
pub mod cli;
pub mod error;
pub mod health;
