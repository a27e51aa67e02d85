//! A chat-driven web-page change monitor: users register URL/pattern alerts,
//! a poller fetches each watched page and notifies the users whose pattern
//! matched (or, for inverted alerts, did not match).
//!
//! This crate holds the verified core: the alert model, the alert store with
//! its per-user ordinal rules, pattern matching, the polling decisions and the
//! command surface. Network, chat and database plumbing live outside it.

pub mod models;
pub mod conduit;
pub mod text;
pub mod error;
pub mod matcher;
pub mod worker;
pub mod commands;
