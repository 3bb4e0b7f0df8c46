//! Poll-dispatch engine for a feed-to-mail agent.
//!
//! The crate verifies the core of the agent: group identity hashing,
//! filter and update-key evaluation, the scheduling store with its
//! compare-and-swap claim, mail-mode classification, and failure
//! debouncing.  Network, SMTP and SQL plumbing live outside the library
//! and call into it with plain values.

pub mod hashing;
pub mod config;
pub mod item;
pub mod regexes;
pub mod filtering;
pub mod render;
pub mod store;
pub mod engine;
pub mod failures;
pub mod sanitize;
