//! The verified core of a content-to-artifact build pipeline: a persisted
//! modification-time cache with its staleness rules and text codec, a
//! custom block-substitution (container) engine, an entry renderer, an
//! incremental build orchestrator, and the watch loop's debounce and
//! new-entry decisions. File and directory handling, configuration
//! deserialization and the change-notification subscription live with the
//! caller, which hands this crate plain values.
pub mod cache;
pub mod commands;
pub mod config;
pub mod posts;
pub mod render;
pub mod template;
pub mod text;
