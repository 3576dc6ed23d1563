//! A bounded, most-recent-first log of shell commands: recall by relative
//! index, case-insensitive substring search, save with back-to-back dedup,
//! and a pattern-based classifier for destructive commands.
pub mod clipboard;
pub mod entry;
pub mod history;
pub mod laws;
pub mod run;
pub mod safety;
pub mod store;
pub mod text;
