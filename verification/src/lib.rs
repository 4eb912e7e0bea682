//! Verified core of a build-tool wrapper that re-emits diagnostics with the
//! most recent record first.
//!
//! The crate has three parts: stripping of color escape sequences from a line
//! (`strip`), grouping of raw diagnostic lines into records and replaying them
//! in reverse order of closing (`records`), and rewriting of the forwarded
//! command line so that colored output stays enabled (`args`). All I/O (the
//! child process, its streams) lives outside this crate; the functions here
//! work on plain strings and vectors of strings.

pub mod args;
pub mod records;
pub mod strip;
