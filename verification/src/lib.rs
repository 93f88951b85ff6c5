//! Verified core of a per-directory command launcher.
//!
//! The library keeps a history of command lines in a plain-text file
//! (one entry per line), lets a caller record new entries or promote a
//! selected entry to the front, discovers and parses `KEY=VALUE`
//! environment files, tokenizes a command line into a launch plan, and
//! drives the record-vs-interactive decision logic of a single run.
//! All file, terminal and network I/O lives outside this crate; the
//! functions here work on plain values and carry contracts.

pub mod advisory;
pub mod config;
pub mod envfile;
pub mod flow;
pub mod history;
pub mod launch;
pub mod text;
