//! Verified core logic of the imag personal information management suite:
//! the header-filter query language of `imag-ids`, store-id collection
//! filtering, the `imag` front end (help, aliases, forwarded options, the
//! list of commands), and the decisions of the individual tools (counters,
//! diaries, logs, habits, time tracking, calendar, contacts, tags,
//! diagnostics, git, viewing).

use vstd::prelude::*;

pub mod calendar;
pub mod cli;
pub mod collections;
pub mod commands;
pub mod contact;
pub mod counter;
pub mod datetime;
pub mod diagnostics;
pub mod diary;
pub mod git;
pub mod habit;
pub mod header_filter;
pub mod init;
pub mod log;
pub mod pattern;
pub mod tags;
pub mod text;
pub mod timetrack;
pub mod toml_access;
pub mod view;

verus! {

} // verus!
