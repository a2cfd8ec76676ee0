//! Change metrics for the stories of a project, mined from the history of
//! its repository.
//!
//! Commits name the stories they work on in their summaries. This library
//! finds those story numbers, pairs each commit of a branch with the commit
//! before it, and sums the size of the changes by story: how many files,
//! insertions and deletions, over how many commits. Points that were assigned
//! to the stories can be merged into the totals.
//!
//! The library reads no repository and no file. Its callers do that, and hand
//! over what they read as plain values.

pub mod args;
pub mod collect;
pub mod collection;
pub mod commands;
pub mod diff;
pub mod display;
pub mod errors;
pub mod matcher;
pub mod points;
pub mod text;
pub mod totals;
