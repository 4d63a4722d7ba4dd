//! Sorting the files of a directory into one subdirectory per group.
//!
//! The library holds the decisions of a sorting run as a state machine
//! ([`sorter::Sorter`]): the caller performs each filesystem request it
//! hands out and feeds the outcome back, and receives the log and progress
//! notes to show. A dry run walks the same states without asking for any
//! change on disk.
pub mod plan;
pub mod notes;
pub mod sorter;
pub mod laws;
pub mod listing;
