//! Change capture and versioned history engine.
//!
//! The library tracks the evolving content of text files as a sequence of
//! line-level diffs.  A diff is an ordered run of tagged line groups
//! (`Same`, `Add`, `Remove`) from which both the old and the new text of a
//! file can be reconstructed exactly.  An append-only change log groups the
//! diffs of one scheduling pass into events that form a chain through a
//! repository's history, and a watch scheduler decides per tick which files
//! to diff.  A singleton marker keeps at most one scheduler running.

pub mod types;

pub mod history;

pub mod diff;

pub mod codec;

pub mod store;

pub mod watcher;

pub mod uploader;

#[allow(dead_code)]
mod scenarios;

