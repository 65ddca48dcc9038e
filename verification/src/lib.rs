//! Verified core of a directory-mirroring tool.
//!
//! The library plans and tracks a scan-diff-execute pipeline: a filter
//! engine decides which entries take part in a sync, a scanner diffs the
//! source tree against the target tree and emits copy and delete tasks, a
//! bounded channel carries the tasks to a worker in order, and a
//! reconciliation pass plans the removal of orphaned target directories,
//! deepest first. All filesystem access stays with the caller; the library
//! works on plain values and proves what it decides.

use vstd::prelude::*;

pub mod channel;
pub mod config;
pub mod counters;
pub mod filter;
pub mod options;
pub mod paths;
pub mod pattern;
pub mod reconcile;
pub mod scanner;
pub mod tasks;
pub mod util;
pub mod worker;

verus! {

/// Number of tasks the bounded scanner-to-worker channel can hold.
pub const CHANNEL_CAPACITY: usize = 10000;

} // verus!
