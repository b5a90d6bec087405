//! Change detection for a watched, versioned collection of operations: a cache of version
//! stamps, the diff of a poll against it, complete snapshots, and the decisions of the poll
//! loop as a state machine that a driver runs.

pub mod operation;
pub mod cache;
pub mod poller;
pub mod laws;
