//! Planning for the background compaction worker of a replicated key-value
//! store: which raft log entries a truncation removes, and which range of the
//! lock column family a manual compaction covers.
//!
//! The storage engine itself stays outside. The worker asks for one step at a
//! time, the caller performs it on the engine and hands back what came of it.

pub mod keys;
pub mod order;
pub mod runner;
pub mod store;
pub mod task;
