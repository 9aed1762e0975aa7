//! The worker's decisions, one step at a time.
//!
//! A task is carried out in turns. The runner says what to ask of the engine,
//! the caller asks, and the runner decides from the answer what comes next.
//! The runner keeps nothing between tasks.

use vstd::prelude::*;
use crate::keys::{
    has_raft_log_prefix, raft_log_index, raft_log_index_spec, raft_log_key, raft_log_key_spec,
    starts_with_raft_log_prefix, KeyError,
};
use crate::task::Task;

verus! {

/// Name of the column family that holds the raft log.
pub const CF_RAFT: &'static str = "raft";

/// Name of the column family that holds the transaction locks.
pub const CF_LOCK: &'static str = "lock";

/// What made a compaction fail.
#[derive(Debug, Clone, PartialEq, Eq)]
pub enum Cause {
    /// The engine refused a seek, a write or a column family handle; the text
    /// is the engine's own.
    Engine(String),
    /// The key found among the log keys of the region has not the length of
    /// a log key.
    MalformedLogKey(KeyError),
}

/// The one kind of failure of this worker, around its cause.
#[derive(Debug, Clone, PartialEq, Eq)]
pub enum Error {
    Other(Cause),
}

/// What the runner asks of the engine first when it takes up a task.
#[derive(Debug, Clone, PartialEq, Eq)]
pub enum EngineRequest {
    /// Seek forward in the column family `CF_RAFT` from `from`, and report
    /// the first key at or after it.
    SeekRaftLog { region_id: u64, compact_idx: u64, from: Vec<u8> },
    /// Compact the column family `CF_LOCK` over `range`.
    CompactLockRange { range: RangeCompaction },
}

/// The deletes of one log compaction, to be written as a single atomic batch.
#[derive(Debug, Clone, PartialEq, Eq)]
pub struct LogCompaction {
    /// How many log entries the compaction removes.
    pub count: u64,
    /// The keys to delete, in ascending order of index. Where it is empty
    /// nothing is written.
    pub deletes: Vec<Vec<u8>>,
    /// Whether the write may skip the write-ahead log. It never may.
    pub disable_wal: bool,
}

/// A manual compaction of the lock column family. `None` leaves the range
/// open on that side.
#[derive(Debug, Clone, PartialEq, Eq)]
pub struct RangeCompaction {
    pub start: Option<Vec<u8>>,
    pub end: Option<Vec<u8>>,
}

/// The compaction worker.
#[derive(Debug, Clone, PartialEq, Eq)]
pub struct Runner;

/// The bound that `key` stands for: none where it is empty, else the key.
pub open spec fn range_bound_spec(key: Seq<u8>) -> Option<Seq<u8>> {
    if key.len() == 0 {
        None
    } else {
        Some(key)
    }
}

/// The index of the first log entry of region `region_id` that is still
/// there, given the first key that a seek from the region's log start found.
/// Where that key starts with the region's log prefix it is the index in the
/// key, and a failure where the key has not the length of a log key. Where
/// the seek found nothing, or a key beyond the region's log, the region has
/// no log entry, and the index is `compact_idx`.
pub open spec fn first_index_spec(region_id: u64, found: Option<Seq<u8>>, compact_idx: u64) -> Result<
    u64,
    KeyError,
> {
    match found {
        Some(key) => if has_raft_log_prefix(region_id, key) {
            raft_log_index_spec(key)
        } else {
            Ok(compact_idx)
        },
        None => Ok(compact_idx),
    }
}

/// The keys of the entries of region `region_id` with an index from
/// `first_idx` up to, but not including, `compact_idx`, in ascending order.
pub open spec fn deleted_keys_spec(region_id: u64, first_idx: u64, compact_idx: u64) -> Seq<
    Seq<u8>,
> {
    if first_idx >= compact_idx {
        Seq::empty()
    } else {
        Seq::new(
            (compact_idx - first_idx) as nat,
            |j: int| raft_log_key_spec(region_id, (first_idx + j) as u64),
        )
    }
}

/// How many entries a compaction to `compact_idx` removes when the first
/// entry that is still there has index `first_idx`.
pub open spec fn deleted_count_spec(first_idx: u64, compact_idx: u64) -> u64 {
    if first_idx >= compact_idx {
        0
    } else {
        (compact_idx - first_idx) as u64
    }
}

impl LogCompaction {
    /// The keys of the batch as byte sequences.
    pub open spec fn keys(&self) -> Seq<Seq<u8>> {
        Seq::new(self.deletes@.len(), |j: int| self.deletes@[j]@)
    }

    /// Whether this is the batch that truncates the log of `region_id` to
    /// `compact_idx` when the first entry still there has index `first_idx`.
    pub open spec fn truncates(&self, region_id: u64, first_idx: u64, compact_idx: u64) -> bool {
        &&& self.count == deleted_count_spec(first_idx, compact_idx)
        &&& self.keys() == deleted_keys_spec(region_id, first_idx, compact_idx)
        &&& !self.disable_wal
    }

    /// Whether the compaction leaves the engine alone.
    pub fn is_noop(&self) -> (noop: bool)
        ensures
            noop == (self.deletes@.len() == 0),
    {
        self.deletes.len() == 0
    }
}

impl RangeCompaction {
    /// The two bounds as byte sequences.
    pub open spec fn bounds(&self) -> (Option<Seq<u8>>, Option<Seq<u8>>) {
        (
            match self.start {
                Some(k) => Some(k@),
                None => None,
            },
            match self.end {
                Some(k) => Some(k@),
                None => None,
            },
        )
    }
}

/// The bound that `key` stands for.
fn range_bound(key: Vec<u8>) -> (bound: Option<Vec<u8>>)
    ensures
        match bound {
            Some(k) => range_bound_spec(key@) == Some(k@),
            None => range_bound_spec(key@) == None::<Seq<u8>>,
        },
{
    if key.len() == 0 {
        None
    } else {
        Some(key)
    }
}

impl Error {
    /// The failure that wraps what the engine said.
    pub fn engine(text: String) -> (err: Error)
        ensures
            err == Error::Other(Cause::Engine(text)),
    {
        Error::Other(Cause::Engine(text))
    }
}

impl Runner {
    /// The key from which the search for the first log entry of `region_id`
    /// starts: that of index 0.
    pub fn raft_log_start_key(region_id: u64) -> (key: Vec<u8>)
        ensures
            key@ == raft_log_key_spec(region_id, 0),
    {
        raft_log_key(region_id, 0)
    }

    /// Plans the truncation of the log of `region_id` to `compact_idx`.
    ///
    /// `seek` is what the engine answered to a forward seek in the raft column
    /// family from `raft_log_start_key(region_id)`: the first key at or after
    /// it, none, or a failure. Where that key is a log key of the region, its
    /// index is the first that is still there, and every index from it up to
    /// `compact_idx` gets one delete. Where the seek found nothing, a key
    /// that does not start with the region's log prefix, or an index at or
    /// above `compact_idx`, the batch is empty and the count 0. A key that
    /// starts with the region's log prefix and has not 19 bytes is a failure.
    pub fn compact_raft_log(
        &mut self,
        seek: Result<Option<Vec<u8>>, String>,
        region_id: u64,
        compact_idx: u64,
    ) -> (res: Result<LogCompaction, Error>)
        ensures
            match seek {
                Err(text) => res == Err::<LogCompaction, Error>(
                    Error::Other(Cause::Engine(text)),
                ),
                Ok(found) => match first_index_spec(
                    region_id,
                    match found {
                        Some(k) => Some(k@),
                        None => None,
                    },
                    compact_idx,
                ) {
                    Err(e) => res == Err::<LogCompaction, Error>(
                        Error::Other(Cause::MalformedLogKey(e)),
                    ),
                    Ok(first_idx) => res is Ok && res->Ok_0.truncates(
                        region_id,
                        first_idx,
                        compact_idx,
                    ),
                },
            },
    {
        let found = match seek {
            Err(text) => {
                return Err(Error::engine(text));
            },
            Ok(found) => found,
        };
        let mut first_idx: u64 = compact_idx;
        if let Some(k) = found {
            if starts_with_raft_log_prefix(region_id, k.as_slice()) {
                match raft_log_index(k.as_slice()) {
                    Ok(idx) => {
                        first_idx = idx;
                    },
                    Err(e) => {
                        return Err(Error::Other(Cause::MalformedLogKey(e)));
                    },
                }
            }
        }
        let mut deletes: Vec<Vec<u8>> = Vec::new();
        if first_idx >= compact_idx {
            let plan = LogCompaction { count: 0, deletes, disable_wal: false };
            assert(plan.keys() =~= deleted_keys_spec(region_id, first_idx, compact_idx));
            return Ok(plan);
        }
        let mut idx: u64 = first_idx;
        while idx < compact_idx
            invariant
                first_idx <= idx <= compact_idx,
                deletes@.len() == idx - first_idx,
                forall|j: int|
                    0 <= j < deletes@.len() ==> (#[trigger] deletes@[j])@ == raft_log_key_spec(
                        region_id,
                        (first_idx + j) as u64,
                    ),
            decreases compact_idx - idx,
        {
            let key = raft_log_key(region_id, idx);
            deletes.push(key);
            idx = idx + 1;
        }
        let plan = LogCompaction { count: compact_idx - first_idx, deletes, disable_wal: false };
        assert(plan.keys() =~= deleted_keys_spec(region_id, first_idx, compact_idx));
        Ok(plan)
    }

    /// Settles a log compaction once its batch was handed to the engine.
    ///
    /// `write` is what the engine answered to the atomic write of
    /// `plan.deletes`, or `Ok` where the batch was empty and nothing was
    /// written. The count of removed entries is reported only where the write
    /// went through.
    pub fn finish_raft_log(&mut self, plan: &LogCompaction, write: Result<(), String>) -> (res:
        Result<u64, Error>)
        ensures
            match write {
                Ok(_) => res == Ok::<u64, Error>(plan.count),
                Err(text) => res == Err::<u64, Error>(Error::Other(Cause::Engine(text))),
            },
    {
        match write {
            Ok(_) => Ok(plan.count),
            Err(text) => Err(Error::engine(text)),
        }
    }

    /// Plans the manual compaction of the lock column family between
    /// `start_key` and `end_key`. An empty key leaves the range open on its
    /// side; any other key bounds it as it is.
    pub fn compact_lock_cf(&mut self, start_key: Vec<u8>, end_key: Vec<u8>) -> (range:
        RangeCompaction)
        ensures
            range.bounds() == (range_bound_spec(start_key@), range_bound_spec(end_key@)),
    {
        RangeCompaction { start: range_bound(start_key), end: range_bound(end_key) }
    }

    /// Settles a range compaction: the engine's failure, if any, becomes the
    /// worker's.
    pub fn finish_lock_cf(&mut self, outcome: Result<(), String>) -> (res: Result<(), Error>)
        ensures
            match outcome {
                Ok(_) => res == Ok::<(), Error>(()),
                Err(text) => res == Err::<(), Error>(Error::Other(Cause::Engine(text))),
            },
    {
        match outcome {
            Ok(_) => Ok(()),
            Err(text) => Err(Error::engine(text)),
        }
    }

    /// Takes up a task and says what to ask of the engine first: for a log
    /// compaction the seek for the region's first log entry, for a range
    /// compaction the compaction itself.
    pub fn run(&mut self, task: Task) -> (req: EngineRequest)
        ensures
            match task {
                Task::CompactRaftLog { region_id, compact_idx } => req matches EngineRequest::SeekRaftLog {
                    region_id: r,
                    compact_idx: c,
                    from,
                } && r == region_id && c == compact_idx && from@ == raft_log_key_spec(
                    region_id,
                    0,
                ),
                Task::CompactLockCF { start_key, end_key } => req matches EngineRequest::CompactLockRange {
                    range,
                } && range.bounds() == (range_bound_spec(start_key@), range_bound_spec(end_key@)),
            },
    {
        match task {
            Task::CompactRaftLog { region_id, compact_idx } => EngineRequest::SeekRaftLog {
                region_id,
                compact_idx,
                from: Runner::raft_log_start_key(region_id),
            },
            Task::CompactLockCF { start_key, end_key } => EngineRequest::CompactLockRange {
                range: self.compact_lock_cf(start_key, end_key),
            },
        }
    }
}

} // verus!
