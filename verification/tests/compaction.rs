use compact_worker::keys::{raft_log_index, raft_log_key, KeyError};
use compact_worker::runner::{
    Cause, EngineRequest, Error, LogCompaction, RangeCompaction, Runner, CF_LOCK, CF_RAFT,
};
use compact_worker::task::{decimal, Task};
use std::collections::BTreeSet;

/// A stand-in for the raft column family: the keys it holds, in order.
struct Engine {
    keys: BTreeSet<Vec<u8>>,
    writes: usize,
}

fn engine_with(entries: &[(u64, u64)]) -> Engine {
    let mut keys = BTreeSet::new();
    for &(region, index) in entries {
        keys.insert(raft_log_key(region, index));
    }
    Engine { keys, writes: 0 }
}

fn seek(engine: &Engine, from: &[u8]) -> Option<Vec<u8>> {
    engine.keys.range(from.to_vec()..).next().cloned()
}

fn write(engine: &mut Engine, plan: &LogCompaction) {
    assert!(!plan.disable_wal);
    if !plan.is_noop() {
        engine.writes += 1;
        for key in &plan.deletes {
            engine.keys.remove(key);
        }
    }
}

fn indices_of(engine: &Engine, region: u64) -> Vec<u64> {
    let mut found = Vec::new();
    for key in &engine.keys {
        if key[..11] == raft_log_key(region, 0)[..11] {
            found.push(raft_log_index(key).unwrap());
        }
    }
    found
}

/// Carries a log compaction through against the stand-in engine.
fn compact(engine: &mut Engine, region: u64, compact_idx: u64) -> Result<u64, Error> {
    let mut runner = Runner;
    let task = Task::CompactRaftLog { region_id: region, compact_idx };
    let from = match runner.run(task) {
        EngineRequest::SeekRaftLog { region_id, compact_idx: to, from } => {
            assert_eq!(region_id, region);
            assert_eq!(to, compact_idx);
            from
        }
        other => panic!("unexpected request {:?}", other),
    };
    let found = seek(engine, &from);
    let plan = runner.compact_raft_log(Ok(found), region, compact_idx)?;
    write(engine, &plan);
    runner.finish_raft_log(&plan, Ok(()))
}

#[test]
fn region_7_compacted_to_5_loses_1_to_4() {
    let entries: Vec<(u64, u64)> = (1..10).map(|i| (7, i)).collect();
    let mut engine = engine_with(&entries);
    let found = seek(&engine, &Runner::raft_log_start_key(7));
    assert_eq!(found, Some(raft_log_key(7, 1)));
    let plan = Runner.compact_raft_log(Ok(found), 7, 5).unwrap();
    assert_eq!(plan.count, 4);
    assert_eq!(
        plan.deletes,
        vec![raft_log_key(7, 1), raft_log_key(7, 2), raft_log_key(7, 3), raft_log_key(7, 4)]
    );
    assert!(!plan.disable_wal);
    assert!(!plan.is_noop());
    write(&mut engine, &plan);
    assert_eq!(Runner.finish_raft_log(&plan, Ok(())), Ok(4));
    assert_eq!(indices_of(&engine, 7), vec![5, 6, 7, 8, 9]);
    assert_eq!(engine.writes, 1);
}

#[test]
fn region_without_entries_is_left_alone() {
    let mut engine = engine_with(&[]);
    let found = seek(&engine, &Runner::raft_log_start_key(7));
    assert_eq!(found, None);
    let plan = Runner.compact_raft_log(Ok(found), 7, 5).unwrap();
    assert_eq!(plan.count, 0);
    assert!(plan.deletes.is_empty());
    assert!(plan.is_noop());
    assert!(!plan.disable_wal);
    write(&mut engine, &plan);
    assert_eq!(engine.writes, 0);
    assert_eq!(Runner.finish_raft_log(&plan, Ok(())), Ok(0));
}

#[test]
fn nothing_below_the_target_means_nothing_to_do() {
    let mut engine = engine_with(&[(7, 5), (7, 6), (7, 9)]);
    assert_eq!(compact(&mut engine, 7, 5), Ok(0));
    assert_eq!(compact(&mut engine, 7, 3), Ok(0));
    assert_eq!(engine.writes, 0);
    assert_eq!(indices_of(&engine, 7), vec![5, 6, 9]);
}

#[test]
fn first_entry_at_the_target_plans_no_delete() {
    let plan = Runner.compact_raft_log(Ok(Some(raft_log_key(7, 5))), 7, 5).unwrap();
    assert_eq!(plan, LogCompaction { count: 0, deletes: vec![], disable_wal: false });
    let plan = Runner.compact_raft_log(Ok(Some(raft_log_key(7, 6))), 7, 5).unwrap();
    assert_eq!(plan, LogCompaction { count: 0, deletes: vec![], disable_wal: false });
}

#[test]
fn target_0_plans_no_delete() {
    let plan = Runner.compact_raft_log(Ok(Some(raft_log_key(7, 0))), 7, 0).unwrap();
    assert_eq!(plan.count, 0);
    assert!(plan.is_noop());
}

#[test]
fn one_entry_below_the_target() {
    let plan = Runner.compact_raft_log(Ok(Some(raft_log_key(7, 4))), 7, 5).unwrap();
    assert_eq!(plan, LogCompaction { count: 1, deletes: vec![raft_log_key(7, 4)], disable_wal: false });
}

#[test]
fn compaction_near_the_largest_index() {
    let found = Some(raft_log_key(3, u64::MAX - 2));
    let plan = Runner.compact_raft_log(Ok(found), 3, u64::MAX).unwrap();
    assert_eq!(plan.count, 2);
    assert_eq!(plan.deletes, vec![raft_log_key(3, u64::MAX - 2), raft_log_key(3, u64::MAX - 1)]);
}

#[test]
fn gaps_are_counted_and_deleted_index_by_index() {
    let mut engine = engine_with(&[(7, 2), (7, 4), (7, 6)]);
    let found = seek(&engine, &Runner::raft_log_start_key(7));
    let plan = Runner.compact_raft_log(Ok(found), 7, 5).unwrap();
    assert_eq!(plan.count, 3);
    assert_eq!(plan.deletes, vec![raft_log_key(7, 2), raft_log_key(7, 3), raft_log_key(7, 4)]);
    write(&mut engine, &plan);
    assert_eq!(indices_of(&engine, 7), vec![6]);
}

#[test]
fn entries_at_and_above_the_target_stay() {
    let entries: Vec<(u64, u64)> = (10..30).map(|i| (4, i)).collect();
    let mut engine = engine_with(&entries);
    assert_eq!(compact(&mut engine, 4, 20), Ok(10));
    assert_eq!(indices_of(&engine, 4), (20..30).collect::<Vec<u64>>());
}

#[test]
fn other_regions_are_not_touched() {
    let mut engine = engine_with(&[(6, 1), (6, 2), (7, 1), (7, 2), (7, 3), (8, 1), (8, 2)]);
    assert_eq!(compact(&mut engine, 7, 3), Ok(2));
    assert_eq!(indices_of(&engine, 6), vec![1, 2]);
    assert_eq!(indices_of(&engine, 7), vec![3]);
    assert_eq!(indices_of(&engine, 8), vec![1, 2]);
}

#[test]
fn second_compaction_to_the_same_index_deletes_nothing() {
    let entries: Vec<(u64, u64)> = (1..10).map(|i| (7, i)).collect();
    let mut engine = engine_with(&entries);
    assert_eq!(compact(&mut engine, 7, 5), Ok(4));
    assert_eq!(compact(&mut engine, 7, 5), Ok(0));
    assert_eq!(engine.writes, 1);
    assert_eq!(indices_of(&engine, 7), vec![5, 6, 7, 8, 9]);
}

#[test]
fn stale_target_after_a_newer_one_deletes_nothing() {
    let entries: Vec<(u64, u64)> = (1..10).map(|i| (7, i)).collect();
    let mut engine = engine_with(&entries);
    assert_eq!(compact(&mut engine, 7, 8), Ok(7));
    assert_eq!(compact(&mut engine, 7, 5), Ok(0));
    assert_eq!(indices_of(&engine, 7), vec![8, 9]);
}

#[test]
fn seek_that_lands_in_the_next_region_plans_no_delete() {
    let mut engine = engine_with(&[(8, 3), (8, 4)]);
    let found = seek(&engine, &Runner::raft_log_start_key(7));
    assert_eq!(found, Some(raft_log_key(8, 3)));
    let plan = Runner.compact_raft_log(Ok(found), 7, 5).unwrap();
    assert_eq!(plan, LogCompaction { count: 0, deletes: vec![], disable_wal: false });
    assert!(plan.is_noop());
    write(&mut engine, &plan);
    assert_eq!(engine.writes, 0);
    assert_eq!(indices_of(&engine, 8), vec![3, 4]);
}

#[test]
fn region_without_entries_beside_another_region_is_left_alone() {
    let mut engine = engine_with(&[(8, 2)]);
    assert_eq!(compact(&mut engine, 7, 5), Ok(0));
    assert_eq!(engine.writes, 0);
    assert!(engine.keys.contains(&raft_log_key(8, 2)));
    assert_eq!(engine.keys.len(), 1);
}

#[test]
fn second_compaction_beside_another_region_deletes_nothing() {
    let mut engine = engine_with(&[(7, 1), (8, 2)]);
    assert_eq!(compact(&mut engine, 7, 5), Ok(4));
    assert_eq!(engine.writes, 1);
    assert_eq!(seek(&engine, &Runner::raft_log_start_key(7)), Some(raft_log_key(8, 2)));
    assert_eq!(compact(&mut engine, 7, 5), Ok(0));
    assert_eq!(engine.writes, 1);
    assert_eq!(indices_of(&engine, 7), Vec::<u64>::new());
    assert_eq!(indices_of(&engine, 8), vec![2]);
}

#[test]
fn other_key_of_the_region_is_no_log_entry() {
    let state_key = vec![1u8, 2, 0, 0, 0, 0, 0, 0, 0, 7, 2];
    let plan = Runner.compact_raft_log(Ok(Some(state_key)), 7, 5).unwrap();
    assert_eq!(plan, LogCompaction { count: 0, deletes: vec![], disable_wal: false });
    let mut same_length = raft_log_key(7, 1);
    same_length[10] = 2;
    let plan = Runner.compact_raft_log(Ok(Some(same_length)), 7, 5).unwrap();
    assert_eq!(plan, LogCompaction { count: 0, deletes: vec![], disable_wal: false });
    let plan = Runner.compact_raft_log(Ok(Some(vec![])), 7, 5).unwrap();
    assert_eq!(plan, LogCompaction { count: 0, deletes: vec![], disable_wal: false });
}

#[test]
fn failed_seek_becomes_the_error() {
    let res = Runner.compact_raft_log(Err(String::from("io error")), 7, 5);
    assert_eq!(res, Err(Error::Other(Cause::Engine(String::from("io error")))));
}

#[test]
fn malformed_log_key_of_the_region_becomes_the_error() {
    let mut found = raft_log_key(7, 1);
    found.push(0);
    let res = Runner.compact_raft_log(Ok(Some(found)), 7, 5);
    assert_eq!(
        res,
        Err(Error::Other(Cause::MalformedLogKey(KeyError::InvalidLength { len: 20 })))
    );
    let short = raft_log_key(7, 1)[..12].to_vec();
    let res = Runner.compact_raft_log(Ok(Some(short)), 7, 5);
    assert_eq!(
        res,
        Err(Error::Other(Cause::MalformedLogKey(KeyError::InvalidLength { len: 12 })))
    );
}

#[test]
fn failed_write_becomes_the_error_and_reports_no_count() {
    let mut engine = engine_with(&[(7, 1), (7, 2), (7, 3)]);
    let before = engine.keys.clone();
    let found = seek(&engine, &Runner::raft_log_start_key(7));
    let plan = Runner.compact_raft_log(Ok(found), 7, 3).unwrap();
    assert_eq!(plan.count, 2);
    let res = Runner.finish_raft_log(&plan, Err(String::from("disk full")));
    assert_eq!(res, Err(Error::Other(Cause::Engine(String::from("disk full")))));
    assert_eq!(engine.keys, before);
    engine.writes += 0;
}

#[test]
fn error_constructor_wraps_the_text() {
    assert_eq!(Error::engine(String::from("x")), Error::Other(Cause::Engine(String::from("x"))));
}

#[test]
fn log_task_asks_for_a_seek_from_index_0() {
    let req = Runner.run(Task::CompactRaftLog { region_id: 7, compact_idx: 5 });
    assert_eq!(
        req,
        EngineRequest::SeekRaftLog { region_id: 7, compact_idx: 5, from: raft_log_key(7, 0) }
    );
    assert_eq!(Runner::raft_log_start_key(7), raft_log_key(7, 0));
}

#[test]
fn empty_range_asks_for_the_whole_lock_column_family() {
    let req = Runner.run(Task::CompactLockCF { start_key: vec![], end_key: vec![] });
    assert_eq!(
        req,
        EngineRequest::CompactLockRange { range: RangeCompaction { start: None, end: None } }
    );
    assert_eq!(CF_LOCK, "lock");
    assert_eq!(CF_RAFT, "raft");
}

#[test]
fn empty_start_leaves_the_lower_side_open() {
    let range = Runner.compact_lock_cf(vec![], vec![b'z']);
    assert_eq!(range, RangeCompaction { start: None, end: Some(vec![b'z']) });
}

#[test]
fn empty_end_leaves_the_upper_side_open() {
    let range = Runner.compact_lock_cf(vec![b'a'], vec![]);
    assert_eq!(range, RangeCompaction { start: Some(vec![b'a']), end: None });
}

#[test]
fn given_bounds_are_kept_as_they_are() {
    let range = Runner.compact_lock_cf(vec![b'a', 0], vec![b'k', 1, 2]);
    assert_eq!(range, RangeCompaction { start: Some(vec![b'a', 0]), end: Some(vec![b'k', 1, 2]) });
    let req = Runner.run(Task::CompactLockCF { start_key: vec![0], end_key: vec![0] });
    assert_eq!(
        req,
        EngineRequest::CompactLockRange {
            range: RangeCompaction { start: Some(vec![0]), end: Some(vec![0]) }
        }
    );
}

#[test]
fn range_compaction_outcome_is_passed_on() {
    assert_eq!(Runner.finish_lock_cf(Ok(())), Ok(()));
    assert_eq!(
        Runner.finish_lock_cf(Err(String::from("no such column family"))),
        Err(Error::Other(Cause::Engine(String::from("no such column family"))))
    );
}

#[test]
fn log_task_summary() {
    let task = Task::CompactRaftLog { region_id: 7, compact_idx: 5 };
    assert_eq!(task.to_string(), "Compact Raft Log Task [region: 7, to: 5]");
    let task = Task::CompactRaftLog { region_id: 0, compact_idx: u64::MAX };
    assert_eq!(task.to_string(), "Compact Raft Log Task [region: 0, to: 18446744073709551615]");
    let task = Task::CompactRaftLog { region_id: 1024, compact_idx: 90 };
    assert_eq!(task.to_string(), "Compact Raft Log Task [region: 1024, to: 90]");
}

#[test]
fn range_task_summary() {
    let task = Task::CompactLockCF { start_key: vec![1, 2], end_key: vec![] };
    assert_eq!(task.to_string(), "Compact Lock CF, range[[1, 2], []]");
    let task = Task::CompactLockCF { start_key: vec![b'a'], end_key: vec![b'z', 255] };
    assert_eq!(task.to_string(), "Compact Lock CF, range[[97], [122, 255]]");
}

#[test]
fn decimal_digits_of_numbers() {
    assert_eq!(decimal(0), "0");
    assert_eq!(decimal(9), "9");
    assert_eq!(decimal(10), "10");
    assert_eq!(decimal(1009), "1009");
    assert_eq!(decimal(1_234_567_890), "1234567890");
    assert_eq!(decimal(u64::MAX), "18446744073709551615");
    for v in [7u64, 42, 100, 65_535, 1 << 40] {
        assert_eq!(decimal(v), format!("{}", v));
    }
}
