//! What a log compaction does to the raft column family, stated over the set
//! of keys that the column family holds.

use vstd::prelude::*;
use crate::keys::{
    has_raft_log_prefix, is_malformed_raft_log_key_of, is_raft_log_key_of,
    lemma_raft_log_key_injective, lemma_raft_log_key_of_region, lemma_raft_log_key_shape,
    raft_log_index_spec, raft_log_key_spec,
};
use crate::order::{
    bytes_le, bytes_lt, lemma_between_shares_prefix, lemma_bytes_lt_asymmetric,
    lemma_empty_is_least, lemma_raft_log_key_order, lemma_raft_log_keys_sorted,
};
use crate::runner::{deleted_count_spec, deleted_keys_spec, first_index_spec, range_bound_spec};

verus! {

/// Whether `found` is what a forward seek from `from` finds in a column
/// family that holds the keys `store`: the least key at or after `from`, or
/// nothing where there is no such key.
pub open spec fn is_seek_result(store: Set<Seq<u8>>, from: Seq<u8>, found: Option<Seq<u8>>) -> bool {
    match found {
        Some(k) => {
            &&& store.contains(k)
            &&& bytes_le(from, k)
            &&& forall|o: Seq<u8>| #[trigger] store.contains(o) && bytes_le(from, o) ==> bytes_le(k, o)
        },
        None => forall|o: Seq<u8>| #[trigger] store.contains(o) ==> !bytes_le(from, o),
    }
}

/// The keys that are left of `store` once one batch has deleted `keys`.
pub open spec fn after_deletes(store: Set<Seq<u8>>, keys: Seq<Seq<u8>>) -> Set<Seq<u8>> {
    Set::new(|k: Seq<u8>| store.contains(k) && !keys.contains(k))
}

/// The indices at which `store` holds a log entry of region `region_id`.
pub open spec fn log_indices(store: Set<Seq<u8>>, region_id: u64) -> Set<u64> {
    Set::new(|i: u64| store.contains(raft_log_key_spec(region_id, i)))
}

/// Whether `key` lies in the range that the bounds `start` and `end` leave:
/// at or after `start` and before `end`, each only where it is given.
pub open spec fn range_covers(start: Option<Seq<u8>>, end: Option<Seq<u8>>, key: Seq<u8>) -> bool {
    &&& match start {
        Some(s) => bytes_le(s, key),
        None => true,
    }
    &&& match end {
        Some(e) => bytes_lt(key, e),
        None => true,
    }
}

/// A seek has one answer: what it finds depends on the keys and the start
/// alone.
pub proof fn lemma_seek_result_unique(
    store: Set<Seq<u8>>,
    from: Seq<u8>,
    found: Option<Seq<u8>>,
    other: Option<Seq<u8>>,
)
    requires
        is_seek_result(store, from, found),
        is_seek_result(store, from, other),
    ensures
        found == other,
{
    if let Some(k) = found {
        assert(store.contains(k));
        if let Some(o) = other {
            assert(store.contains(o));
            if bytes_lt(k, o) {
                lemma_bytes_lt_asymmetric(k, o);
            }
        }
    } else if let Some(o) = other {
        assert(store.contains(o));
    }
}

/// A key that a seek from the log start of a region finds at or before one
/// of the region's log entries starts with the region's log prefix.
pub proof fn lemma_seek_stays_in_region(
    store: Set<Seq<u8>>,
    region_id: u64,
    found: Option<Seq<u8>>,
    some_idx: u64,
)
    requires
        is_seek_result(store, raft_log_key_spec(region_id, 0), found),
        store.contains(raft_log_key_spec(region_id, some_idx)),
    ensures
        found is Some,
        has_raft_log_prefix(region_id, found->Some_0),
        bytes_le(found->Some_0, raft_log_key_spec(region_id, some_idx)),
{
    let start = raft_log_key_spec(region_id, 0);
    let given = raft_log_key_spec(region_id, some_idx);
    lemma_start_key_is_least(region_id, some_idx);
    assert(store.contains(given));
    let k = found->Some_0;
    lemma_raft_log_key_shape(region_id, 0);
    lemma_raft_log_key_shape(region_id, some_idx);
    assert forall|t: int| 0 <= t < 11 implies start[t] == given[t] by {
        assert(start.subrange(0, 11)[t] == given.subrange(0, 11)[t]);
    }
    lemma_between_shares_prefix(start, k, given, 11);
    assert forall|t: int| 0 <= t < 11 implies k.subrange(0, 11)[t] == start.subrange(0, 11)[t] by {
        assert(start.subrange(0, 11)[t] == start[t]);
    }
    assert(k.subrange(0, 11) =~= start.subrange(0, 11));
}

/// Where the region has a log entry, a seek from its log start that comes
/// to rest on a key of 19 bytes has found the entry with the least index: the
/// index read from that key is that of an entry of the region, and no entry
/// of the region has a smaller one.
pub proof fn lemma_seek_finds_first_entry(
    store: Set<Seq<u8>>,
    region_id: u64,
    found: Option<Seq<u8>>,
    some_idx: u64,
)
    requires
        is_seek_result(store, raft_log_key_spec(region_id, 0), found),
        store.contains(raft_log_key_spec(region_id, some_idx)),
        found is Some ==> !is_malformed_raft_log_key_of(region_id, found->Some_0),
    ensures
        found is Some,
        is_raft_log_key_of(region_id, found->Some_0),
        found->Some_0 == raft_log_key_spec(region_id, raft_log_index_spec(found->Some_0)->Ok_0),
        log_indices(store, region_id).contains(raft_log_index_spec(found->Some_0)->Ok_0),
        forall|i: u64| #[trigger]
            log_indices(store, region_id).contains(i) ==> raft_log_index_spec(found->Some_0)->Ok_0
                <= i,
{
    lemma_seek_stays_in_region(store, region_id, found, some_idx);
    let k = found->Some_0;
    lemma_raft_log_key_of_region(region_id, k);
    let first = raft_log_index_spec(k)->Ok_0;
    assert forall|i: u64| #[trigger] log_indices(store, region_id).contains(i) implies first
        <= i by {
        lemma_start_key_is_least(region_id, i);
        assert(store.contains(raft_log_key_spec(region_id, i)));
        lemma_raft_log_key_order(region_id, first, i);
    }
}

/// The log key of index 0 does not sort after any log key of its region, and
/// a log key has 19 bytes.
proof fn lemma_start_key_is_least(region_id: u64, idx: u64)
    ensures
        bytes_le(raft_log_key_spec(region_id, 0), raft_log_key_spec(region_id, idx)),
        raft_log_key_spec(region_id, idx).len() == 19,
{
    lemma_raft_log_key_shape(region_id, idx);
    if idx > 0 {
        lemma_raft_log_keys_sorted(region_id, 0, idx);
    }
}

/// The batch of a compaction holds the keys of the indices from `first_idx`
/// up to `compact_idx` of the region, and no other key.
pub proof fn lemma_deleted_keys(region_id: u64, first_idx: u64, compact_idx: u64, key: Seq<u8>)
    ensures
        deleted_keys_spec(region_id, first_idx, compact_idx).contains(key) <==> exists|i: u64|
            first_idx <= i < compact_idx && key == #[trigger] raft_log_key_spec(region_id, i),
{
    let keys = deleted_keys_spec(region_id, first_idx, compact_idx);
    if keys.contains(key) {
        let j = choose|j: int| 0 <= j < keys.len() && keys[j] == key;
        let i = (first_idx + j) as u64;
        assert(first_idx <= i < compact_idx && key == raft_log_key_spec(region_id, i));
    }
    if exists|i: u64|
        first_idx <= i < compact_idx && key == #[trigger] raft_log_key_spec(region_id, i) {
        let i = choose|i: u64|
            first_idx <= i < compact_idx && key == #[trigger] raft_log_key_spec(region_id, i);
        assert(keys[i - first_idx] == key);
    }
}

/// Planning fails exactly where the key that the seek found starts with the
/// region's log prefix and has not the length of a log key.
pub proof fn lemma_first_index_fails_on_malformed_only(
    region_id: u64,
    found: Option<Seq<u8>>,
    compact_idx: u64,
)
    ensures
        first_index_spec(region_id, found, compact_idx) is Err <==> found is Some
            && is_malformed_raft_log_key_of(region_id, found->Some_0),
{
}

/// Where the region has no log entry below `compact_idx`, a compaction to
/// `compact_idx` deletes nothing: whatever else the column family holds, the
/// batch is empty, the count is 0 and the keys stay as they are. It fails
/// only where the key found is a malformed log key of the region.
pub proof fn lemma_nothing_below_is_noop(
    store: Set<Seq<u8>>,
    region_id: u64,
    compact_idx: u64,
    found: Option<Seq<u8>>,
)
    requires
        is_seek_result(store, raft_log_key_spec(region_id, 0), found),
        forall|i: u64| i < compact_idx ==> !store.contains(#[trigger] raft_log_key_spec(region_id, i)),
    ensures
        match first_index_spec(region_id, found, compact_idx) {
            Ok(first_idx) => {
                &&& deleted_count_spec(first_idx, compact_idx) == 0
                &&& deleted_keys_spec(region_id, first_idx, compact_idx) == Seq::<Seq<u8>>::empty()
                &&& after_deletes(store, deleted_keys_spec(region_id, first_idx, compact_idx))
                    == store
            },
            Err(_) => found is Some && is_malformed_raft_log_key_of(region_id, found->Some_0),
        },
{
    if let Some(k) = found {
        if is_raft_log_key_of(region_id, k) {
            lemma_raft_log_key_of_region(region_id, k);
            assert(store.contains(k));
        }
    }
    assert(after_deletes(store, Seq::<Seq<u8>>::empty()) =~= store);
}

/// Once the batch of a compaction from `first_idx` to `compact_idx` is
/// written, the region has no log entry left at an index in between, it has
/// every other of its log entries exactly where it had one before, and every
/// key outside the batch is there exactly if it was.
pub proof fn lemma_compaction_removes_range(
    store: Set<Seq<u8>>,
    region_id: u64,
    first_idx: u64,
    compact_idx: u64,
)
    requires
        first_idx < compact_idx,
    ensures
        ({
            let left = after_deletes(store, deleted_keys_spec(region_id, first_idx, compact_idx));
            &&& forall|i: u64|
                first_idx <= i < compact_idx ==> !left.contains(
                    #[trigger] raft_log_key_spec(region_id, i),
                )
            &&& forall|i: u64|
                !(first_idx <= i < compact_idx) ==> (left.contains(
                    #[trigger] raft_log_key_spec(region_id, i),
                ) <==> store.contains(raft_log_key_spec(region_id, i)))
            &&& forall|k: Seq<u8>|
                !deleted_keys_spec(region_id, first_idx, compact_idx).contains(k) ==> (
                #[trigger] left.contains(k) <==> store.contains(k))
            &&& log_indices(left, region_id) == log_indices(store, region_id).filter(
                |i: u64| !(first_idx <= i < compact_idx),
            )
        }),
{
    let keys = deleted_keys_spec(region_id, first_idx, compact_idx);
    let left = after_deletes(store, keys);
    assert forall|i: u64| first_idx <= i < compact_idx implies !left.contains(
        #[trigger] raft_log_key_spec(region_id, i),
    ) by {
        lemma_deleted_keys(region_id, first_idx, compact_idx, raft_log_key_spec(region_id, i));
    }
    assert forall|i: u64| !(first_idx <= i < compact_idx) implies (left.contains(
        #[trigger] raft_log_key_spec(region_id, i),
    ) <==> store.contains(raft_log_key_spec(region_id, i))) by {
        let k = raft_log_key_spec(region_id, i);
        lemma_deleted_keys(region_id, first_idx, compact_idx, k);
        if keys.contains(k) {
            let j = choose|j: u64|
                first_idx <= j < compact_idx && k == #[trigger] raft_log_key_spec(region_id, j);
            lemma_raft_log_key_injective(region_id, i, j);
        }
    }
    assert(log_indices(left, region_id) =~= log_indices(store, region_id).filter(
        |i: u64| !(first_idx <= i < compact_idx),
    ));
}

/// A second compaction to the same index, made after the batch of the first
/// was written, deletes nothing: the batch is empty and the count is 0. It
/// fails only where the key found is a malformed log key of the region.
pub proof fn lemma_second_compaction_is_noop(
    store: Set<Seq<u8>>,
    region_id: u64,
    compact_idx: u64,
    found: Option<Seq<u8>>,
    found_again: Option<Seq<u8>>,
)
    requires
        is_seek_result(store, raft_log_key_spec(region_id, 0), found),
        first_index_spec(region_id, found, compact_idx) is Ok,
        is_seek_result(
            after_deletes(
                store,
                deleted_keys_spec(
                    region_id,
                    first_index_spec(region_id, found, compact_idx)->Ok_0,
                    compact_idx,
                ),
            ),
            raft_log_key_spec(region_id, 0),
            found_again,
        ),
    ensures
        match first_index_spec(region_id, found_again, compact_idx) {
            Ok(first_idx) => {
                &&& deleted_count_spec(first_idx, compact_idx) == 0
                &&& deleted_keys_spec(region_id, first_idx, compact_idx) == Seq::<Seq<u8>>::empty()
            },
            Err(_) => found_again is Some && is_malformed_raft_log_key_of(
                region_id,
                found_again->Some_0,
            ),
        },
{
    let first_idx = first_index_spec(region_id, found, compact_idx)->Ok_0;
    let keys = deleted_keys_spec(region_id, first_idx, compact_idx);
    let left = after_deletes(store, keys);
    if let Some(k2) = found_again {
        if is_raft_log_key_of(region_id, k2) {
            lemma_raft_log_key_of_region(region_id, k2);
            let j = raft_log_index_spec(k2)->Ok_0;
            assert(left.contains(k2));
            if j < compact_idx {
                lemma_seek_stays_in_region(store, region_id, found, j);
                lemma_seek_finds_first_entry(store, region_id, found, j);
                assert(log_indices(store, region_id).contains(j));
                assert(first_idx <= j);
                lemma_deleted_keys(region_id, first_idx, compact_idx, k2);
                assert(false);
            }
        }
    }
}

/// A range compaction with an empty start key reaches down to the smallest
/// key, one with an empty end key takes in every key from its start on, and
/// one with both empty takes in every key.
pub proof fn lemma_empty_bounds_are_open(start_key: Seq<u8>, end_key: Seq<u8>, key: Seq<u8>)
    ensures
        start_key.len() == 0 ==> range_covers(
            range_bound_spec(start_key),
            range_bound_spec(end_key),
            key,
        ) == range_covers(Some(Seq::<u8>::empty()), range_bound_spec(end_key), key),
        end_key.len() == 0 ==> range_covers(
            range_bound_spec(start_key),
            range_bound_spec(end_key),
            key,
        ) == range_covers(range_bound_spec(start_key), None, key),
        start_key.len() == 0 && end_key.len() == 0 ==> range_covers(
            range_bound_spec(start_key),
            range_bound_spec(end_key),
            key,
        ),
        start_key.len() > 0 && end_key.len() > 0 ==> range_covers(
            range_bound_spec(start_key),
            range_bound_spec(end_key),
            key,
        ) == (bytes_le(start_key, key) && bytes_lt(key, end_key)),
{
    lemma_empty_is_least(key);
}

} // verus!
