//! The order in which the engine keeps its keys: byte by byte, a proper
//! prefix before what extends it.

use vstd::prelude::*;
use crate::keys::{
    be_bytes, be_value, lemma_be_value_of_bytes, lemma_raft_log_key_shape, raft_log_key_spec,
    raft_log_prefix_spec,
};

verus! {

/// `a` and `b` agree before position `i`, and there `a` has ended or holds
/// the smaller byte, while `b` goes on.
pub open spec fn parts_at(a: Seq<u8>, b: Seq<u8>, i: int) -> bool {
    &&& 0 <= i <= a.len()
    &&& i < b.len()
    &&& forall|j: int| 0 <= j < i ==> a[j] == b[j]
    &&& (i < a.len() ==> a[i] < b[i])
}

/// `a` sorts before `b`.
pub open spec fn bytes_lt(a: Seq<u8>, b: Seq<u8>) -> bool {
    exists|i: int| parts_at(a, b, i)
}

/// `a` sorts before `b` or is `b`.
pub open spec fn bytes_le(a: Seq<u8>, b: Seq<u8>) -> bool {
    a == b || bytes_lt(a, b)
}

/// No key sorts before the empty key.
pub proof fn lemma_empty_is_least(k: Seq<u8>)
    ensures
        bytes_le(Seq::<u8>::empty(), k),
{
    if k.len() == 0 {
        assert(k =~= Seq::<u8>::empty());
    } else {
        assert(parts_at(Seq::<u8>::empty(), k, 0));
    }
}

/// No key sorts before itself, and of two keys at most one sorts before the
/// other.
pub proof fn lemma_bytes_lt_asymmetric(a: Seq<u8>, b: Seq<u8>)
    requires
        bytes_lt(a, b),
    ensures
        a != b,
        !bytes_lt(b, a),
{
    let i = choose|i: int| parts_at(a, b, i);
    if bytes_lt(b, a) {
        let j = choose|j: int| parts_at(b, a, j);
        assert(i < j || j < i || i == j);
    }
}

/// A key that lies between two keys with a common start has that start too.
pub proof fn lemma_between_shares_prefix(a: Seq<u8>, k: Seq<u8>, b: Seq<u8>, n: int)
    requires
        bytes_le(a, k),
        bytes_le(k, b),
        0 <= n <= a.len(),
        n <= b.len(),
        forall|t: int| 0 <= t < n ==> a[t] == b[t],
    ensures
        n <= k.len(),
        forall|t: int| 0 <= t < n ==> k[t] == a[t],
{
    if a != k && k != b {
        let i = choose|i: int| parts_at(a, k, i);
        let j = choose|j: int| parts_at(k, b, j);
        if k.len() < n {
            assert(a[i] < k[i]);
            assert(j <= i);
            assert(false);
        }
        assert forall|t: int| 0 <= t < n implies k[t] == a[t] by {
            if k[t] != a[t] {
                assert(i <= t);
                assert(a[i] < k[i]);
                assert(j <= i);
            }
        }
    }
}

/// Of two runs of eight bytes, the one with the smaller byte at the first
/// place where they differ spells the smaller number.
pub proof fn lemma_be_value_order(x: Seq<u8>, y: Seq<u8>, i: int)
    requires
        x.len() == 8,
        y.len() == 8,
        0 <= i < 8,
        forall|t: int| 0 <= t < i ==> x[t] == y[t],
        x[i] < y[i],
    ensures
        be_value(x) < be_value(y),
{
    if i == 0 {
    } else if i == 1 {
        assert(x[0] == y[0]);
    } else if i == 2 {
        assert(x[0] == y[0] && x[1] == y[1]);
    } else if i == 3 {
        assert(x[0] == y[0] && x[1] == y[1] && x[2] == y[2]);
    } else if i == 4 {
        assert(x[0] == y[0] && x[1] == y[1] && x[2] == y[2] && x[3] == y[3]);
    } else if i == 5 {
        assert(x[0] == y[0] && x[1] == y[1] && x[2] == y[2] && x[3] == y[3] && x[4] == y[4]);
    } else if i == 6 {
        assert(x[0] == y[0] && x[1] == y[1] && x[2] == y[2] && x[3] == y[3] && x[4] == y[4]
            && x[5] == y[5]);
    } else {
        assert(x[0] == y[0] && x[1] == y[1] && x[2] == y[2] && x[3] == y[3] && x[4] == y[4]
            && x[5] == y[5] && x[6] == y[6]);
    }
}

/// Two different runs of eight bytes differ at some first place.
proof fn lemma_first_difference(x: Seq<u8>, y: Seq<u8>) -> (i: int)
    requires
        x.len() == 8,
        y.len() == 8,
        x != y,
    ensures
        0 <= i < 8,
        forall|t: int| 0 <= t < i ==> x[t] == y[t],
        x[i] != y[i],
{
    if x[0] != y[0] {
        0
    } else if x[1] != y[1] {
        1
    } else if x[2] != y[2] {
        2
    } else if x[3] != y[3] {
        3
    } else if x[4] != y[4] {
        4
    } else if x[5] != y[5] {
        5
    } else if x[6] != y[6] {
        6
    } else {
        assert(x[7] != y[7]) by {
            if x[7] == y[7] {
                assert(x =~= y);
            }
        }
        7
    }
}

/// Within one region the log key of the smaller index sorts first.
pub proof fn lemma_raft_log_keys_sorted(region_id: u64, a: u64, b: u64)
    requires
        a < b,
    ensures
        bytes_lt(raft_log_key_spec(region_id, a), raft_log_key_spec(region_id, b)),
{
    let ka = raft_log_key_spec(region_id, a);
    let kb = raft_log_key_spec(region_id, b);
    lemma_raft_log_key_shape(region_id, a);
    lemma_raft_log_key_shape(region_id, b);
    lemma_be_value_of_bytes(a);
    lemma_be_value_of_bytes(b);
    let x = be_bytes(a);
    let y = be_bytes(b);
    let i = lemma_first_difference(x, y);
    if x[i] > y[i] {
        lemma_be_value_order(y, x, i);
    }
    let p = raft_log_prefix_spec(region_id);
    assert forall|j: int| 0 <= j < 11 + i implies ka[j] == kb[j] by {
        if j < 11 {
            assert(ka[j] == p[j]);
            assert(kb[j] == p[j]);
        } else {
            assert(ka[j] == x[j - 11]);
            assert(kb[j] == y[j - 11]);
        }
    }
    assert(ka[11 + i] == x[i]);
    assert(kb[11 + i] == y[i]);
    assert(parts_at(ka, kb, 11 + i));
}

/// Within one region the log keys sort as their indices do: a key that does
/// not sort after another has the index that is not larger.
pub proof fn lemma_raft_log_key_order(region_id: u64, a: u64, b: u64)
    requires
        bytes_le(raft_log_key_spec(region_id, a), raft_log_key_spec(region_id, b)),
    ensures
        a <= b,
{
    let ka = raft_log_key_spec(region_id, a);
    let kb = raft_log_key_spec(region_id, b);
    lemma_raft_log_key_shape(region_id, a);
    lemma_raft_log_key_shape(region_id, b);
    lemma_be_value_of_bytes(a);
    lemma_be_value_of_bytes(b);
    if ka == kb {
        crate::keys::lemma_raft_log_key_injective(region_id, a, b);
    } else {
        let i = choose|i: int| parts_at(ka, kb, i);
        let p = raft_log_prefix_spec(region_id);
        assert forall|t: int| 0 <= t < 11 implies ka[t] == kb[t] by {
            assert(ka[t] == p[t]);
            assert(kb[t] == p[t]);
        }
        assert(11 <= i < 19);
        let x = be_bytes(a);
        let y = be_bytes(b);
        assert forall|t: int| 0 <= t < i - 11 implies x[t] == y[t] by {
            assert(ka[t + 11] == x[t]);
            assert(kb[t + 11] == y[t]);
        }
        assert(ka[i] == x[i - 11]);
        assert(kb[i] == y[i - 11]);
        lemma_be_value_order(x, y, i - 11);
    }
}

} // verus!
