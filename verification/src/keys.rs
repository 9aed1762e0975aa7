//! Byte keys of raft log entries.
//!
//! A log entry of region `r` at index `i` is stored under a key of 19 bytes:
//! two prefix bytes, `r` in big-endian, one suffix byte, `i` in big-endian.
//! Within one region the keys sort by index.

use vstd::prelude::*;

verus! {

/// First byte of every key that is local to one store.
pub const LOCAL_PREFIX: u8 = 0x01;

/// Second byte of every key that belongs to the raft state of a region.
pub const REGION_RAFT_PREFIX: u8 = 0x02;

/// The byte between the region id and the index of a raft log key.
pub const RAFT_LOG_SUFFIX: u8 = 0x01;

/// Length of the part of a raft log key that comes before the index.
pub const RAFT_LOG_PREFIX_LEN: usize = 11;

/// Length of a raft log key.
pub const RAFT_LOG_KEY_LEN: usize = 19;

/// Why a key could not be read as a raft log key.
#[derive(Debug, Clone, Copy, PartialEq, Eq, Structural)]
pub enum KeyError {
    /// The key has `len` bytes, a raft log key has 19.
    InvalidLength { len: usize },
}

/// The eight bytes of `v`, most significant first: each byte is what is left
/// of `v` after the bytes below it are cut off, taken modulo 256.
pub open spec fn be_bytes(v: u64) -> Seq<u8> {
    let q1 = v / 256;
    let q2 = q1 / 256;
    let q3 = q2 / 256;
    let q4 = q3 / 256;
    let q5 = q4 / 256;
    let q6 = q5 / 256;
    let q7 = q6 / 256;
    seq![
        q7 as u8,
        (q6 % 256) as u8,
        (q5 % 256) as u8,
        (q4 % 256) as u8,
        (q3 % 256) as u8,
        (q2 % 256) as u8,
        (q1 % 256) as u8,
        (v % 256) as u8,
    ]
}

/// The number that eight bytes spell, most significant first.
pub open spec fn be_value(b: Seq<u8>) -> int
    recommends
        b.len() == 8,
{
    b[0] * 0x100_0000_0000_0000 + b[1] * 0x1_0000_0000_0000 + b[2] * 0x100_0000_0000 + b[3]
        * 0x1_0000_0000 + b[4] * 0x100_0000 + b[5] * 0x1_0000 + b[6] * 0x100 + b[7]
}

/// What every log key of region `region_id` starts with.
pub open spec fn raft_log_prefix_spec(region_id: u64) -> Seq<u8> {
    seq![LOCAL_PREFIX, REGION_RAFT_PREFIX] + be_bytes(region_id) + seq![RAFT_LOG_SUFFIX]
}

/// The key of the log entry of region `region_id` at index `log_index`.
pub open spec fn raft_log_key_spec(region_id: u64, log_index: u64) -> Seq<u8> {
    raft_log_prefix_spec(region_id) + be_bytes(log_index)
}

/// The index that a key of 19 bytes carries in its last eight.
pub open spec fn raft_log_index_spec(key: Seq<u8>) -> Result<u64, KeyError> {
    if key.len() == RAFT_LOG_KEY_LEN as int {
        Ok(be_value(key.subrange(RAFT_LOG_PREFIX_LEN as int, RAFT_LOG_KEY_LEN as int)) as u64)
    } else {
        Err(KeyError::InvalidLength { len: key.len() as usize })
    }
}

/// Whether `key` starts as every log key of region `region_id` does.
pub open spec fn has_raft_log_prefix(region_id: u64, key: Seq<u8>) -> bool {
    key.len() >= RAFT_LOG_PREFIX_LEN && key.subrange(0, RAFT_LOG_PREFIX_LEN as int)
        == raft_log_prefix_spec(region_id)
}

/// Whether `key` is the key of a log entry of region `region_id`: 19 bytes
/// that start with the region's log prefix.
pub open spec fn is_raft_log_key_of(region_id: u64, key: Seq<u8>) -> bool {
    key.len() == RAFT_LOG_KEY_LEN && has_raft_log_prefix(region_id, key)
}

/// Whether `key` lies among the log keys of region `region_id` without being
/// one: it starts with the region's log prefix and has not 19 bytes.
pub open spec fn is_malformed_raft_log_key_of(region_id: u64, key: Seq<u8>) -> bool {
    key.len() != RAFT_LOG_KEY_LEN && has_raft_log_prefix(region_id, key)
}

/// Eight bytes spell a number that fits in 64 bits.
pub proof fn lemma_be_value_bounds(b: Seq<u8>)
    requires
        b.len() == 8,
    ensures
        0 <= be_value(b) <= u64::MAX,
{
}

/// Spelling a number and reading it back gives the number.
pub proof fn lemma_be_value_of_bytes(v: u64)
    ensures
        be_bytes(v).len() == 8,
        be_value(be_bytes(v)) == v,
{
    let q1 = v / 256;
    let q2 = q1 / 256;
    let q3 = q2 / 256;
    let q4 = q3 / 256;
    let q5 = q4 / 256;
    let q6 = q5 / 256;
    let q7 = q6 / 256;
    assert(v == 256 * q1 + v % 256);
    assert(q1 == 256 * q2 + q1 % 256);
    assert(q2 == 256 * q3 + q2 % 256);
    assert(q3 == 256 * q4 + q3 % 256);
    assert(q4 == 256 * q5 + q4 % 256);
    assert(q5 == 256 * q6 + q5 % 256);
    assert(q6 == 256 * q7 + q6 % 256);
    assert(q7 < 256);
}

/// Cutting the lowest byte off a number: what is left, and the byte.
proof fn lemma_cut_byte(high: int, low: u8)
    requires
        0 <= high,
    ensures
        (256 * high + low) / 256 == high,
        (256 * high + low) % 256 == low,
{
}

/// Reading eight bytes and spelling the number gives the bytes.
pub proof fn lemma_be_bytes_of_value(b: Seq<u8>)
    requires
        b.len() == 8,
    ensures
        be_bytes(be_value(b) as u64) == b,
{
    lemma_be_value_bounds(b);
    let v = be_value(b) as u64;
    let top7: int = b[0] as int;
    let top6: int = 256 * top7 + b[1];
    let top5: int = 256 * top6 + b[2];
    let top4: int = 256 * top5 + b[3];
    let top3: int = 256 * top4 + b[4];
    let top2: int = 256 * top3 + b[5];
    let top1: int = 256 * top2 + b[6];
    assert(v == 256 * top1 + b[7]);
    lemma_cut_byte(top1, b[7]);
    lemma_cut_byte(top2, b[6]);
    lemma_cut_byte(top3, b[5]);
    lemma_cut_byte(top4, b[4]);
    lemma_cut_byte(top5, b[3]);
    lemma_cut_byte(top6, b[2]);
    lemma_cut_byte(top7, b[1]);
    assert(be_bytes(v) =~= b);
}

/// A raft log key has 19 bytes, starts with its region's prefix and ends with
/// the bytes of its index.
pub proof fn lemma_raft_log_key_shape(region_id: u64, log_index: u64)
    ensures
        raft_log_prefix_spec(region_id).len() == RAFT_LOG_PREFIX_LEN,
        raft_log_key_spec(region_id, log_index).len() == RAFT_LOG_KEY_LEN,
        raft_log_key_spec(region_id, log_index).subrange(0, RAFT_LOG_PREFIX_LEN as int)
            == raft_log_prefix_spec(region_id),
        raft_log_key_spec(region_id, log_index).subrange(
            RAFT_LOG_PREFIX_LEN as int,
            RAFT_LOG_KEY_LEN as int,
        ) == be_bytes(log_index),
{
    let key = raft_log_key_spec(region_id, log_index);
    assert(key.subrange(0, RAFT_LOG_PREFIX_LEN as int) =~= raft_log_prefix_spec(region_id));
    assert(key.subrange(RAFT_LOG_PREFIX_LEN as int, RAFT_LOG_KEY_LEN as int) =~= be_bytes(
        log_index,
    ));
}

/// The index of a raft log key can be read back from the key.
pub proof fn lemma_raft_log_index_of_key(region_id: u64, log_index: u64)
    ensures
        raft_log_index_spec(raft_log_key_spec(region_id, log_index)) == Ok::<u64, KeyError>(
            log_index,
        ),
{
    lemma_raft_log_key_shape(region_id, log_index);
    lemma_be_value_of_bytes(log_index);
}

/// A key of 19 bytes that starts with the log prefix of a region is the log
/// key of that region at the index that its last eight bytes spell.
pub proof fn lemma_raft_log_key_of_region(region_id: u64, key: Seq<u8>)
    requires
        is_raft_log_key_of(region_id, key),
    ensures
        raft_log_index_spec(key) is Ok,
        key == raft_log_key_spec(region_id, raft_log_index_spec(key)->Ok_0),
{
    let tail = key.subrange(RAFT_LOG_PREFIX_LEN as int, RAFT_LOG_KEY_LEN as int);
    lemma_be_bytes_of_value(tail);
    lemma_raft_log_key_shape(region_id, be_value(tail) as u64);
    let made = raft_log_key_spec(region_id, be_value(tail) as u64);
    assert forall|t: int| 0 <= t < 19 implies key[t] == made[t] by {
        if t < 11 {
            assert(key[t] == key.subrange(0, 11)[t]);
            assert(made[t] == made.subrange(0, 11)[t]);
        } else {
            assert(made[t] == made.subrange(11, 19)[t - 11]);
            assert(tail[t - 11] == key[t]);
        }
    }
    assert(key =~= made);
}

/// Every log key of a region starts with the region's log prefix and has 19
/// bytes.
pub proof fn lemma_raft_log_key_is_of_region(region_id: u64, log_index: u64)
    ensures
        is_raft_log_key_of(region_id, raft_log_key_spec(region_id, log_index)),
{
    lemma_raft_log_key_shape(region_id, log_index);
}

/// No log key of one region starts with the log prefix of another.
pub proof fn lemma_raft_log_key_of_other_region(region_id: u64, other_id: u64, log_index: u64)
    requires
        region_id != other_id,
    ensures
        !has_raft_log_prefix(region_id, raft_log_key_spec(other_id, log_index)),
{
    let key = raft_log_key_spec(other_id, log_index);
    lemma_raft_log_key_shape(other_id, log_index);
    lemma_be_value_of_bytes(region_id);
    lemma_be_value_of_bytes(other_id);
    if has_raft_log_prefix(region_id, key) {
        let mine = raft_log_prefix_spec(region_id);
        let theirs = raft_log_prefix_spec(other_id);
        assert(mine == theirs);
        assert(mine.subrange(2, 10) =~= be_bytes(region_id));
        assert(theirs.subrange(2, 10) =~= be_bytes(other_id));
    }
}

/// Two log entries of one region have the same key only if they have the
/// same index.
pub proof fn lemma_raft_log_key_injective(region_id: u64, a: u64, b: u64)
    requires
        raft_log_key_spec(region_id, a) == raft_log_key_spec(region_id, b),
    ensures
        a == b,
{
    lemma_raft_log_index_of_key(region_id, a);
    lemma_raft_log_index_of_key(region_id, b);
}

/// Appends the eight bytes of `v`, most significant first, to `out`.
fn push_be_u64(out: &mut Vec<u8>, v: u64)
    ensures
        final(out)@ == old(out)@ + be_bytes(v),
{
    let q1: u64 = v / 256;
    let q2: u64 = q1 / 256;
    let q3: u64 = q2 / 256;
    let q4: u64 = q3 / 256;
    let q5: u64 = q4 / 256;
    let q6: u64 = q5 / 256;
    let q7: u64 = q6 / 256;
    out.push(q7 as u8);
    out.push((q6 % 256) as u8);
    out.push((q5 % 256) as u8);
    out.push((q4 % 256) as u8);
    out.push((q3 % 256) as u8);
    out.push((q2 % 256) as u8);
    out.push((q1 % 256) as u8);
    out.push((v % 256) as u8);
    assert(out@ =~= old(out)@ + be_bytes(v));
}

/// Builds the key of the log entry of region `region_id` at index
/// `log_index`.
pub fn raft_log_key(region_id: u64, log_index: u64) -> (key: Vec<u8>)
    ensures
        key@ == raft_log_key_spec(region_id, log_index),
        key@.len() == RAFT_LOG_KEY_LEN,
{
    let mut key: Vec<u8> = Vec::new();
    key.push(LOCAL_PREFIX);
    key.push(REGION_RAFT_PREFIX);
    push_be_u64(&mut key, region_id);
    key.push(RAFT_LOG_SUFFIX);
    push_be_u64(&mut key, log_index);
    assert(key@ =~= raft_log_key_spec(region_id, log_index));
    key
}

/// Tells whether `key` starts as every log key of region `region_id` does.
pub fn starts_with_raft_log_prefix(region_id: u64, key: &[u8]) -> (yes: bool)
    ensures
        yes == has_raft_log_prefix(region_id, key@),
{
    if key.len() < RAFT_LOG_PREFIX_LEN {
        return false;
    }
    let start = raft_log_key(region_id, 0);
    proof {
        lemma_raft_log_key_shape(region_id, 0);
    }
    let mut i: usize = 0;
    while i < RAFT_LOG_PREFIX_LEN
        invariant
            0 <= i <= 11,
            key@.len() >= 11,
            start@ == raft_log_key_spec(region_id, 0),
            start@.len() == 19,
            forall|t: int| 0 <= t < i ==> key@[t] == start@[t],
        decreases 11 - i,
    {
        if key[i] != start[i] {
            proof {
                assert(key@.subrange(0, 11)[i as int] == key@[i as int]);
                assert(start@.subrange(0, 11)[i as int] == start@[i as int]);
            }
            return false;
        }
        i = i + 1;
    }
    proof {
        assert forall|t: int| 0 <= t < 11 implies key@.subrange(0, 11)[t] == raft_log_prefix_spec(
            region_id,
        )[t] by {
            assert(start@.subrange(0, 11)[t] == start@[t]);
        }
        assert(key@.subrange(0, 11) =~= raft_log_prefix_spec(region_id));
    }
    true
}

/// Reads the index out of a raft log key. Only the length of the key is
/// examined: any key of 19 bytes yields the number in its last eight bytes.
pub fn raft_log_index(key: &[u8]) -> (res: Result<u64, KeyError>)
    ensures
        res == raft_log_index_spec(key@),
{
    if key.len() != RAFT_LOG_KEY_LEN {
        return Err(KeyError::InvalidLength { len: key.len() });
    }
    proof {
        lemma_be_value_bounds(key@.subrange(RAFT_LOG_PREFIX_LEN as int, RAFT_LOG_KEY_LEN as int));
    }
    let v: u64 = (key[11] as u64) * 0x100_0000_0000_0000 + (key[12] as u64) * 0x1_0000_0000_0000
        + (key[13] as u64) * 0x100_0000_0000 + (key[14] as u64) * 0x1_0000_0000 + (key[15] as u64)
        * 0x100_0000 + (key[16] as u64) * 0x1_0000 + (key[17] as u64) * 0x100 + (key[18] as u64);
    Ok(v)
}

} // verus!
