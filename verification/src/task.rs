//! The units of work that the compaction worker accepts.

use vstd::prelude::*;

verus! {

/// One unit of deferred work. Whoever holds the engine hands the task on
/// together with its handle; the task itself carries only what decides the
/// work.
#[derive(Debug, Clone, PartialEq, Eq)]
pub enum Task {
    /// Compact the lock column family between two keys. An empty `start_key`
    /// stands for the smallest key, an empty `end_key` for the largest.
    CompactLockCF { start_key: Vec<u8>, end_key: Vec<u8> },
    /// Remove the log entries of region `region_id` below `compact_idx`.
    CompactRaftLog { region_id: u64, compact_idx: u64 },
}

/// The character of one decimal digit.
pub open spec fn digit_char(d: nat) -> char
    recommends
        d < 10,
{
    if d == 0 {
        '0'
    } else if d == 1 {
        '1'
    } else if d == 2 {
        '2'
    } else if d == 3 {
        '3'
    } else if d == 4 {
        '4'
    } else if d == 5 {
        '5'
    } else if d == 6 {
        '6'
    } else if d == 7 {
        '7'
    } else if d == 8 {
        '8'
    } else {
        '9'
    }
}

/// The decimal digits of `v`, without leading zeros.
pub open spec fn decimal_spec(v: nat) -> Seq<char>
    decreases v,
{
    if v < 10 {
        seq![digit_char(v)]
    } else {
        decimal_spec(v / 10) + seq![digit_char(v % 10)]
    }
}

/// The text that the standard library's `Debug` formatting gives for a run
/// of bytes.
pub uninterp spec fn debug_bytes_text(bytes: Seq<u8>) -> Seq<char>;

/// The summary of a log compaction task.
pub open spec fn raft_log_summary_spec(region_id: u64, compact_idx: u64) -> Seq<char> {
    "Compact Raft Log Task [region: "@ + decimal_spec(region_id as nat) + ", to: "@ + decimal_spec(
        compact_idx as nat,
    ) + "]"@
}

/// The summary of a range compaction task.
pub open spec fn lock_range_summary_spec(start_key: Seq<u8>, end_key: Seq<u8>) -> Seq<char> {
    "Compact Lock CF, range["@ + debug_bytes_text(start_key) + ", "@ + debug_bytes_text(end_key)
        + "]"@
}

/// The text of one decimal digit.
fn digit_text(d: u64) -> (text: &'static str)
    requires
        d < 10,
    ensures
        text@ == seq![digit_char(d as nat)],
{
    proof {
        reveal_strlit("0");
        reveal_strlit("1");
        reveal_strlit("2");
        reveal_strlit("3");
        reveal_strlit("4");
        reveal_strlit("5");
        reveal_strlit("6");
        reveal_strlit("7");
        reveal_strlit("8");
        reveal_strlit("9");
    }
    let text = if d == 0 {
        "0"
    } else if d == 1 {
        "1"
    } else if d == 2 {
        "2"
    } else if d == 3 {
        "3"
    } else if d == 4 {
        "4"
    } else if d == 5 {
        "5"
    } else if d == 6 {
        "6"
    } else if d == 7 {
        "7"
    } else if d == 8 {
        "8"
    } else {
        "9"
    };
    assert(text@ =~= seq![digit_char(d as nat)]);
    text
}

/// Writes `v` in decimal digits.
pub fn decimal(v: u64) -> (text: String)
    ensures
        text@ == decimal_spec(v as nat),
    decreases v,
{
    if v < 10 {
        String::from_str(digit_text(v))
    } else {
        let mut text = decimal(v / 10);
        text.append(digit_text(v % 10));
        text
    }
}

/// Formats `bytes` with the standard library's `Debug` for `Vec<u8>`, through
/// `format!`. Believed, not proved: the text depends on the bytes alone.
#[verifier::external_body]
fn debug_bytes(bytes: &Vec<u8>) -> (text: String)
    ensures
        text@ == debug_bytes_text(bytes@),
{
    format!("{:?}", bytes)
}

impl Task {
    /// What the task's summary reads.
    pub open spec fn summary_spec(&self) -> Seq<char> {
        match *self {
            Task::CompactRaftLog { region_id, compact_idx } => raft_log_summary_spec(
                region_id,
                compact_idx,
            ),
            Task::CompactLockCF { start_key, end_key } => lock_range_summary_spec(
                start_key@,
                end_key@,
            ),
        }
    }

    /// A summary of the task for a log line: the region and the target index,
    /// or the two ends of the range.
    pub fn to_string(&self) -> (text: String)
        ensures
            text@ == self.summary_spec(),
    {
        match self {
            Task::CompactRaftLog { region_id, compact_idx } => {
                let mut text = String::from_str("Compact Raft Log Task [region: ");
                text.append(decimal(*region_id).as_str());
                text.append(", to: ");
                text.append(decimal(*compact_idx).as_str());
                text.append("]");
                text
            },
            Task::CompactLockCF { start_key, end_key } => {
                let mut text = String::from_str("Compact Lock CF, range[");
                text.append(debug_bytes(start_key).as_str());
                text.append(", ");
                text.append(debug_bytes(end_key).as_str());
                text.append("]");
                text
            },
        }
    }
}

} // verus!
