//! The mathematical model of the token table: a map from tokens to the read
//! state recorded under them, and the transitions one poll applies to it.

use vstd::prelude::*;

verus! {

/// What a record holds, with its strings as character sequences.
pub struct RecordView {
    /// Length of the file, in bytes, when the record was made.
    pub size: u64,
    /// Second at which the record was made.
    pub read: u64,
    /// The token the record is filed under.
    pub next_key: Seq<char>,
    /// The token that was presented on the poll that made the record.
    pub previous_key: Option<Seq<char>>,
}

/// The table: at most one record per token.
pub type Table = Map<Seq<char>, RecordView>;

/// Which bytes one poll delivers and whether it retires the presented token.
#[derive(Clone, Copy, Debug, PartialEq, Eq)]
pub struct ReadPlan {
    /// Offset of the first byte to deliver.
    pub start: u64,
    /// Number of bytes to deliver.
    pub length: u64,
    /// Whether the presented token was accepted as the predecessor.
    pub retire: bool,
}

/// A record made at second `read` is live at second `now` while its age
/// does not exceed the time to live.
pub open spec fn is_live(read: u64, now: u64, ttl: u64) -> bool {
    now - read <= ttl
}

/// The table without the records that are no longer live at `now`.
pub open spec fn swept(t: Table, now: u64, ttl: u64) -> Table {
    Map::new(|k: Seq<char>| t.contains_key(k) && is_live(t[k].read, now, ttl), |k: Seq<char>| t[k])
}

/// Whether `key` names a record that a poll at `now`, seeing a file of
/// `size` bytes, accepts as its predecessor: the record is present, live,
/// and the file has not shrunk below the size it recorded.
pub open spec fn accepts(t: Table, key: Seq<char>, size: u64, now: u64, ttl: u64) -> bool {
    &&& t.contains_key(key)
    &&& is_live(t[key].read, now, ttl)
    &&& t[key].size <= size
}

/// The plan of a poll that presents `key` at `now` and sees a file of
/// `size` bytes: from the recorded size if the token is accepted, from the
/// start of the file otherwise, and in both cases up to the current size.
pub open spec fn planned(t: Table, key: Seq<char>, size: u64, now: u64, ttl: u64) -> ReadPlan {
    if accepts(t, key, size, now, ttl) {
        ReadPlan { start: t[key].size, length: (size - t[key].size) as u64, retire: true }
    } else {
        ReadPlan { start: 0, length: size, retire: false }
    }
}

/// The record a poll files under the token it issues.
pub open spec fn issued(key: Seq<char>, size: u64, now: u64, next_key: Seq<char>) -> RecordView {
    RecordView { size, read: now, next_key, previous_key: Some(key) }
}

/// The table after a poll has answered: the new record is filed under
/// `next_key`, then the record under the presented `key` is removed if the
/// poll accepted it.
pub open spec fn rotated(
    t: Table,
    key: Seq<char>,
    retire: bool,
    size: u64,
    now: u64,
    next_key: Seq<char>,
) -> Table {
    let filed = t.insert(next_key, issued(key, size, now, next_key));
    if retire {
        filed.remove(key)
    } else {
        filed
    }
}

} // verus!
