//! The incremental log reader: the token table and the operations of one
//! poll on it.

use vstd::prelude::*;
use crate::key::{is_key, random_key};
use crate::table::{RecordView, Table, ReadPlan, is_live, swept, planned, rotated};

verus! {

/// What one poll returns: the new content, and the token for the next poll.
/// Both are absent when the poll failed.
#[derive(Debug)]
pub struct LogFile {
    pub content: Option<String>,
    pub next_key: Option<String>,
}

/// What a poll's result holds, with its strings as character sequences.
pub struct LogFileView {
    pub content: Option<Seq<char>>,
    pub next_key: Option<Seq<char>>,
}

impl View for LogFile {
    type V = LogFileView;

    open spec fn view(&self) -> LogFileView {
        LogFileView {
            content: match self.content {
                Some(c) => Some(c@),
                None => None,
            },
            next_key: match self.next_key {
                Some(k) => Some(k@),
                None => None,
            },
        }
    }
}

impl LogFile {
    /// The result of a poll that failed: no content and no token.
    pub fn empty() -> (log: LogFile)
        ensures
            log@ == (LogFileView { content: None, next_key: None }),
    {
        LogFile { content: None, next_key: None }
    }
}

/// The read state recorded under one token.
#[derive(Debug)]
pub struct LogFileSize {
    /// Length of the file, in bytes, when the record was made.
    pub size: u64,
    /// Second at which the record was made.
    pub read: u64,
    /// The token the record is filed under.
    pub next_key: String,
    /// The token that was presented on the poll that made the record.
    pub previous_key: Option<String>,
}

impl View for LogFileSize {
    type V = RecordView;

    open spec fn view(&self) -> RecordView {
        RecordView {
            size: self.size,
            read: self.read,
            next_key: self.next_key@,
            previous_key: match self.previous_key {
                Some(k) => Some(k@),
                None => None,
            },
        }
    }
}

impl Clone for LogFileSize {
    fn clone(&self) -> (out: Self)
        ensures
            out@ == self@,
    {
        LogFileSize {
            size: self.size,
            read: self.read,
            next_key: self.next_key.clone(),
            previous_key: match &self.previous_key {
                Some(k) => Some(k.clone()),
                None => None,
            },
        }
    }
}

/// Whether no two records of `records` are filed under the same token.
pub open spec fn distinct_keys(records: Seq<LogFileSize>) -> bool {
    forall|i: int, j: int|
        0 <= i < j < records.len() ==> records[i].next_key@ != records[j].next_key@
}

/// Whether `records` holds a record under `key` at index `i`.
pub open spec fn filed_at(records: Seq<LogFileSize>, key: Seq<char>, i: int) -> bool {
    0 <= i < records.len() && records[i].next_key@ == key
}

/// The table that a list of records stands for.
pub open spec fn table_of(records: Seq<LogFileSize>) -> Table {
    Map::new(
        |k: Seq<char>| exists|i: int| filed_at(records, k, i),
        |k: Seq<char>| records[choose|i: int| filed_at(records, k, i)]@,
    )
}

/// A record filed at index `i` of a list with distinct keys is the one the
/// table holds under its key.
pub proof fn lemma_table_lookup(records: Seq<LogFileSize>, i: int)
    requires
        distinct_keys(records),
        0 <= i < records.len(),
    ensures
        table_of(records).contains_key(records[i].next_key@),
        table_of(records)[records[i].next_key@] == records[i]@,
{
    let k = records[i].next_key@;
    assert(filed_at(records, k, i));
    let c = choose|c: int| filed_at(records, k, c);
    assert(c == i) by {
        if c < i {
            assert(records[c].next_key@ != records[i].next_key@);
        } else if i < c {
            assert(records[i].next_key@ != records[c].next_key@);
        }
    }
}

/// Appending a record under a token that the list does not hold files it
/// in the table and keeps the keys distinct.
pub proof fn lemma_table_push(records: Seq<LogFileSize>, record: LogFileSize)
    requires
        distinct_keys(records),
        !table_of(records).contains_key(record.next_key@),
    ensures
        distinct_keys(records.push(record)),
        table_of(records.push(record)) == table_of(records).insert(record.next_key@, record@),
{
    let grown = records.push(record);
    assert forall|i: int, j: int| 0 <= i < j < grown.len() implies grown[i].next_key@
        != grown[j].next_key@ by {
        if j == records.len() {
            assert(filed_at(records, grown[i].next_key@, i));
        }
    }
    assert forall|k: Seq<char>| table_of(grown).contains_key(k) implies #[trigger] table_of(
        records,
    ).insert(record.next_key@, record@).contains_key(k) by {
        let i = choose|i: int| filed_at(grown, k, i);
        if i < records.len() {
            assert(filed_at(records, k, i));
        }
    }
    assert forall|k: Seq<char>| #[trigger]
        table_of(records).insert(record.next_key@, record@).contains_key(k) implies table_of(
        grown,
    ).contains_key(k) && table_of(grown)[k] == table_of(records).insert(
        record.next_key@,
        record@,
    )[k] by {
        if k == record.next_key@ {
            assert(filed_at(grown, k, records.len() as int));
            lemma_table_lookup(grown, records.len() as int);
        } else {
            let i = choose|i: int| filed_at(records, k, i);
            assert(filed_at(grown, k, i));
            lemma_table_lookup(grown, i);
            lemma_table_lookup(records, i);
        }
    }
    assert(table_of(grown) =~= table_of(records).insert(record.next_key@, record@));
}

/// The table of a list grows by the record at `i` when the list is read one
/// record further.
proof fn lemma_table_take(records: Seq<LogFileSize>, i: int)
    requires
        distinct_keys(records),
        0 <= i < records.len(),
    ensures
        distinct_keys(records.take(i)),
        !table_of(records.take(i)).contains_key(records[i].next_key@),
        table_of(records.take(i + 1)) == table_of(records.take(i)).insert(
            records[i].next_key@,
            records[i]@,
        ),
{
    let head = records.take(i);
    assert(distinct_keys(head));
    if table_of(head).contains_key(records[i].next_key@) {
        let c = choose|c: int| filed_at(head, records[i].next_key@, c);
        assert(records[c].next_key@ != records[i].next_key@);
    }
    lemma_table_push(head, records[i]);
    assert(head.push(records[i]) == records.take(i + 1));
}

/// A list with distinct keys stands for a table with as many records.
proof fn lemma_table_size(records: Seq<LogFileSize>)
    requires
        distinct_keys(records),
    ensures
        table_of(records).dom().finite(),
        table_of(records).dom().len() == records.len(),
    decreases records.len(),
{
    if records.len() == 0 {
        assert(table_of(records).dom() =~= Set::<Seq<char>>::empty());
    } else {
        let last = records.len() - 1;
        lemma_table_take(records, last);
        lemma_table_size(records.take(last));
        assert(records.take(last + 1) == records);
        assert(table_of(records).dom() =~= table_of(records.take(last)).dom().insert(
            records[last].next_key@,
        ));
    }
}

fn live(read: u64, now: u64, ttl: u64) -> (yes: bool)
    ensures
        yes == is_live(read, now, ttl),
{
    now < read || now - read <= ttl
}

/// The records of `records` that are live at `now`.
fn sweep(records: &Vec<LogFileSize>, now: u64, ttl: u64) -> (kept: Vec<LogFileSize>)
    requires
        distinct_keys(records@),
    ensures
        distinct_keys(kept@),
        table_of(kept@) == swept(table_of(records@), now, ttl),
{
    let mut kept: Vec<LogFileSize> = Vec::new();
    let mut i: usize = 0;
    assert(table_of(kept@) =~= swept(table_of(records@.take(0)), now, ttl));
    while i < records.len()
        invariant
            i <= records.len(),
            distinct_keys(records@),
            distinct_keys(kept@),
            table_of(kept@) == swept(table_of(records@.take(i as int)), now, ttl),
        decreases records.len() - i,
    {
        proof {
            lemma_table_take(records@, i as int);
        }
        let ghost before = table_of(records@.take(i as int));
        let ghost after = table_of(records@.take(i + 1));
        if live(records[i].read, now, ttl) {
            let record = records[i].clone();
            proof {
                lemma_table_push(kept@, record);
                assert(table_of(kept@).insert(record.next_key@, record@) =~= swept(
                    after,
                    now,
                    ttl,
                ));
            }
            kept.push(record);
        } else {
            assert(swept(before, now, ttl) =~= swept(after, now, ttl));
        }
        i = i + 1;
    }
    assert(records@.take(records.len() as int) == records@);
    kept
}

/// The records of `records` but the one filed under `key`.
fn without(records: &Vec<LogFileSize>, key: &String) -> (kept: Vec<LogFileSize>)
    requires
        distinct_keys(records@),
    ensures
        distinct_keys(kept@),
        table_of(kept@) == table_of(records@).remove(key@),
{
    let mut kept: Vec<LogFileSize> = Vec::new();
    let mut i: usize = 0;
    assert(table_of(kept@) =~= table_of(records@.take(0)).remove(key@));
    while i < records.len()
        invariant
            i <= records.len(),
            distinct_keys(records@),
            distinct_keys(kept@),
            table_of(kept@) == table_of(records@.take(i as int)).remove(key@),
        decreases records.len() - i,
    {
        proof {
            lemma_table_take(records@, i as int);
        }
        let ghost before = table_of(records@.take(i as int));
        let ghost after = table_of(records@.take(i + 1));
        if records[i].next_key != *key {
            let record = records[i].clone();
            proof {
                lemma_table_push(kept@, record);
                assert(table_of(kept@).insert(record.next_key@, record@) =~= after.remove(key@));
            }
            kept.push(record);
        } else {
            assert(before.remove(key@) =~= after.remove(key@));
        }
        i = i + 1;
    }
    assert(records@.take(records.len() as int) == records@);
    kept
}

/// Reads the system clock with `SystemTime::now` and gives the whole
/// seconds since the Unix epoch, or nothing when the clock stands before
/// the epoch. Nothing is known of the number.
#[verifier::external_body]
fn seconds_since_epoch() -> (seconds: Option<u64>) {
    match std::time::SystemTime::now().duration_since(std::time::SystemTime::UNIX_EPOCH) {
        Ok(elapsed) => Some(elapsed.as_secs()),
        Err(_) => None,
    }
}

/// The second that a reading of the clock stands for: the seconds it
/// counted, or second 0 where the clock stands before the Unix epoch.
pub open spec fn second_of(reading: Option<u64>) -> u64 {
    match reading {
        Some(seconds) => seconds,
        None => 0,
    }
}

/// The second that a reading of the clock stands for.
pub fn second_from(reading: Option<u64>) -> (second: u64)
    ensures
        second == second_of(reading),
{
    match reading {
        Some(seconds) => seconds,
        None => 0,
    }
}

/// The token table with its time to live.
pub struct LogReader {
    log_file_sizes: Vec<LogFileSize>,
    max_file_time_change: u64,
}

impl View for LogReader {
    type V = Table;

    closed spec fn view(&self) -> Table {
        table_of(self.log_file_sizes@)
    }
}

impl LogReader {
    #[verifier::type_invariant]
    spec fn well_formed(&self) -> bool {
        distinct_keys(self.log_file_sizes@)
    }

    /// The time to live of a record, in seconds.
    pub closed spec fn ttl(&self) -> u64 {
        self.max_file_time_change
    }

    /// Every record is filed under the token it names.
    pub proof fn lemma_filed_under_own_key(&self)
        ensures
            forall|k: Seq<char>| #[trigger] self@.contains_key(k) ==> self@[k].next_key == k,
    {
        assert forall|k: Seq<char>| #[trigger] self@.contains_key(k) implies self@[k].next_key
            == k by {
            let i = choose|i: int| filed_at(self.log_file_sizes@, k, i);
            assert(filed_at(self.log_file_sizes@, k, i));
        }
    }

    /// A reader with an empty table and a time to live of 30 seconds.
    pub fn default() -> (reader: LogReader)
        ensures
            reader@ == Map::<Seq<char>, RecordView>::empty(),
            reader.ttl() == 30,
    {
        let reader = LogReader { log_file_sizes: Vec::new(), max_file_time_change: 30 };
        assert(reader@ =~= Map::<Seq<char>, RecordView>::empty());
        reader
    }

    /// A reader with an empty table and the given time to live in seconds.
    pub fn with_max_file_time_change(seconds: u64) -> (reader: LogReader)
        ensures
            reader@ == Map::<Seq<char>, RecordView>::empty(),
            reader.ttl() == seconds,
    {
        let reader = LogReader { log_file_sizes: Vec::new(), max_file_time_change: seconds };
        assert(reader@ =~= Map::<Seq<char>, RecordView>::empty());
        reader
    }

    /// The time to live of a record, in seconds.
    pub fn max_file_time_change(&self) -> (seconds: u64)
        ensures
            seconds == self.ttl(),
    {
        self.max_file_time_change
    }

    /// The number of records in the table.
    pub fn len(&self) -> (count: usize)
        ensures
            self@.dom().finite(),
            count == self@.dom().len(),
    {
        proof {
            use_type_invariant(self);
            lemma_table_size(self.log_file_sizes@);
        }
        self.log_file_sizes.len()
    }

    /// The index at which the record under `key` stands, if the table
    /// holds one.
    fn position(&self, key: &String) -> (at: Option<usize>)
        ensures
            at is Some <==> self@.contains_key(key@),
            at matches Some(i) ==> i < self.log_file_sizes@.len() && self.log_file_sizes@[i as int]@
                == self@[key@],
    {
        proof {
            use_type_invariant(self);
        }
        let mut i: usize = 0;
        while i < self.log_file_sizes.len()
            invariant
                i <= self.log_file_sizes.len(),
                distinct_keys(self.log_file_sizes@),
                forall|k: int| 0 <= k < i ==> !filed_at(self.log_file_sizes@, key@, k),
            decreases self.log_file_sizes.len() - i,
        {
            if self.log_file_sizes[i].next_key == *key {
                proof {
                    lemma_table_lookup(self.log_file_sizes@, i as int);
                }
                return Some(i);
            }
            i = i + 1;
        }
        None
    }

    /// The record filed under `key`, if the table holds one.
    pub fn get(&self, key: &String) -> (found: Option<LogFileSize>)
        ensures
            found is Some <==> self@.contains_key(key@),
            found matches Some(record) ==> record@ == self@[key@],
    {
        match self.position(key) {
            Some(i) => Some(self.log_file_sizes[i].clone()),
            None => None,
        }
    }

    /// Whether the table holds a record under `key`.
    pub fn contains_key(&self, key: &String) -> (held: bool)
        ensures
            held == self@.contains_key(key@),
    {
        self.get(key).is_some()
    }

    /// The current second of the system clock, counted from the Unix epoch;
    /// a clock that stands before the epoch reads as second 0.
    pub(crate) fn current_time() -> u64 {
        second_from(seconds_since_epoch())
    }

    /// Removes every record that is no longer live at the current second of
    /// the system clock. A clock that stands before the Unix epoch reads as
    /// second 0.
    pub fn clear_old_logs(&mut self)
        ensures
            exists|now: u64| final(self)@ == #[trigger] swept(old(self)@, now, old(self).ttl()),
            final(self).ttl() == old(self).ttl(),
    {
        let now = Self::current_time();
        self.clear_old_logs_at(now);
    }

    /// A fresh token of eight random symbols, each an upper case letter or
    /// a digit.
    pub fn generate_key() -> (key: String)
        ensures
            is_key(key@),
    {
        random_key()
    }

    /// Removes every record that is no longer live at second `now`.
    pub fn clear_old_logs_at(&mut self, now: u64)
        ensures
            final(self)@ == swept(old(self)@, now, old(self).ttl()),
            final(self).ttl() == old(self).ttl(),
    {
        proof {
            use_type_invariant(&*self);
        }
        let kept = sweep(&self.log_file_sizes, now, self.max_file_time_change);
        self.log_file_sizes = kept;
    }

    /// The plan of a poll that presents `retrieval_key` at second `now` and
    /// sees a file of `size` bytes.
    pub fn plan_read(&self, retrieval_key: &String, size: u64, now: u64) -> (plan: ReadPlan)
        ensures
            plan == planned(self@, retrieval_key@, size, now, self.ttl()),
    {
        match self.position(retrieval_key) {
            Some(i) => {
                let record = &self.log_file_sizes[i];
                if live(record.read, now, self.max_file_time_change) && record.size <= size {
                    ReadPlan { start: record.size, length: size - record.size, retire: true }
                } else {
                    ReadPlan { start: 0, length: size, retire: false }
                }
            },
            None => ReadPlan { start: 0, length: size, retire: false },
        }
    }

    /// Files a record of `size` bytes made at `now` under `next_key`, then
    /// removes the record under `retrieval_key` if `retire` is set.
    pub fn rotate(
        &mut self,
        retrieval_key: String,
        retire: bool,
        size: u64,
        now: u64,
        next_key: &String,
    )
        ensures
            final(self)@ == rotated(old(self)@, retrieval_key@, retire, size, now, next_key@),
            final(self).ttl() == old(self).ttl(),
    {
        proof {
            use_type_invariant(&*self);
        }
        let ghost before = self@;
        let mut records = without(&self.log_file_sizes, next_key);
        let record = LogFileSize {
            size,
            read: now,
            next_key: next_key.clone(),
            previous_key: Some(retrieval_key.clone()),
        };
        proof {
            lemma_table_push(records@, record);
            assert(before.remove(next_key@).insert(next_key@, record@) =~= before.insert(
                next_key@,
                record@,
            ));
        }
        records.push(record);
        if retire {
            records = without(&records, &retrieval_key);
        }
        self.log_file_sizes = records;
    }
}

} // verus!
