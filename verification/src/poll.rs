//! One poll as a sequence of steps. The reader decides; the caller measures
//! the file and fetches the bytes the reader asks for, and hands back what
//! it found.

use vstd::prelude::*;
use crate::key::is_key;
use crate::logreader::{LogFile, LogFileView, LogReader};
use crate::path::{checked_path, is_allowed, normalized};
use crate::table::{Table, planned, rotated, swept};
use crate::text::{decode_lossy, lossy_utf8};

verus! {

/// Where a poll stands: what the reader wants next, or its answer.
#[derive(Debug)]
pub enum ReadStep {
    /// The length of the file at `path` is wanted.
    Measure { path: String, retrieval_key: String, now: u64 },
    /// The `length` bytes from offset `start` of the file at `path` are
    /// wanted.
    Fetch {
        path: String,
        retrieval_key: String,
        now: u64,
        size: u64,
        start: u64,
        length: u64,
        retire: bool,
    },
    /// The poll is answered.
    Reply { log: LogFile },
}

/// A step with its strings as character sequences.
pub enum StepView {
    Measure { path: Seq<char>, retrieval_key: Seq<char>, now: u64 },
    Fetch {
        path: Seq<char>,
        retrieval_key: Seq<char>,
        now: u64,
        size: u64,
        start: u64,
        length: u64,
        retire: bool,
    },
    Reply { log: LogFileView },
}

impl View for ReadStep {
    type V = StepView;

    open spec fn view(&self) -> StepView {
        match *self {
            ReadStep::Measure { path, retrieval_key, now } => StepView::Measure {
                path: path@,
                retrieval_key: retrieval_key@,
                now,
            },
            ReadStep::Fetch {
                path,
                retrieval_key,
                now,
                size,
                start,
                length,
                retire,
            } => StepView::Fetch {
                path: path@,
                retrieval_key: retrieval_key@,
                now,
                size,
                start,
                length,
                retire,
            },
            ReadStep::Reply { log } => StepView::Reply { log: log@ },
        }
    }
}

/// The answer of a poll that failed.
pub open spec fn failed() -> StepView {
    StepView::Reply { log: LogFileView { content: None, next_key: None } }
}

/// The answer of a poll that delivers `content` and issues `next_key`.
pub open spec fn answered(content: Seq<char>, next_key: Seq<char>) -> StepView {
    StepView::Reply { log: LogFileView { content: Some(content), next_key: Some(next_key) } }
}

/// The first step of a poll on `path`: the file's length is wanted if the
/// path is allowed; otherwise the poll fails.
pub open spec fn begun(path: Seq<char>, retrieval_key: Seq<char>, now: u64) -> StepView {
    if is_allowed(path) {
        StepView::Measure { path: normalized(path), retrieval_key, now }
    } else {
        failed()
    }
}

/// The table and the step after the file's length is known, where
/// `next_key` is the token to issue. An unreadable file fails the poll and
/// leaves the table as it is. With new bytes to deliver, the bytes are
/// wanted. With none, the poll answers with empty content and the table
/// rotates.
pub open spec fn measured(
    t: Table,
    ttl: u64,
    step: StepView,
    length: Option<u64>,
    next_key: Seq<char>,
) -> (Table, StepView) {
    match (step, length) {
        (StepView::Measure { path, retrieval_key, now }, Some(size)) => {
            let plan = planned(t, retrieval_key, size, now, ttl);
            if plan.length > 0 {
                (
                    t,
                    StepView::Fetch {
                        path,
                        retrieval_key,
                        now,
                        size,
                        start: plan.start,
                        length: plan.length,
                        retire: plan.retire,
                    },
                )
            } else {
                (
                    rotated(t, retrieval_key, plan.retire, size, now, next_key),
                    answered(Seq::empty(), next_key),
                )
            }
        },
        _ => (t, failed()),
    }
}

/// The table and the step after the bytes were fetched, where `next_key`
/// is the token to issue. A failed or short read fails the poll and leaves
/// the table as it is; otherwise the poll answers with the decoded bytes
/// and the table rotates.
pub open spec fn fetched(
    t: Table,
    step: StepView,
    bytes: Option<Seq<u8>>,
    next_key: Seq<char>,
) -> (Table, StepView) {
    match (step, bytes) {
        (StepView::Fetch { retrieval_key, now, size, length, retire, .. }, Some(data)) => {
            if data.len() == length {
                (
                    rotated(t, retrieval_key, retire, size, now, next_key),
                    answered(lossy_utf8(data), next_key),
                )
            } else {
                (t, failed())
            }
        },
        _ => (t, failed()),
    }
}

/// The length a caller measures of a file with the given content, if the
/// file can be read.
pub open spec fn length_of(file: Option<Seq<u8>>) -> Option<u64> {
    match file {
        Some(content) => if content.len() <= u64::MAX {
            Some(content.len() as u64)
        } else {
            None
        },
        None => None,
    }
}

/// The table and the answer after a whole poll at second `now`, where
/// `file` is the content of the file at the normalised path, if it can be
/// read, and `next_key` is the token to issue: the table is swept, the
/// path checked, the file measured, and the bytes that are asked for are
/// taken from the file.
pub open spec fn polled(
    t: Table,
    ttl: u64,
    path: Seq<char>,
    retrieval_key: Seq<char>,
    now: u64,
    file: Option<Seq<u8>>,
    next_key: Seq<char>,
) -> (Table, StepView) {
    let first = begun(path, retrieval_key, now);
    let (table, second) = measured(swept(t, now, ttl), ttl, first, length_of(file), next_key);
    match (first, second, file) {
        (StepView::Measure { .. }, StepView::Fetch { start, length, .. }, Some(content)) => fetched(
            table,
            second,
            Some(content.subrange(start as int, start + length)),
            next_key,
        ),
        (StepView::Measure { .. }, _, _) => (table, second),
        _ => (swept(t, now, ttl), first),
    }
}

/// The content a poll delivers for the bytes it read: empty for no bytes,
/// the lossy decoding otherwise.
pub open spec fn delivered(bytes: Seq<u8>) -> Seq<char> {
    if bytes.len() == 0 {
        Seq::empty()
    } else {
        lossy_utf8(bytes)
    }
}

/// The content that a step carries, if it is an answer with content.
pub open spec fn content_of(step: StepView) -> Option<Seq<char>> {
    match step {
        StepView::Reply { log } => log.content,
        _ => None,
    }
}

/// Whether the content of `step`, if it has any, is the text that `bytes`
/// encode, where `bytes` were handed back and are valid UTF-8.
pub open spec fn carries_text_of(step: StepView, bytes: Option<Seq<u8>>) -> bool {
    match bytes {
        Some(data) => vstd::utf8::valid_utf8(data) && content_of(step) is Some ==> content_of(
            step,
        ) == Some(vstd::utf8::decode_utf8(data)),
        None => true,
    }
}

/// What the caller handed back for a fetch, as a byte sequence.
pub open spec fn handed(bytes: Option<Vec<u8>>) -> Option<Seq<u8>> {
    match bytes {
        Some(data) => Some(data@),
        None => None,
    }
}

impl LogReader {
    /// Starts a poll on `path` at second `now`: expired records leave the
    /// table, and the path is normalised and checked.
    pub fn begin_read_at(&mut self, path: &str, retrieval_key: String, now: u64) -> (step: ReadStep)
        ensures
            final(self)@ == swept(old(self)@, now, old(self).ttl()),
            final(self).ttl() == old(self).ttl(),
            step@ == begun(path@, retrieval_key@, now),
    {
        self.clear_old_logs_at(now);
        match checked_path(path) {
            Some(path) => ReadStep::Measure { path, retrieval_key, now },
            None => ReadStep::Reply { log: LogFile::empty() },
        }
    }

    /// Starts a poll on `path` at the current second of the system clock. A
    /// clock that stands before the Unix epoch reads as second 0.
    pub fn begin_read(&mut self, path: &str, retrieval_key: String) -> (step: ReadStep)
        ensures
            exists|now: u64|
                final(self)@ == #[trigger] swept(old(self)@, now, old(self).ttl()) && step@
                    == begun(path@, retrieval_key@, now),
            final(self).ttl() == old(self).ttl(),
    {
        let now = Self::current_time();
        self.begin_read_at(path, retrieval_key, now)
    }

    /// Answers a poll with `content`: rotates the table and issues
    /// `next_key`.
    fn answer(
        &mut self,
        retrieval_key: String,
        retire: bool,
        size: u64,
        now: u64,
        content: String,
        next_key: String,
    ) -> (step: ReadStep)
        ensures
            final(self)@ == rotated(old(self)@, retrieval_key@, retire, size, now, next_key@),
            final(self).ttl() == old(self).ttl(),
            step@ == answered(content@, next_key@),
    {
        self.rotate(retrieval_key, retire, size, now, &next_key);
        ReadStep::Reply { log: LogFile { content: Some(content), next_key: Some(next_key) } }
    }

    /// Continues a poll with the file's length, or with nothing if the file
    /// could not be measured, issuing `next_key` where the poll answers.
    pub fn length_known_with(
        &mut self,
        step: ReadStep,
        length: Option<u64>,
        next_key: String,
    ) -> (next: ReadStep)
        ensures
            (final(self)@, next@) == measured(
                old(self)@,
                old(self).ttl(),
                step@,
                length,
                next_key@,
            ),
            final(self).ttl() == old(self).ttl(),
    {
        match (step, length) {
            (ReadStep::Measure { path, retrieval_key, now }, Some(size)) => {
                let plan = self.plan_read(&retrieval_key, size, now);
                if plan.length > 0 {
                    ReadStep::Fetch {
                        path,
                        retrieval_key,
                        now,
                        size,
                        start: plan.start,
                        length: plan.length,
                        retire: plan.retire,
                    }
                } else {
                    self.answer(retrieval_key, plan.retire, size, now, String::new(), next_key)
                }
            },
            _ => ReadStep::Reply { log: LogFile::empty() },
        }
    }

    /// Continues a poll with the bytes that were read, or with nothing if
    /// the read failed, issuing `next_key` where the poll answers. Bytes
    /// that are valid UTF-8 are delivered as the text they encode.
    pub fn bytes_read_with(
        &mut self,
        step: ReadStep,
        bytes: Option<Vec<u8>>,
        next_key: String,
    ) -> (next: ReadStep)
        ensures
            (final(self)@, next@) == fetched(
                old(self)@,
                step@,
                handed(bytes),
                next_key@,
            ),
            carries_text_of(next@, handed(bytes)),
            final(self).ttl() == old(self).ttl(),
    {
        match (step, bytes) {
            (ReadStep::Fetch { retrieval_key, now, size, length, retire, .. }, Some(data)) => {
                if data.len() as u64 == length {
                    let content = decode_lossy(&data);
                    self.answer(retrieval_key, retire, size, now, content, next_key)
                } else {
                    ReadStep::Reply { log: LogFile::empty() }
                }
            },
            _ => ReadStep::Reply { log: LogFile::empty() },
        }
    }

    /// Continues a poll with the file's length, or with nothing if the file
    /// could not be measured. Where the poll answers, the token it issues
    /// is freshly generated.
    pub fn length_known(&mut self, step: ReadStep, length: Option<u64>) -> (next: ReadStep)
        ensures
            exists|next_key: Seq<char>|
                is_key(next_key) && (final(self)@, next@) == #[trigger] measured(
                    old(self)@,
                    old(self).ttl(),
                    step@,
                    length,
                    next_key,
                ),
            final(self).ttl() == old(self).ttl(),
    {
        let next_key = Self::generate_key();
        self.length_known_with(step, length, next_key)
    }

    /// Continues a poll with the bytes that were read, or with nothing if
    /// the read failed. Where the poll answers, the token it issues is
    /// freshly generated. Bytes that are valid UTF-8 are delivered as the
    /// text they encode.
    pub fn bytes_read(&mut self, step: ReadStep, bytes: Option<Vec<u8>>) -> (next: ReadStep)
        ensures
            exists|next_key: Seq<char>|
                is_key(next_key) && (final(self)@, next@) == #[trigger] fetched(
                    old(self)@,
                    step@,
                    handed(bytes),
                    next_key,
                ),
            carries_text_of(next@, handed(bytes)),
            final(self).ttl() == old(self).ttl(),
    {
        let next_key = Self::generate_key();
        self.bytes_read_with(step, bytes, next_key)
    }
}

} // verus!
