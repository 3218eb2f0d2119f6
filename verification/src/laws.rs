//! What holds of every poll: the laws of the token table and of the path
//! rules, proved from the definitions the contracts use.

use vstd::prelude::*;
use crate::path::{
    collapse_backslashes, continues_run, has_drive_prefix, has_log_extension, has_log_shape,
    has_traversal, is_allowed, is_parent_segment, lemma_collapse_step, normalized, without_drive,
};
use crate::poll::{StepView, answered, delivered, failed, polled};
use crate::table::{ReadPlan, Table, accepts, is_live, planned, rotated, swept};

verus! {

/// A sweep keeps exactly the records that are live, as they were, and adds
/// none.
pub proof fn lemma_sweep_keeps_the_live(t: Table, now: u64, ttl: u64)
    ensures
        forall|k: Seq<char>| #[trigger]
            swept(t, now, ttl).contains_key(k) <==> t.contains_key(k) && is_live(
                t[k].read,
                now,
                ttl,
            ),
        forall|k: Seq<char>| #[trigger]
            swept(t, now, ttl).contains_key(k) ==> swept(t, now, ttl)[k] == t[k],
{
}

/// A record whose age exceeds the time to live is gone after a sweep,
/// stays gone at every later sweep, and a poll that presents its token
/// after the sweep reads the whole file and retires nothing.
pub proof fn lemma_expired_token_is_purged(
    t: Table,
    key: Seq<char>,
    now: u64,
    later: u64,
    size: u64,
    ttl: u64,
)
    requires
        t.contains_key(key),
        now - t[key].read > ttl,
    ensures
        !swept(t, now, ttl).contains_key(key),
        !swept(swept(t, now, ttl), later, ttl).contains_key(key),
        planned(swept(t, now, ttl), key, size, now, ttl) == (ReadPlan {
            start: 0,
            length: size,
            retire: false,
        }),
{
}

/// A poll that presents a token that is unknown or no longer live reads
/// the whole file and retires nothing.
pub proof fn lemma_unknown_token_reads_whole_file(
    t: Table,
    key: Seq<char>,
    size: u64,
    now: u64,
    ttl: u64,
)
    requires
        !t.contains_key(key) || !is_live(t[key].read, now, ttl),
    ensures
        planned(t, key, size, now, ttl) == (ReadPlan { start: 0, length: size, retire: false }),
{
}

/// A poll that finds the file shorter than the presented token recorded
/// reads the whole file and retires nothing.
pub proof fn lemma_shrunk_file_reads_whole_file(
    t: Table,
    key: Seq<char>,
    size: u64,
    now: u64,
    ttl: u64,
)
    requires
        t.contains_key(key),
        size < t[key].size,
    ensures
        planned(t, key, size, now, ttl) == (ReadPlan { start: 0, length: size, retire: false }),
{
}

/// Every plan ends at the current size of the file: the range it reads
/// lies inside the file and its length is never negative.
pub proof fn lemma_plan_ends_at_size(t: Table, key: Seq<char>, size: u64, now: u64, ttl: u64)
    ensures
        planned(t, key, size, now, ttl).start + planned(t, key, size, now, ttl).length == size,
{
}

/// A poll that presents a live token, on a file that has not shrunk, reads
/// from the size the token recorded and retires the token.
pub proof fn lemma_accepted_token_resumes(t: Table, key: Seq<char>, size: u64, now: u64, ttl: u64)
    requires
        accepts(t, key, size, now, ttl),
    ensures
        planned(t, key, size, now, ttl) == (ReadPlan {
            start: t[key].size,
            length: (size - t[key].size) as u64,
            retire: true,
        }),
{
}

/// A token is accepted at most once: once a poll has accepted it, the
/// table does not hold it, whatever token was issued, and a poll that
/// presents it again reads the whole file and retires nothing.
pub proof fn lemma_token_is_accepted_once(
    t: Table,
    key: Seq<char>,
    size: u64,
    now: u64,
    next_key: Seq<char>,
    later_size: u64,
    later: u64,
    ttl: u64,
)
    ensures
        !rotated(t, key, true, size, now, next_key).contains_key(key),
        planned(
            swept(rotated(t, key, true, size, now, next_key), later, ttl),
            key,
            later_size,
            later,
            ttl,
        ) == (ReadPlan { start: 0, length: later_size, retire: false }),
{
}

/// Rotation files the issued record, and leaves every record alone but
/// the one it files and the one it retires.
pub proof fn lemma_rotation_touches_two_tokens(
    t: Table,
    key: Seq<char>,
    retire: bool,
    size: u64,
    now: u64,
    next_key: Seq<char>,
)
    ensures
        !(retire && next_key == key) ==> rotated(t, key, retire, size, now, next_key).contains_key(
            next_key,
        ) && rotated(t, key, retire, size, now, next_key)[next_key].size == size && rotated(
            t,
            key,
            retire,
            size,
            now,
            next_key,
        )[next_key].read == now,
        forall|k: Seq<char>|
            k != key && k != next_key ==> (#[trigger] rotated(
                t,
                key,
                retire,
                size,
                now,
                next_key,
            ).contains_key(k) <==> t.contains_key(k)),
        forall|k: Seq<char>|
            k != key && k != next_key && t.contains_key(k) ==> #[trigger] rotated(
                t,
                key,
                retire,
                size,
                now,
                next_key,
            )[k] == t[k],
{
}

/// A poll on a path that is not allowed fails, whatever the file holds,
/// and does no more to the table than sweep it.
pub proof fn lemma_rejected_path_fails(
    t: Table,
    ttl: u64,
    path: Seq<char>,
    key: Seq<char>,
    now: u64,
    file: Option<Seq<u8>>,
    next_key: Seq<char>,
)
    requires
        !is_allowed(path),
    ensures
        polled(t, ttl, path, key, now, file, next_key) == (swept(t, now, ttl), failed()),
{
}

/// A poll on a file that cannot be read fails and does no more to the
/// table than sweep it.
pub proof fn lemma_unreadable_file_fails(
    t: Table,
    ttl: u64,
    path: Seq<char>,
    key: Seq<char>,
    now: u64,
    next_key: Seq<char>,
)
    ensures
        polled(t, ttl, path, key, now, None, next_key) == (swept(t, now, ttl), failed()),
{
}

/// A poll with an unknown or expired token on a readable file delivers
/// the whole file and issues the new token.
pub proof fn lemma_fresh_poll_delivers_whole_file(
    t: Table,
    ttl: u64,
    path: Seq<char>,
    key: Seq<char>,
    now: u64,
    file: Seq<u8>,
    next_key: Seq<char>,
)
    requires
        is_allowed(path),
        file.len() <= u64::MAX,
        !t.contains_key(key) || !is_live(t[key].read, now, ttl),
    ensures
        polled(t, ttl, path, key, now, Some(file), next_key).1 == answered(
            delivered(file),
            next_key,
        ),
        polled(t, ttl, path, key, now, Some(file), next_key).0 == swept(t, now, ttl).insert(
            next_key,
            crate::table::issued(key, file.len() as u64, now, next_key),
        ),
{
    assert(file.subrange(0, file.len() as int) == file);
}

/// Two polls in a row, the second with the token the first issued and
/// within the time to live, on a file that only grew: the second delivers
/// the bytes that were appended between them, and exactly those. The one
/// case left out is a first poll that issues the very token it accepted:
/// that token leaves the table with the rotation.
pub proof fn lemma_consecutive_polls_deliver_appended_bytes(
    t: Table,
    ttl: u64,
    path: Seq<char>,
    key: Seq<char>,
    first: u64,
    second: u64,
    file: Seq<u8>,
    appended: Seq<u8>,
    issued: Seq<char>,
    next_key: Seq<char>,
)
    requires
        is_allowed(path),
        file.len() + appended.len() <= u64::MAX,
        is_live(first, second, ttl),
        issued != key || !accepts(swept(t, first, ttl), key, file.len() as u64, first, ttl),
    ensures
        ({
            let (between, reply) = polled(t, ttl, path, key, first, Some(file), issued);
            let (after, answer) = polled(
                between,
                ttl,
                path,
                issued,
                second,
                Some(file + appended),
                next_key,
            );
            &&& reply matches StepView::Reply { log }
            &&& log.next_key == Some(issued)
            &&& log.content is Some
            &&& answer == answered(delivered(appended), next_key)
            &&& !after.contains_key(issued)
        }),
{
    let grown = file + appended;
    let size = file.len() as u64;
    let swept_first = swept(t, first, ttl);
    let plan = planned(swept_first, key, size, first, ttl);
    let between = rotated(swept_first, key, plan.retire, size, first, issued);
    assert(polled(t, ttl, path, key, first, Some(file), issued).0 == between);
    assert(between.contains_key(issued));
    assert(between[issued].size == size);
    assert(between[issued].read == first);
    let swept_second = swept(between, second, ttl);
    assert(swept_second.contains_key(issued));
    assert(accepts(swept_second, issued, grown.len() as u64, second, ttl));
    assert(grown.subrange(size as int, grown.len() as int) == appended);
}

/// Once a poll has accepted a token and answered, a later poll that
/// presents the same token again is treated as new: it delivers the whole
/// file.
pub proof fn lemma_used_token_starts_afresh(
    t: Table,
    ttl: u64,
    path: Seq<char>,
    key: Seq<char>,
    now: u64,
    file: Seq<u8>,
    issued: Seq<char>,
    later: u64,
    later_file: Seq<u8>,
    next_key: Seq<char>,
)
    requires
        is_allowed(path),
        file.len() <= u64::MAX,
        later_file.len() <= u64::MAX,
        accepts(swept(t, now, ttl), key, file.len() as u64, now, ttl),
    ensures
        ({
            let (between, reply) = polled(t, ttl, path, key, now, Some(file), issued);
            let (after, answer) = polled(
                between,
                ttl,
                path,
                key,
                later,
                Some(later_file),
                next_key,
            );
            &&& !between.contains_key(key)
            &&& answer == answered(delivered(later_file), next_key)
        }),
{
    let size = file.len() as u64;
    let swept_first = swept(t, now, ttl);
    let between = rotated(swept_first, key, true, size, now, issued);
    assert(polled(t, ttl, path, key, now, Some(file), issued).0 == between);
    assert(!between.contains_key(key));
    assert(later_file.subrange(0, later_file.len() as int) == later_file);
}

/// A path whose normal form has a `..` segment is rejected, whatever its
/// extension.
pub proof fn lemma_traversal_is_rejected(path: Seq<char>)
    requires
        has_traversal(normalized(path)),
    ensures
        !is_allowed(path),
{
}

/// A path whose normal form lacks the shape of a log file inside a named
/// directory is rejected; so is, in particular, every path whose normal
/// form does not end in `.log`.
pub proof fn lemma_shapeless_path_is_rejected(path: Seq<char>)
    requires
        !has_log_shape(normalized(path)),
    ensures
        !is_allowed(path),
{
}

/// Whether `c` separates the segments of a path as it is written: a
/// forward slash or a backslash.
pub open spec fn is_separator(c: char) -> bool {
    c == '/' || c == '\\'
}

/// Whether a `..` segment starts at index `i` of the path `s` as it is
/// written, with either kind of separator around it.
pub open spec fn is_written_parent_segment(s: Seq<char>, i: int) -> bool {
    &&& 0 <= i
    &&& i + 2 <= s.len()
    &&& s[i] == '.'
    &&& s[i + 1] == '.'
    &&& (i == 0 || is_separator(s[i - 1]))
    &&& (i + 2 == s.len() || is_separator(s[i + 2]))
}

/// The collapsed text of a prefix is a prefix of the collapsed text.
proof fn lemma_collapse_prefix(s: Seq<char>, k: int)
    requires
        0 <= k <= s.len(),
    ensures
        collapse_backslashes(s.take(k)).len() <= collapse_backslashes(s).len(),
        forall|j: int|
            0 <= j < collapse_backslashes(s.take(k)).len() ==> collapse_backslashes(s)[j]
                == collapse_backslashes(s.take(k))[j],
    decreases s.len() - k,
{
    if k == s.len() {
        assert(s.take(k) == s);
    } else {
        lemma_collapse_prefix(s, k + 1);
        lemma_collapse_step(s, k);
    }
}

/// Collapsed text that was read up to just behind a backslash ends in a
/// forward slash.
proof fn lemma_collapse_after_backslash(s: Seq<char>, k: int)
    requires
        1 <= k <= s.len(),
        s[k - 1] == '\\',
    ensures
        collapse_backslashes(s.take(k)).len() > 0,
        collapse_backslashes(s.take(k)).last() == '/',
    decreases k,
{
    lemma_collapse_step(s, k - 1);
    if continues_run(s, k - 1) {
        lemma_collapse_after_backslash(s, k - 1);
    }
}

/// A `..` segment of the written text is a `..` segment of the collapsed
/// text.
proof fn lemma_collapse_keeps_parent_segment(s: Seq<char>, i: int)
    requires
        is_written_parent_segment(s, i),
    ensures
        has_traversal(collapse_backslashes(s)),
{
    let out = collapse_backslashes(s);
    let before = collapse_backslashes(s.take(i));
    let m = before.len() as int;
    lemma_collapse_step(s, i);
    lemma_collapse_step(s, i + 1);
    let through = collapse_backslashes(s.take(i + 2));
    assert(through == before.push('.').push('.'));
    if i == 0 {
        assert(s.take(0).len() == 0);
    } else {
        lemma_collapse_step(s, i - 1);
        if s[i - 1] == '\\' {
            lemma_collapse_after_backslash(s, i);
        }
        assert(before[m - 1] == '/');
    }
    if i + 2 == s.len() {
        assert(s.take(i + 2) == s);
    } else {
        lemma_collapse_step(s, i + 2);
        let beyond = collapse_backslashes(s.take(i + 3));
        assert(beyond == through.push('/'));
        lemma_collapse_prefix(s, i + 3);
        assert(out[m + 2] == beyond[m + 2]);
        assert(out[m + 1] == beyond[m + 1]);
        assert(out[m] == beyond[m]);
        if i > 0 {
            assert(out[m - 1] == beyond[m - 1]);
        }
    }
    assert(is_parent_segment(out, m));
}

/// A path that is written with a `..` segment, bounded by separators of
/// either kind or by the ends of the path, is rejected, whatever its
/// extension.
pub proof fn lemma_written_traversal_is_rejected(path: Seq<char>, i: int)
    requires
        is_written_parent_segment(path, i),
    ensures
        !is_allowed(path),
{
    let body = without_drive(path);
    if has_drive_prefix(path) {
        assert(i >= 3);
        assert(is_written_parent_segment(body, i - 2));
        lemma_collapse_keeps_parent_segment(body, i - 2);
    } else {
        lemma_collapse_keeps_parent_segment(body, i);
    }
}

/// Collapsed text that ends in a character other than a forward slash was
/// made from text that ends in the same character.
proof fn lemma_collapse_last(s: Seq<char>)
    requires
        collapse_backslashes(s).len() > 0,
        collapse_backslashes(s).last() != '/',
    ensures
        s.len() > 0,
        s.last() == collapse_backslashes(s).last(),
        collapse_backslashes(s) == collapse_backslashes(s.drop_last()).push(s.last()),
{
    if s.len() > 0 && s.last() == '\\' && continues_run(s, s.len() - 1) {
        lemma_collapse_after_backslash(s, s.len() - 1);
        assert(s.take(s.len() - 1) == s.drop_last());
    }
}

/// Collapsed text ends in `.log` only if the text it was made from does.
proof fn lemma_collapse_keeps_extension(s: Seq<char>)
    requires
        has_log_extension(collapse_backslashes(s)),
    ensures
        has_log_extension(s),
{
    let out = collapse_backslashes(s);
    lemma_collapse_last(s);
    let s1 = s.drop_last();
    assert(collapse_backslashes(s1) == out.drop_last());
    lemma_collapse_last(s1);
    let s2 = s1.drop_last();
    assert(collapse_backslashes(s2) == out.drop_last().drop_last());
    lemma_collapse_last(s2);
    let s3 = s2.drop_last();
    assert(collapse_backslashes(s3) == out.drop_last().drop_last().drop_last());
    lemma_collapse_last(s3);
}

/// A path that is not written with the extension `.log` is rejected.
pub proof fn lemma_other_extension_is_rejected(path: Seq<char>)
    requires
        !has_log_extension(path),
    ensures
        !is_allowed(path),
{
    if has_log_extension(normalized(path)) {
        lemma_collapse_keeps_extension(without_drive(path));
    }
}

/// A normal form holds no backslash.
pub proof fn lemma_normal_form_has_no_backslash(path: Seq<char>)
    ensures
        forall|i: int| 0 <= i < normalized(path).len() ==> normalized(path)[i] != '\\',
{
    lemma_collapse_has_no_backslash(crate::path::without_drive(path));
}

proof fn lemma_collapse_has_no_backslash(s: Seq<char>)
    ensures
        forall|i: int|
            0 <= i < collapse_backslashes(s).len() ==> collapse_backslashes(s)[i] != '\\',
    decreases s.len(),
{
    if s.len() > 0 {
        let head = collapse_backslashes(s.drop_last());
        lemma_collapse_has_no_backslash(s.drop_last());
        assert forall|i: int| 0 <= i < collapse_backslashes(s).len() implies collapse_backslashes(
            s,
        )[i] != '\\' by {
            if i < head.len() {
                assert(collapse_backslashes(s)[i] == head[i]);
            }
        }
    }
}

} // verus!
