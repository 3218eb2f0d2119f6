//! Path safety: host path syntax is normalised, and only paths that name a
//! `.log` file inside a named directory, without stepping to a parent
//! directory, are allowed.

use vstd::prelude::*;
use crate::text::{chars_of, string_of};

verus! {

/// A path starts with a drive prefix when its first character is an upper
/// case ASCII letter and its second is a colon.
pub open spec fn has_drive_prefix(s: Seq<char>) -> bool {
    s.len() >= 2 && 'A' <= s[0] && s[0] <= 'Z' && s[1] == ':'
}

/// The path without its drive prefix, if it has one.
pub open spec fn without_drive(s: Seq<char>) -> Seq<char> {
    if has_drive_prefix(s) {
        s.skip(2)
    } else {
        s
    }
}

/// Whether the character at `k` is a backslash that continues a run of
/// backslashes begun earlier.
pub open spec fn continues_run(s: Seq<char>, k: int) -> bool {
    0 < k < s.len() && s[k] == '\\' && s[k - 1] == '\\'
}

/// Every run of one or more backslashes becomes a single forward slash;
/// all other characters are kept.
pub open spec fn collapse_backslashes(s: Seq<char>) -> Seq<char>
    decreases s.len(),
{
    if s.len() == 0 {
        s
    } else {
        let head = collapse_backslashes(s.drop_last());
        if s.last() != '\\' {
            head.push(s.last())
        } else if continues_run(s, s.len() - 1) {
            head
        } else {
            head.push('/')
        }
    }
}

/// The normal form of a path: drive prefix removed, backslash runs turned
/// into single forward slashes.
pub open spec fn normalized(s: Seq<char>) -> Seq<char> {
    collapse_backslashes(without_drive(s))
}

/// Whether a `..` segment starts at index `i` of the normalised path `s`:
/// two dots, bounded on each side by a separator or by the end of the path.
pub open spec fn is_parent_segment(s: Seq<char>, i: int) -> bool {
    &&& 0 <= i
    &&& i + 2 <= s.len()
    &&& s[i] == '.'
    &&& s[i + 1] == '.'
    &&& (i == 0 || s[i - 1] == '/')
    &&& (i + 2 == s.len() || s[i + 2] == '/')
}

/// Whether some segment of the normalised path `s` is `..`.
pub open spec fn has_traversal(s: Seq<char>) -> bool {
    exists|i: int| is_parent_segment(s, i)
}

/// Whether `s` ends with the extension `.log`.
pub open spec fn has_log_extension(s: Seq<char>) -> bool {
    &&& s.len() >= 4
    &&& s[s.len() - 4] == '.'
    &&& s[s.len() - 3] == 'l'
    &&& s[s.len() - 2] == 'o'
    &&& s[s.len() - 1] == 'g'
}

/// Whether separators stand at `i` and `j` of `s` such that the text before
/// `i`, the directory name between `i` and `j`, and the file stem between
/// `j` and the four characters of the extension are all non-empty.
pub open spec fn splits_as_log_path(s: Seq<char>, i: int, j: int) -> bool {
    &&& 1 <= i
    &&& i + 2 <= j
    &&& j + 6 <= s.len()
    &&& s[i] == '/'
    &&& s[j] == '/'
}

/// The shape `<prefix>/<directory>/<stem>.log` with non-empty prefix,
/// directory and stem.
pub open spec fn has_log_shape(s: Seq<char>) -> bool {
    &&& has_log_extension(s)
    &&& exists|i: int, j: int| splits_as_log_path(s, i, j)
}

/// A raw path is allowed when its normal form has the log shape and no
/// `..` segment.
pub open spec fn is_allowed(raw: Seq<char>) -> bool {
    !has_traversal(normalized(raw)) && has_log_shape(normalized(raw))
}

/// Reading one character further extends the collapsed text by that
/// character, by a forward slash for a backslash that starts a run, and by
/// nothing for a backslash that continues one.
pub proof fn lemma_collapse_step(s: Seq<char>, k: int)
    requires
        0 <= k < s.len(),
    ensures
        collapse_backslashes(s.take(k + 1)) == if s[k] != '\\' {
            collapse_backslashes(s.take(k)).push(s[k])
        } else if continues_run(s, k) {
            collapse_backslashes(s.take(k))
        } else {
            collapse_backslashes(s.take(k)).push('/')
        },
{
    let t = s.take(k + 1);
    assert(t.drop_last() == s.take(k));
    assert(t.last() == s[k]);
    assert(continues_run(t, t.len() - 1) == continues_run(s, k));
}

fn strip_and_collapse(chars: &Vec<char>) -> (out: Vec<char>)
    ensures
        out@ == normalized(chars@),
{
    let n = chars.len();
    let start: usize = if n >= 2 && 'A' <= chars[0] && chars[0] <= 'Z' && chars[1] == ':' {
        2
    } else {
        0
    };
    let ghost body = without_drive(chars@);
    assert(body == chars@.skip(start as int));
    let mut out: Vec<char> = Vec::new();
    let mut i: usize = start;
    assert(body.take(0) == Seq::<char>::empty());
    while i < n
        invariant
            start <= i <= n,
            n == chars.len(),
            body == chars@.skip(start as int),
            out@ == collapse_backslashes(body.take(i - start)),
        decreases n - i,
    {
        proof {
            lemma_collapse_step(body, i - start);
        }
        let c = chars[i];
        if c != '\\' {
            out.push(c);
        } else if i > start && chars[i - 1] == '\\' {
        } else {
            out.push('/');
        }
        i = i + 1;
    }
    assert(body.take(n - start) == body);
    out
}

/// The normal form of `path`.
pub fn normalize_path(path: &str) -> (out: String)
    ensures
        out@ == normalized(path@),
{
    let chars = chars_of(path);
    let out = strip_and_collapse(&chars);
    string_of(&out)
}

fn find_traversal(s: &Vec<char>) -> (found: bool)
    ensures
        found == has_traversal(s@),
{
    let n = s.len();
    if n < 2 {
        return false;
    }
    let mut i: usize = 0;
    while i <= n - 2
        invariant
            n == s.len(),
            n >= 2,
            forall|k: int| 0 <= k < i ==> !is_parent_segment(s@, k),
        decreases n - i,
    {
        if s[i] == '.' && s[i + 1] == '.' && (i == 0 || s[i - 1] == '/') && (i + 2 == n || s[i + 2]
            == '/') {
            assert(is_parent_segment(s@, i as int));
            return true;
        }
        i = i + 1;
    }
    false
}

fn find_separator(s: &Vec<char>, from: usize) -> (at: usize)
    ensures
        from <= at,
        at < s.len() ==> s[at as int] == '/',
        forall|k: int| from <= k < at && k < s.len() ==> s[k] != '/',
{
    let mut i: usize = from;
    while i < s.len()
        invariant
            from <= i,
            forall|k: int| from <= k < i && k < s.len() ==> s[k] != '/',
        decreases s.len() - i,
    {
        if s[i] == '/' {
            return i;
        }
        i = i + 1;
    }
    i
}

fn check_log_shape(s: &Vec<char>) -> (ok: bool)
    ensures
        ok == has_log_shape(s@),
{
    let n = s.len();
    if n < 4 || s[n - 4] != '.' || s[n - 3] != 'l' || s[n - 2] != 'o' || s[n - 1] != 'g' {
        return false;
    }
    let i = find_separator(s, 1);
    if i >= n || n - i < 2 {
        assert forall|a: int, b: int| !splits_as_log_path(s@, a, b) by {}
        return false;
    }
    let j = find_separator(s, i + 2);
    if j >= n || n - j < 6 {
        assert forall|a: int, b: int| !splits_as_log_path(s@, a, b) by {}
        return false;
    }
    assert(splits_as_log_path(s@, i as int, j as int));
    true
}

/// Normalises `path` and returns the normal form if the path is allowed.
pub fn checked_path(path: &str) -> (out: Option<String>)
    ensures
        out is Some <==> is_allowed(path@),
        out matches Some(p) ==> p@ == normalized(path@),
{
    let chars = chars_of(path);
    let norm = strip_and_collapse(&chars);
    if find_traversal(&norm) || !check_log_shape(&norm) {
        None
    } else {
        Some(string_of(&norm))
    }
}

/// Whether `path` denotes a permissible log file location.
pub fn is_valid_path(path: &str) -> (ok: bool)
    ensures
        ok == is_allowed(path@),
{
    let chars = chars_of(path);
    let norm = strip_and_collapse(&chars);
    !find_traversal(&norm) && check_log_shape(&norm)
}

} // verus!
