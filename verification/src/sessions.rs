//! Which transcripts count as active sessions.
//!
//! A live session appends to its transcript continuously, so "active" is
//! observable as a recent modification time on `projects/*/*.jsonl`. The
//! directory walk and the cache file belong to the caller; this module
//! decides what a directory entry and a cached count mean.

use vstd::prelude::*;
use crate::text::{chars_of, parse_uint, parse_uint_spec, trim, trim_spec};

verus! {

/// A transcript touched within this many seconds counts as active.
pub const ACTIVE_WINDOW_SECS: u64 = 60;

/// The position of the last `.` in `name`.
pub open spec fn last_dot(name: Seq<char>) -> Option<int> {
    if exists|i: int| 0 <= i < name.len() && name[i] == '.' {
        Some(
            choose|i: int|
                0 <= i < name.len() && name[i] == '.' && forall|j: int|
                    i < j < name.len() ==> name[j] != '.',
        )
    } else {
        None
    }
}

/// `Path::extension` of a file name: what follows the last `.`, when a
/// `.` is present and something precedes it; `..` has none.
pub open spec fn extension_spec(name: Seq<char>) -> Option<Seq<char>> {
    if name == seq!['.', '.'] {
        None
    } else {
        match last_dot(name) {
            Some(i) => if i == 0 {
                None
            } else {
                Some(name.skip(i + 1))
            },
            None => None,
        }
    }
}

/// An entry counts when its name has the extension `jsonl` and its
/// modification lies no more than [`ACTIVE_WINDOW_SECS`] in the past;
/// `age` is `(seconds, nanoseconds)` since the modification, `None` when
/// the time is unknown or in the future.
pub open spec fn is_recent_transcript_spec(name: Seq<char>, age: Option<(u64, u32)>) -> bool {
    &&& extension_spec(name) == Some("jsonl"@)
    &&& match age {
        Some((secs, nanos)) => secs < ACTIVE_WINDOW_SECS || (secs == ACTIVE_WINDOW_SECS && nanos
            == 0),
        None => false,
    }
}

/// Whether the directory entry `name`, modified `age` ago, is the
/// transcript of an active session.
pub fn is_recent_transcript(name: &str, age: Option<(u64, u32)>) -> (r: bool)
    ensures
        r == is_recent_transcript_spec(name@, age),
{
    let recent = match age {
        Some((secs, nanos)) => secs < ACTIVE_WINDOW_SECS || (secs == ACTIVE_WINDOW_SECS && nanos
            == 0),
        None => false,
    };
    if !recent {
        return false;
    }
    let cs = chars_of(name);
    if cs.len() == 2 && cs[0] == '.' && cs[1] == '.' {
        assert(cs@ =~= seq!['.', '.']);
        return false;
    }
    assert(name@ != seq!['.', '.']) by {
        if name@ == seq!['.', '.'] {
            assert(cs@.len() == 2 && cs@[0] == '.' && cs@[1] == '.');
        }
    }
    let mut i: usize = cs.len();
    while i > 0 && cs[i - 1] != '.'
        invariant
            cs@ == name@,
            i <= cs@.len(),
            forall|j: int| i <= j < cs@.len() ==> cs@[j] != '.',
        decreases i,
    {
        i = i - 1;
    }
    if i == 0 {
        assert(last_dot(name@) is None);
        return false;
    }
    let k = i - 1;
    proof {
        let w = choose|w: int|
            0 <= w < name@.len() && name@[w] == '.' && forall|j: int|
                w < j < name@.len() ==> name@[j] != '.';
        assert(0 <= k < name@.len() && name@[k as int] == '.' && forall|j: int|
            k < j < name@.len() ==> name@[j] != '.');
        if w < k {
            assert(name@[k as int] != '.');
        } else if w > k {
        }
        assert(last_dot(name@) == Some(k as int));
    }
    if k == 0 {
        return false;
    }
    let (_, ext) = cs.as_slice().split_at(i);
    assert(ext@ =~= name@.skip(i as int));
    assert(extension_spec(name@) == Some(ext@));
    let jsonl = chars_of("jsonl");
    if ext.len() != jsonl.len() {
        assert(ext@ != jsonl@);
        return false;
    }
    assert(is_recent_transcript_spec(name@, age) == (ext@ == jsonl@));
    let mut m: usize = 0;
    while m < ext.len()
        invariant
            is_recent_transcript_spec(name@, age) == (ext@ == jsonl@),
            ext@.len() == jsonl@.len(),
            jsonl@ == "jsonl"@,
            m <= ext@.len(),
            forall|j: int| 0 <= j < m ==> ext@[j] == jsonl@[j],
        decreases ext@.len() - m,
    {
        if ext[m] != jsonl[m] {
            assert(ext@[m as int] != jsonl@[m as int]);
            return false;
        }
        m = m + 1;
    }
    assert(ext@ =~= jsonl@);
    true
}

/// How many of the entries count as active transcripts.
pub open spec fn recent_count(entries: Seq<(String, Option<(u64, u32)>)>) -> nat
    decreases entries.len(),
{
    if entries.len() == 0 {
        0
    } else {
        let e = entries.last();
        recent_count(entries.drop_last()) + if is_recent_transcript_spec(e.0@, e.1) {
            1nat
        } else {
            0nat
        }
    }
}

/// The count never exceeds the number of entries, and an entry that is
/// not a recent `jsonl` transcript adds nothing to it.
pub proof fn law_recent_count_counts_recent_entries(
    entries: Seq<(String, Option<(u64, u32)>)>,
    e: (String, Option<(u64, u32)>),
)
    ensures
        recent_count(entries) <= entries.len(),
        !is_recent_transcript_spec(e.0@, e.1) ==> recent_count(entries.push(e)) == recent_count(
            entries,
        ),
        is_recent_transcript_spec(e.0@, e.1) ==> recent_count(entries.push(e)) == recent_count(
            entries,
        ) + 1,
    decreases entries.len(),
{
    if entries.len() > 0 {
        law_recent_count_counts_recent_entries(entries.drop_last(), e);
    }
    assert(entries.push(e).drop_last() =~= entries);
}

/// Counts the active transcripts among the entries of the project
/// directories, each given by its file name and its age.
pub fn count_recent(entries: &Vec<(String, Option<(u64, u32)>)>) -> (r: u64)
    requires
        entries@.len() <= u64::MAX,
    ensures
        r == recent_count(entries@),
{
    let mut n: u64 = 0;
    let mut i: usize = 0;
    while i < entries.len()
        invariant
            i <= entries@.len() <= u64::MAX,
            n == recent_count(entries@.take(i as int)),
            n <= i,
        decreases entries@.len() - i,
    {
        assert(entries@.take(i + 1).drop_last() =~= entries@.take(i as int));
        if is_recent_transcript(entries[i].0.as_str(), entries[i].1) {
            n = n + 1;
        }
        i = i + 1;
    }
    assert(entries@.take(entries@.len() as int) =~= entries@);
    n
}

/// The count stored in the cache file: its trimmed text as a `u64`.
pub open spec fn parse_count_spec(raw: Seq<char>) -> Option<u64> {
    match parse_uint_spec(trim_spec(raw), u64::MAX as nat) {
        Some(v) => Some(v as u64),
        None => None,
    }
}

/// Reads a cached session count.
pub fn parse_count(raw: &str) -> (r: Option<u64>)
    ensures
        r == parse_count_spec(raw@),
{
    let t = trim(chars_of(raw).as_slice());
    parse_uint(t.as_slice(), u64::MAX)
}

} // verus!
