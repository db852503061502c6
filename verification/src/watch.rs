//! Watching the disk: whether it is watched at all, and which of the
//! notifications for a path are let through.

use vstd::prelude::*;
use crate::path::str_eq;

verus! {

/// Whether the disk is watched. A process that reads the disk once and
/// ends does not watch it, and gets no events.
#[derive(Debug, Clone, Copy, PartialEq, Eq)]
pub enum WatchMode {
    Enabled,
    Disabled,
}

/// The time, in milliseconds, for which a path is quiet after a
/// notification for it was let through.
pub const DEBOUNCE_MILLIS: u64 = 300;

/// For each path, the time at which a notification for it was last let
/// through.
pub struct Debouncer {
    last: Vec<(String, u64)>,
}

/// The time recorded for `path` among the first `upto` entries, latest
/// entry first; nothing where none of them is for `path`.
pub open spec fn recorded(entries: Seq<(String, u64)>, path: Seq<char>, upto: int) -> Option<u64>
    decreases upto,
{
    if 0 < upto <= entries.len() {
        if entries[upto - 1].0@ == path {
            Some(entries[upto - 1].1)
        } else {
            recorded(entries, path, upto - 1)
        }
    } else {
        None
    }
}

/// Whether a notification at the time `now` is let through, the last one
/// let through for its path having been at `last`.
pub open spec fn lets_through(last: Option<u64>, now: u64) -> bool {
    match last {
        None => true,
        Some(t) => now < t || now - t >= DEBOUNCE_MILLIS,
    }
}

impl Debouncer {
    /// The time at which a notification for `path` was last let through.
    pub closed spec fn last_at(&self, path: Seq<char>) -> Option<u64> {
        recorded(self.last@, path, self.last@.len() as int)
    }

    /// Creates a debouncer that has let nothing through yet.
    pub fn new() -> (r: Debouncer)
        ensures
            forall|p: Seq<char>| r.last_at(p).is_none(),
    {
        Debouncer { last: Vec::new() }
    }

    /// Decides whether a notification for `path` at the time `now` is let
    /// through: it is unless one for the same path was let through less
    /// than 300 milliseconds before. A notification that is let through is
    /// recorded; one that is not changes nothing.
    pub fn let_through(&mut self, path: &str, now: u64) -> (r: bool)
        ensures
            r == lets_through(old(self).last_at(path@), now),
            forall|p: Seq<char>|
                #[trigger] final(self).last_at(p) == (if r && p == path@ {
                    Some(now)
                } else {
                    old(self).last_at(p)
                }),
    {
        let mut i: usize = self.last.len();
        let ghost entries = self.last@;
        while i > 0
            invariant
                0 <= i <= self.last.len(),
                entries == self.last@,
                entries == old(self).last@,
                recorded(entries, path@, entries.len() as int) == recorded(entries, path@, i as int),
            decreases i,
        {
            if str_eq(self.last[i - 1].0.as_str(), path) {
                let t = self.last[i - 1].1;
                if now < t || now - t >= DEBOUNCE_MILLIS {
                    self.last.push((path.to_owned(), now));
                    proof {
                        let pair = self.last@.last();
                        assert(self.last@.drop_last() =~= entries);
                        assert(self.last@ =~= entries.push(pair));
                        lemma_recorded_after_push(entries, pair);
                    }
                    return true;
                }
                return false;
            }
            i = i - 1;
        }
        self.last.push((path.to_owned(), now));
        proof {
            let pair = self.last@.last();
            assert(self.last@.drop_last() =~= entries);
            assert(self.last@ =~= entries.push(pair));
            lemma_recorded_after_push(entries, pair);
        }
        true
    }
}

/// After an entry is added, it is what is recorded for its path, and what
/// is recorded for every other path is as before.
pub proof fn lemma_recorded_after_push(entries: Seq<(String, u64)>, pair: (String, u64))
    ensures
        forall|p: Seq<char>|
            #[trigger] recorded(entries.push(pair), p, entries.len() as int + 1) == (if p == pair.0@ {
                Some(pair.1)
            } else {
                recorded(entries, p, entries.len() as int)
            }),
{
    let longer = entries.push(pair);
    assert forall|p: Seq<char>| #[trigger]
        recorded(longer, p, entries.len() as int + 1) == (if p == pair.0@ {
            Some(pair.1)
        } else {
            recorded(entries, p, entries.len() as int)
        }) by {
        lemma_recorded_prefix(longer, entries, p, entries.len() as int);
    }
}

/// What is recorded among the first entries depends on those entries alone.
pub proof fn lemma_recorded_prefix(
    a: Seq<(String, u64)>,
    b: Seq<(String, u64)>,
    p: Seq<char>,
    upto: int,
)
    requires
        0 <= upto <= a.len(),
        upto <= b.len(),
        forall|j: int| 0 <= j < upto ==> a[j] == b[j],
    ensures
        recorded(a, p, upto) == recorded(b, p, upto),
    decreases upto,
{
    if upto > 0 {
        lemma_recorded_prefix(a, b, p, upto - 1);
    }
}

} // verus!
