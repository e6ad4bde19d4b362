//! The list of recently opened files, most recent first.
use vstd::prelude::*;
use crate::text::{str_eq, strs_of};

verus! {

/// How many files the list keeps unless told otherwise.
pub const DEFAULT_MAX_ENTRIES: usize = 15;

/// Recently opened file paths, most recent first, each once, at most
/// `max_entries` of them.
#[derive(Debug)]
pub struct RecentFiles {
    entries: Vec<String>,
    max_entries: usize,
}

/// The paths other than `p`, in order.
pub open spec fn without(s: Seq<Seq<char>>, p: Seq<char>) -> Seq<Seq<char>>
    decreases s.len(),
{
    if s.len() == 0 {
        seq![]
    } else if s.last() == p {
        without(s.drop_last(), p)
    } else {
        without(s.drop_last(), p).push(s.last())
    }
}

/// At most the first `n` paths.
pub open spec fn at_most(s: Seq<Seq<char>>, n: usize) -> Seq<Seq<char>> {
    if s.len() > n {
        s.take(n as int)
    } else {
        s
    }
}

impl Default for RecentFiles {
    fn default() -> (res: Self)
        ensures
            res.list_view().len() == 0,
            res.max() == DEFAULT_MAX_ENTRIES,
    {
        RecentFiles::new()
    }
}

impl RecentFiles {
    /// The paths, most recent first.
    pub closed spec fn list_view(&self) -> Seq<Seq<char>> {
        strs_of(self.entries@)
    }

    /// How many paths are kept at most.
    pub closed spec fn max(&self) -> usize {
        self.max_entries
    }

    /// An empty list that keeps at most 15 paths.
    pub fn new() -> (res: Self)
        ensures
            res.list_view().len() == 0,
            res.max() == DEFAULT_MAX_ENTRIES,
    {
        RecentFiles { entries: Vec::new(), max_entries: DEFAULT_MAX_ENTRIES }
    }

    /// An empty list that keeps at most `max` paths.
    pub fn with_max(max: usize) -> (res: Self)
        ensures
            res.list_view().len() == 0,
            res.max() == max,
    {
        RecentFiles { entries: Vec::new(), max_entries: max }
    }

    fn retain_other(&mut self, path: &str)
        ensures
            final(self).list_view() == without(old(self).list_view(), path@),
            final(self).max() == old(self).max(),
    {
        let ghost input = strs_of(self.entries@);
        let mut out: Vec<String> = Vec::new();
        let mut i: usize = 0;
        while i < self.entries.len()
            invariant
                i <= self.entries@.len(),
                input == strs_of(self.entries@),
                strs_of(out@) == without(input.take(i as int), path@),
            decreases self.entries.len() - i,
        {
            proof {
                assert(input.take(i as int + 1).drop_last() == input.take(i as int));
                assert(input[i as int] == self.entries@[i as int]@);
            }
            if !str_eq(self.entries[i].as_str(), path) {
                let ghost prev = out@;
                out.push(self.entries[i].clone());
                proof {
                    assert(strs_of(out@) == strs_of(prev).push(input[i as int]));
                }
            }
            i += 1;
        }
        proof {
            assert(input.take(self.entries@.len() as int) == input);
        }
        self.entries = out;
    }

    /// Puts `path` first, drops its earlier place in the list, and keeps
    /// at most `max` paths.
    pub fn add(&mut self, path: String)
        ensures
            final(self).list_view() == at_most(
                seq![path@] + without(old(self).list_view(), path@),
                old(self).max(),
            ),
            final(self).max() == old(self).max(),
    {
        self.retain_other(path.as_str());
        let ghost prev = self.entries@;
        let ghost pv = path@;
        self.entries.insert(0, path);
        proof {
            assert(strs_of(self.entries@) == seq![pv] + strs_of(prev));
        }
        let ghost before = self.entries@;
        self.entries.truncate(self.max_entries);
        proof {
            if before.len() > self.max_entries {
                assert(strs_of(self.entries@) == strs_of(before).take(self.max_entries as int));
            } else {
                assert(self.entries@ == before);
            }
        }
    }

    /// Drops `path` from the list.
    pub fn remove(&mut self, path: &str)
        ensures
            final(self).list_view() == without(old(self).list_view(), path@),
            final(self).max() == old(self).max(),
    {
        self.retain_other(path);
    }

    /// The paths, most recent first.
    pub fn list(&self) -> (res: &[String])
        ensures
            strs_of(res@) == self.list_view(),
    {
        self.entries.as_slice()
    }

    /// The most paths kept.
    pub fn max_entries(&self) -> (res: usize)
        ensures
            res == self.max(),
    {
        self.max_entries
    }

    /// Empties the list.
    pub fn clear(&mut self)
        ensures
            final(self).list_view().len() == 0,
            final(self).max() == old(self).max(),
    {
        self.entries.clear();
    }
}

proof fn lemma_without(s: Seq<Seq<char>>, p: Seq<char>)
    requires
        s.no_duplicates(),
    ensures
        without(s, p).no_duplicates(),
        !without(s, p).contains(p),
        forall|x: Seq<char>| #[trigger] without(s, p).contains(x) ==> s.contains(x),
    decreases s.len(),
{
    if s.len() > 0 {
        let init = s.drop_last();
        assert forall|i: int, j: int| 0 <= i < j < init.len() implies init[i] != init[j] by {
            assert(init[i] == s[i] && init[j] == s[j]);
        }
        lemma_without(init, p);
        let w = without(init, p);
        assert forall|x: Seq<char>| #[trigger] without(s, p).contains(x) implies s.contains(x) by {
            let k = choose|k: int| 0 <= k < without(s, p).len() && without(s, p)[k] == x;
            if k < w.len() {
                assert(w[k] == x);
                assert(w.contains(x));
                let m = choose|m: int| 0 <= m < init.len() && init[m] == x;
                assert(s[m] == x);
            } else {
                assert(x == s.last());
                assert(s[s.len() - 1] == x);
            }
        }
        if s.last() != p {
            let r = w.push(s.last());
            assert forall|i: int, j: int| 0 <= i < j < r.len() implies r[i] != r[j] by {
                if j == r.len() - 1 {
                    assert(r[i] == w[i]);
                    if w[i] == s.last() {
                        assert(w.contains(s.last()));
                        let m = choose|m: int| 0 <= m < init.len() && init[m] == s.last();
                        assert(s[m] == s[s.len() - 1]);
                    }
                } else {
                    assert(r[i] == w[i] && r[j] == w[j]);
                }
            }
            assert(!r.contains(p)) by {
                if r.contains(p) {
                    let k = choose|k: int| 0 <= k < r.len() && r[k] == p;
                    if k < w.len() {
                        assert(w[k] == p);
                    }
                }
            }
        }
    }
}

/// Adding a path keeps the list free of duplicates, puts the path first
/// (when the list may hold any path at all), and keeps at most `max`
/// paths.
pub proof fn law_add_keeps_list_clean(s: Seq<Seq<char>>, p: Seq<char>, max: usize)
    requires
        s.no_duplicates(),
    ensures
        at_most(seq![p] + without(s, p), max).no_duplicates(),
        at_most(seq![p] + without(s, p), max).len() <= max,
        max > 0 ==> at_most(seq![p] + without(s, p), max)[0] == p,
{
    lemma_without(s, p);
    let w = without(s, p);
    let full = seq![p] + w;
    assert forall|i: int, j: int| 0 <= i < j < full.len() implies full[i] != full[j] by {
        if i == 0 {
            assert(full[j] == w[j - 1]);
            if w[j - 1] == p {
                assert(w.contains(p));
            }
        } else {
            assert(full[i] == w[i - 1] && full[j] == w[j - 1]);
        }
    }
    let r = at_most(full, max);
    assert forall|i: int, j: int| 0 <= i < j < r.len() implies r[i] != r[j] by {
        assert(r[i] == full[i] && r[j] == full[j]);
    }
}

} // verus!
