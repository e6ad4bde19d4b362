//! The history of searches: each query with its results and when it ran.
use vstd::prelude::*;
use crate::search::engine::SearchMatch;
use std::time::Instant;

verus! {

#[verifier::external_type_specification]
#[verifier::external_body]
pub struct ExInstant(Instant);

/// `Instant::now`: the current time. Nothing is stated of it.
#[verifier::external_body]
fn now() -> Instant {
    Instant::now()
}

/// One past search.
pub struct SearchHistoryEntry {
    pub query: String,
    pub results: Vec<SearchMatch>,
    pub timestamp: Instant,
}

/// The most recent searches, oldest first, at most `max_entries` of them
/// once full.
pub struct SearchHistory {
    entries: Vec<SearchHistoryEntry>,
    max_entries: usize,
}

impl SearchHistory {
    /// The searches kept, oldest first.
    pub closed spec fn entries_spec(&self) -> Seq<SearchHistoryEntry> {
        self.entries@
    }

    /// How many searches are kept at most.
    pub closed spec fn max(&self) -> usize {
        self.max_entries
    }

    /// An empty history that keeps at most `max_entries` searches.
    pub fn new(max_entries: usize) -> (res: Self)
        ensures
            res.entries_spec().len() == 0,
            res.max() == max_entries,
    {
        SearchHistory { entries: Vec::new(), max_entries }
    }

    /// Records a search, dropping the oldest one when the history is full.
    /// (With room for no search at all, the first one has nothing to drop.)
    pub fn add(&mut self, query: String, results: Vec<SearchMatch>)
        requires
            old(self).max() > 0 || old(self).entries_spec().len() > 0,
        ensures
            final(self).max() == old(self).max(),
            ({
                let kept = if old(self).entries_spec().len() >= old(self).max() {
                    old(self).entries_spec().skip(1)
                } else {
                    old(self).entries_spec()
                };
                &&& final(self).entries_spec().len() == kept.len() + 1
                &&& final(self).entries_spec().take(kept.len() as int) == kept
                &&& final(self).entries_spec().last().query == query
                &&& final(self).entries_spec().last().results == results
            }),
    {
        if self.entries.len() >= self.max_entries {
            self.entries.remove(0);
        }
        let ghost kept = self.entries@;
        self.entries.push(SearchHistoryEntry { query, results, timestamp: now() });
        assert(self.entries@.take(kept.len() as int) == kept);
    }

    /// The searches kept, oldest first.
    pub fn entries(&self) -> (res: &[SearchHistoryEntry])
        ensures
            res@ == self.entries_spec(),
    {
        self.entries.as_slice()
    }

    /// Forgets every search.
    pub fn clear(&mut self)
        ensures
            final(self).entries_spec().len() == 0,
            final(self).max() == old(self).max(),
    {
        self.entries.clear();
    }
}

} // verus!
