//! Persistent marked byte ranges for "Mark All" highlighting.
use vstd::prelude::*;

verus! {

/// A list of marked byte ranges `(start, end)`, end exclusive, in the order
/// they were marked.
#[derive(Clone, Debug)]
pub struct MarkManager {
    marks: Vec<(usize, usize)>,
}

/// Whether `offset` falls in one of the ranges.
pub open spec fn in_some_range(marks: Seq<(usize, usize)>, offset: usize) -> bool {
    exists|i: int| 0 <= i < marks.len() && (#[trigger] marks[i]).0 <= offset && offset < marks[i].1
}

impl View for MarkManager {
    type V = Seq<(usize, usize)>;

    closed spec fn view(&self) -> Seq<(usize, usize)> {
        self.marks@
    }
}

impl Default for MarkManager {
    fn default() -> (res: Self)
        ensures
            res@ == Seq::<(usize, usize)>::empty(),
    {
        MarkManager { marks: Vec::new() }
    }
}

impl MarkManager {
    /// Appends the given ranges after the ones already marked.
    pub fn mark_all(&mut self, ranges: Vec<(usize, usize)>)
        ensures
            final(self)@ == old(self)@ + ranges@,
    {
        let mut ranges = ranges;
        self.marks.append(&mut ranges);
    }

    /// Removes every mark.
    pub fn clear(&mut self)
        ensures
            final(self)@ == Seq::<(usize, usize)>::empty(),
    {
        self.marks.clear();
    }

    /// The marked ranges, in order.
    pub fn marks(&self) -> (res: &[(usize, usize)])
        ensures
            res@ == self@,
    {
        self.marks.as_slice()
    }

    /// The number of marked ranges.
    pub fn count(&self) -> (res: usize)
        ensures
            res == self@.len(),
    {
        self.marks.len()
    }

    /// Whether nothing is marked.
    pub fn is_empty(&self) -> (res: bool)
        ensures
            res == (self@.len() == 0),
    {
        self.marks.len() == 0
    }

    /// Whether a byte offset falls within any marked range.
    pub fn contains(&self, offset: usize) -> (res: bool)
        ensures
            res == in_some_range(self@, offset),
    {
        let mut i: usize = 0;
        while i < self.marks.len()
            invariant
                i <= self.marks@.len(),
                forall|k: int|
                    0 <= k < i ==> !((#[trigger] self.marks@[k]).0 <= offset && offset
                        < self.marks@[k].1),
            decreases self.marks.len() - i,
        {
            let (s, e) = self.marks[i];
            if offset >= s && offset < e {
                assert(self.marks@[i as int].0 <= offset && offset < self.marks@[i as int].1);
                return true;
            }
            i += 1;
        }
        false
    }
}

} // verus!
