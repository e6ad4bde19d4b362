//! A set of line numbers kept as a strictly increasing vector.
use vstd::prelude::*;

verus! {

/// Whether the sequence is strictly increasing.
pub open spec fn strictly_sorted(s: Seq<usize>) -> bool {
    forall|i: int, j: int| 0 <= i < j < s.len() ==> s[i] < s[j]
}

/// A set of line numbers, ascending, each once.
#[derive(Debug)]
pub struct LineSet {
    items: Vec<usize>,
}

impl Clone for LineSet {
    fn clone(&self) -> (res: Self)
        ensures
            res.seq() == self.seq(),
            res@ == self@,
            res.wf() == self.wf(),
    {
        let r = LineSet { items: self.items.clone() };
        assert(r.items@ =~= self.items@);
        r
    }
}

impl View for LineSet {
    type V = Set<usize>;

    closed spec fn view(&self) -> Set<usize> {
        self.items@.to_set()
    }
}

impl LineSet {
    /// The elements are kept strictly increasing.
    pub closed spec fn wf(self) -> bool {
        strictly_sorted(self.items@)
    }

    /// The elements in ascending order.
    pub closed spec fn seq(self) -> Seq<usize> {
        self.items@
    }

    pub proof fn lemma_seq(self)
        requires
            self.wf(),
        ensures
            strictly_sorted(self.seq()),
            self.seq().to_set() == self@,
            self@.finite(),
            self@.len() == self.seq().len(),
    {
        lemma_sorted_no_dup(self.items@);
        self.items@.unique_seq_to_set();
    }

    pub fn new() -> (res: Self)
        ensures
            res.wf(),
            res@ == Set::<usize>::empty(),
            res.seq().len() == 0,
    {
        let r = LineSet { items: Vec::new() };
        assert(r.items@.to_set() =~= Set::<usize>::empty());
        r
    }

    /// The position where `x` is or would be inserted.
    fn position(&self, x: usize) -> (res: usize)
        requires
            self.wf(),
        ensures
            res <= self.seq().len(),
            forall|k: int| 0 <= k < res ==> self.seq()[k] < x,
            forall|k: int| res <= k < self.seq().len() ==> self.seq()[k] >= x,
    {
        let mut i: usize = 0;
        while i < self.items.len() && self.items[i] < x
            invariant
                i <= self.items@.len(),
                strictly_sorted(self.items@),
                forall|k: int| 0 <= k < i ==> self.items@[k] < x,
            decreases self.items.len() - i,
        {
            i += 1;
        }
        i
    }

    pub fn contains(&self, x: usize) -> (res: bool)
        requires
            self.wf(),
        ensures
            res == self@.contains(x),
    {
        let i = self.position(x);
        let r = i < self.items.len() && self.items[i] == x;
        proof {
            if !r && self.items@.contains(x) {
                let k = choose|k: int| 0 <= k < self.items@.len() && self.items@[k] == x;
                if k >= i {
                    assert(self.items@[i as int] >= x);
                    assert(self.items@[i as int] != x);
                    assert(self.items@[k] >= self.items@[i as int]);
                }
            }
        }
        r
    }

    /// Adds `x`; returns whether it was absent.
    pub fn insert(&mut self, x: usize) -> (res: bool)
        requires
            old(self).wf(),
        ensures
            final(self).wf(),
            final(self)@ == old(self)@.insert(x),
            res == !old(self)@.contains(x),
    {
        let i = self.position(x);
        if i < self.items.len() && self.items[i] == x {
            assert(self.items@.contains(x));
            proof {
                assert(self.items@.to_set().insert(x) =~= self.items@.to_set());
            }
            return false;
        }
        let ghost old_items = self.items@;
        assert(!old_items.contains(x)) by {
            if old_items.contains(x) {
                let k = choose|k: int| 0 <= k < old_items.len() && old_items[k] == x;
                if k >= i {
                    assert(old_items[k] >= old_items[i as int]);
                }
            }
        }
        let mut items = self.items.clone();
        items.insert(i, x);
        assert(strictly_sorted(items@)) by {
            assert forall|a: int, b: int| 0 <= a < b < items@.len() implies items@[a] < items@[b] by {
                if a < i && b > i {
                    assert(items@[a] == old_items[a]);
                    assert(items@[b] == old_items[b - 1]);
                } else if a < i && b == i {
                } else if a == i {
                    assert(items@[b] == old_items[b - 1]);
                    assert(old_items[b - 1] >= x);
                } else if a > i {
                    assert(items@[a] == old_items[a - 1]);
                    assert(items@[b] == old_items[b - 1]);
                }
            }
        }
        assert(items@.to_set() =~= old_items.to_set().insert(x)) by {
            assert forall|y: usize| items@.contains(y) implies old_items.contains(y) || y == x by {
                let k = choose|k: int| 0 <= k < items@.len() && items@[k] == y;
                if k < i {
                    assert(old_items[k] == y);
                } else if k > i {
                    assert(old_items[k - 1] == y);
                }
            }
            assert forall|y: usize| old_items.contains(y) implies items@.contains(y) by {
                let k = choose|k: int| 0 <= k < old_items.len() && old_items[k] == y;
                if k < i {
                    assert(items@[k] == y);
                } else {
                    assert(items@[k + 1] == y);
                }
            }
            assert(items@[i as int] == x);
        }
        self.items = items;
        true
    }

    /// Removes `x`; returns whether it was present.
    pub fn remove(&mut self, x: usize) -> (res: bool)
        requires
            old(self).wf(),
        ensures
            final(self).wf(),
            final(self)@ == old(self)@.remove(x),
            res == old(self)@.contains(x),
    {
        let i = self.position(x);
        let ghost old_items = self.items@;
        if !(i < self.items.len() && self.items[i] == x) {
            assert(!old_items.contains(x)) by {
                if old_items.contains(x) {
                    let k = choose|k: int| 0 <= k < old_items.len() && old_items[k] == x;
                    if k >= i {
                        assert(old_items[k] >= old_items[i as int]);
                        assert(old_items[i as int] != x);
                    }
                }
            }
            assert(old_items.to_set().remove(x) =~= old_items.to_set());
            return false;
        }
        let mut items = self.items.clone();
        items.remove(i);
        assert(strictly_sorted(items@)) by {
            assert forall|a: int, b: int| 0 <= a < b < items@.len() implies items@[a] < items@[b] by {
                if a < i {
                    assert(items@[a] == old_items[a]);
                } else {
                    assert(items@[a] == old_items[a + 1]);
                }
                if b < i {
                    assert(items@[b] == old_items[b]);
                } else {
                    assert(items@[b] == old_items[b + 1]);
                }
            }
        }
        assert(items@.to_set() =~= old_items.to_set().remove(x)) by {
            assert forall|y: usize| items@.contains(y) implies old_items.contains(y) && y != x by {
                let k = choose|k: int| 0 <= k < items@.len() && items@[k] == y;
                if k < i {
                    assert(old_items[k] == y);
                    assert(old_items[k] < old_items[i as int]);
                } else {
                    assert(old_items[k + 1] == y);
                    assert(old_items[k + 1] > old_items[i as int]);
                }
            }
            assert forall|y: usize| old_items.contains(y) && y != x implies items@.contains(y) by {
                let k = choose|k: int| 0 <= k < old_items.len() && old_items[k] == y;
                if k < i {
                    assert(items@[k] == y);
                } else {
                    assert(k != i);
                    assert(items@[k - 1] == y);
                }
            }
        }
        self.items = items;
        true
    }

    pub fn clear(&mut self)
        ensures
            final(self).wf(),
            final(self)@ == Set::<usize>::empty(),
            final(self).seq().len() == 0,
    {
        self.items.clear();
        assert(self.items@.to_set() =~= Set::<usize>::empty());
    }

    pub fn len(&self) -> (res: usize)
        ensures
            res == self.seq().len(),
    {
        self.items.len()
    }

    /// The `i`-th smallest element.
    pub fn get(&self, i: usize) -> (res: usize)
        requires
            i < self.seq().len(),
        ensures
            res == self.seq()[i as int],
    {
        self.items[i]
    }

    /// The elements in ascending order.
    pub fn to_vec(&self) -> (res: Vec<usize>)
        ensures
            res@ == self.seq(),
    {
        self.items.clone()
    }
}

pub proof fn lemma_sorted_no_dup(s: Seq<usize>)
    requires
        strictly_sorted(s),
    ensures
        s.no_duplicates(),
{
}

} // verus!
