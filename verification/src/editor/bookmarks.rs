//! Line bookmarks: toggling, navigation with wrap-around, and filtering the
//! lines of a text by whether they are bookmarked.
use vstd::prelude::*;
use crate::lineset::LineSet;
use crate::text::{join, join_chars, lines_of, seqs_of, split_lines, string_from_chars, str_chars};

verus! {

#[derive(Debug)]
pub struct BookmarkManager {
    bookmarks: LineSet,
}

impl Clone for BookmarkManager {
    fn clone(&self) -> (res: Self)
        ensures
            res@ == self@,
    {
        proof {
            use_type_invariant(self);
        }
        BookmarkManager { bookmarks: self.bookmarks.clone() }
    }
}

/// `s` with `x` removed when it holds it, added when it does not.
pub open spec fn toggled(s: Set<usize>, x: usize) -> Set<usize> {
    if s.contains(x) {
        s.remove(x)
    } else {
        s.insert(x)
    }
}

/// Toggling the same line twice leaves the bookmarks as they were.
pub proof fn law_toggle_twice(s: Set<usize>, line: usize)
    ensures
        toggled(toggled(s, line), line) == s,
{
    if s.contains(line) {
        assert(s.remove(line).insert(line) =~= s);
    } else {
        assert(s.insert(line).remove(line) =~= s);
    }
}

/// The first bookmark after `from` (wrapping to the smallest one).
pub open spec fn next_after(s: Set<usize>, from: usize, r: usize) -> bool {
    &&& s.contains(r)
    &&& (exists|b: usize| s.contains(b) && b > from) ==> (r > from && forall|b: usize|
        s.contains(b) && b > from ==> r <= b)
    &&& (forall|b: usize| s.contains(b) ==> b <= from) ==> (forall|b: usize| s.contains(b) ==> r <= b)
}

/// The last bookmark before `from` (wrapping to the largest one).
pub open spec fn prev_before(s: Set<usize>, from: usize, r: usize) -> bool {
    &&& s.contains(r)
    &&& (exists|b: usize| s.contains(b) && b < from) ==> (r < from && forall|b: usize|
        s.contains(b) && b < from ==> r >= b)
    &&& (forall|b: usize| s.contains(b) ==> b >= from) ==> (forall|b: usize| s.contains(b) ==> r >= b)
}

/// The lines whose (0-based) index is in `keep` (`keep == true`) or not in it.
pub open spec fn filter_lines(l: Seq<Seq<char>>, s: Set<usize>, keep: bool) -> Seq<Seq<char>>
    decreases l.len(),
{
    if l.len() == 0 {
        seq![]
    } else {
        let rest = filter_lines(l.drop_last(), s, keep);
        if s.contains((l.len() - 1) as usize) == keep {
            rest.push(l.last())
        } else {
            rest
        }
    }
}

/// The text of the bookmarked lines that exist, in order of bookmark.
pub open spec fn lines_at(l: Seq<Seq<char>>, marks: Seq<usize>) -> Seq<Seq<char>>
    decreases marks.len(),
{
    if marks.len() == 0 {
        seq![]
    } else if marks.last() < l.len() {
        lines_at(l, marks.drop_last()).push(l[marks.last() as int])
    } else {
        lines_at(l, marks.drop_last())
    }
}

impl View for BookmarkManager {
    type V = Set<usize>;

    closed spec fn view(&self) -> Set<usize> {
        self.bookmarks@
    }
}

impl Default for BookmarkManager {
    fn default() -> (res: Self)
        ensures
            res@ == Set::<usize>::empty(),
    {
        BookmarkManager { bookmarks: LineSet::new() }
    }
}

impl BookmarkManager {
    #[verifier::type_invariant]
    spec fn inv(self) -> bool {
        self.bookmarks.wf()
    }

    /// The bookmarks in ascending order.
    pub closed spec fn sorted(self) -> Seq<usize> {
        self.bookmarks.seq()
    }

    pub fn toggle(&mut self, line: usize)
        ensures
            final(self)@ == toggled(old(self)@, line),
    {
        proof {
            use_type_invariant(&*self);
        }
        let mut b = LineSet::new();
        std::mem::swap(&mut b, &mut self.bookmarks);
        if !b.remove(line) {
            b.insert(line);
        }
        self.bookmarks = b;
    }

    pub fn add(&mut self, line: usize)
        ensures
            final(self)@ == old(self)@.insert(line),
    {
        proof {
            use_type_invariant(&*self);
        }
        let mut b = LineSet::new();
        std::mem::swap(&mut b, &mut self.bookmarks);
        b.insert(line);
        self.bookmarks = b;
    }

    pub fn remove(&mut self, line: usize)
        ensures
            final(self)@ == old(self)@.remove(line),
    {
        proof {
            use_type_invariant(&*self);
        }
        let mut b = LineSet::new();
        std::mem::swap(&mut b, &mut self.bookmarks);
        b.remove(line);
        self.bookmarks = b;
    }

    pub fn is_bookmarked(&self, line: usize) -> (res: bool)
        ensures
            res == self@.contains(line),
    {
        proof {
            use_type_invariant(self);
        }
        self.bookmarks.contains(line)
    }

    /// The next bookmark after `from_line`, wrapping around to the first.
    pub fn next_bookmark(&self, from_line: usize) -> (res: Option<usize>)
        requires
            from_line < usize::MAX,
        ensures
            self@.len() == 0 <==> res is None,
            res matches Some(r) ==> next_after(self@, from_line, r),
    {
        proof {
            use_type_invariant(self);
            self.bookmarks.lemma_seq();
        }
        let ghost s = self.bookmarks.seq();
        let n = self.bookmarks.len();
        if n == 0 {
            return None;
        }
        let mut i: usize = 0;
        while i < n && self.bookmarks.get(i) <= from_line
            invariant
                i <= n == s.len(),
                s == self.bookmarks.seq(),
                forall|k: int| 0 <= k < i ==> s[k] <= from_line,
            decreases n - i,
        {
            i += 1;
        }
        let r = if i < n {
            self.bookmarks.get(i)
        } else {
            self.bookmarks.get(0)
        };
        proof {
            assert(s.contains(r));
            assert forall|b: usize| #[trigger] self@.contains(b) implies (b > from_line ==> r <= b)
                && (i == n ==> r <= b) by {
                assert(s.contains(b));
                let k = choose|k: int| 0 <= k < s.len() && s[k] == b;
                if k < i {
                    assert(b <= from_line);
                    if i == n && k > 0 {
                        assert(s[0] < s[k]);
                    }
                } else if i < n && k > i {
                    assert(s[i as int] < s[k]);
                } else if i == n && k > 0 {
                    assert(s[0] < s[k]);
                }
            }
        }
        Some(r)
    }

    /// The previous bookmark before `from_line`, wrapping around to the last.
    pub fn prev_bookmark(&self, from_line: usize) -> (res: Option<usize>)
        ensures
            self@.len() == 0 <==> res is None,
            res matches Some(r) ==> prev_before(self@, from_line, r),
    {
        proof {
            use_type_invariant(self);
            self.bookmarks.lemma_seq();
        }
        let ghost s = self.bookmarks.seq();
        let n = self.bookmarks.len();
        if n == 0 {
            return None;
        }
        let mut i: usize = n;
        while i > 0 && self.bookmarks.get(i - 1) >= from_line
            invariant
                i <= n == s.len(),
                s == self.bookmarks.seq(),
                forall|k: int| i <= k < n ==> s[k] >= from_line,
            decreases i,
        {
            i -= 1;
        }
        let r = if i > 0 {
            self.bookmarks.get(i - 1)
        } else {
            self.bookmarks.get(n - 1)
        };
        proof {
            assert(s.contains(r));
            assert forall|b: usize| #[trigger] self@.contains(b) implies (b < from_line ==> r >= b)
                && (i == 0 ==> r >= b) by {
                assert(s.contains(b));
                let k = choose|k: int| 0 <= k < s.len() && s[k] == b;
                if k >= i {
                    assert(b >= from_line);
                    if i == 0 && k < n - 1 {
                        assert(s[k] < s[n - 1]);
                    }
                } else if i > 0 && k < i - 1 {
                    assert(s[k] < s[i - 1]);
                }
            }
        }
        Some(r)
    }

    /// All bookmarks in ascending order.
    pub fn all_bookmarks(&self) -> (res: Vec<usize>)
        ensures
            res@ == self.sorted(),
            res@.to_set() == self@,
            crate::lineset::strictly_sorted(res@),
    {
        proof {
            use_type_invariant(self);
            self.bookmarks.lemma_seq();
        }
        self.bookmarks.to_vec()
    }

    pub fn clear(&mut self)
        ensures
            final(self)@ == Set::<usize>::empty(),
    {
        proof {
            use_type_invariant(&*self);
        }
        self.bookmarks = LineSet::new();
    }

    pub fn count(&self) -> (res: usize)
        ensures
            res == self@.len(),
    {
        proof {
            use_type_invariant(self);
            self.bookmarks.lemma_seq();
        }
        self.bookmarks.len()
    }

    /// The text of the bookmarked lines of `text`, in ascending order of line.
    pub fn bookmarked_lines(&self, text: &str) -> (res: Vec<String>)
        ensures
            crate::text::strs_of(res@) == lines_at(lines_of(text@), self.sorted()),
    {
        proof {
            use_type_invariant(self);
        }
        let lines = split_lines(text);
        let ghost l = lines_of(text@);
        let ghost marks = self.bookmarks.seq();
        let mut out: Vec<String> = Vec::new();
        let n = self.bookmarks.len();
        let mut i: usize = 0;
        while i < n
            invariant
                i <= n == marks.len(),
                marks == self.bookmarks.seq(),
                seqs_of(lines@) == l,
                crate::text::strs_of(out@) == lines_at(l, marks.take(i as int)),
            decreases n - i,
        {
            let idx = self.bookmarks.get(i);
            assert(marks.take(i as int + 1).drop_last() == marks.take(i as int));
            let ghost prev = out@;
            if idx < lines.len() {
                assert(seqs_of(lines@)[idx as int] == lines@[idx as int]@);
                out.push(string_from_chars(lines[idx].as_slice()));
                assert(crate::text::strs_of(out@) == crate::text::strs_of(prev).push(l[idx as int]));
            }
            i += 1;
        }
        assert(marks.take(n as int) == marks);
        out
    }

    /// Joins the lines kept or dropped by the bookmarks with `'\n'`.
    fn filter_text(&self, text: &str, keep: bool) -> (res: String)
        ensures
            res@ == join(filter_lines(lines_of(text@), self@, keep), "\n"@),
    {
        proof {
            use_type_invariant(self);
        }
        let lines = split_lines(text);
        let ghost l = lines_of(text@);
        let mut kept: Vec<Vec<char>> = Vec::new();
        let mut i: usize = 0;
        while i < lines.len()
            invariant
                i <= lines@.len(),
                seqs_of(lines@) == l,
                self.bookmarks.wf(),
                seqs_of(kept@) == filter_lines(l.take(i as int), self@, keep),
            decreases lines.len() - i,
        {
            assert(l.take(i as int + 1).drop_last() == l.take(i as int));
            let ghost prev = kept@;
            if self.bookmarks.contains(i) == keep {
                kept.push(lines[i].clone());
                assert(seqs_of(lines@)[i as int] == lines@[i as int]@);
                assert(seqs_of(kept@) == seqs_of(prev).push(l[i as int]));
            }
            i += 1;
        }
        assert(l.take(lines@.len() as int) == l);
        let sep = str_chars("\n");
        let joined = join_chars(&kept, sep.as_slice());
        string_from_chars(joined.as_slice())
    }

    /// The text without its bookmarked lines, joined with `'\n'`.
    pub fn remove_bookmarked_lines(&self, text: &str) -> (res: String)
        ensures
            res@ == join(filter_lines(lines_of(text@), self@, false), "\n"@),
    {
        self.filter_text(text, false)
    }

    /// Only the bookmarked lines of the text, joined with `'\n'`.
    pub fn remove_unbookmarked_lines(&self, text: &str) -> (res: String)
        ensures
            res@ == join(filter_lines(lines_of(text@), self@, true), "\n"@),
    {
        self.filter_text(text, true)
    }
}

} // verus!
