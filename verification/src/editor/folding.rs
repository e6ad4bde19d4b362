//! Code folding: brace-delimited regions found in a text, which of them are
//! collapsed, and the mapping between document lines and visible lines.
use vstd::prelude::*;
use crate::bytes::bytes_of;
use crate::editor::indent::indent_of;
use crate::lineset::LineSet;
use crate::text::{
    leading_ws_len, lines_of, push_range, seqs_of, split_lines, string_from_range, trim,
    trimmed_chars,
};

verus! {

/// A foldable region: the line with the opening brace, the line with the
/// closing one, and the byte width of the opening line's indent.
#[derive(Debug, Clone, Copy)]
pub struct FoldRegion {
    pub start_line: usize,
    pub end_line: usize,
    pub indent_level: usize,
}

// ---------------------------------------------------------------------------
// How regions are found
// ---------------------------------------------------------------------------

/// The first position at or after `from` where `//` begins in `t`.
pub open spec fn comment_start(t: Seq<char>, from: int) -> Option<int>
    decreases t.len() - from,
{
    if from < 0 || from + 2 > t.len() {
        None
    } else if t[from] == '/' && t[from + 1] == '/' {
        Some(from)
    } else {
        comment_start(t, from + 1)
    }
}

proof fn lemma_comment_start(t: Seq<char>, from: int)
    requires
        0 <= from,
    ensures
        match comment_start(t, from) {
            Some(p) => from <= p && p + 2 <= t.len(),
            None => true,
        },
    decreases t.len() - from,
{
    if from + 2 <= t.len() && !(t[from] == '/' && t[from + 1] == '/') {
        lemma_comment_start(t, from + 1);
    }
}

/// A trimmed line without a `//` comment, trimmed again.
pub open spec fn code_part(t: Seq<char>) -> Seq<char> {
    match comment_start(t, 0) {
        Some(p) => trim(t.take(p)),
        None => t,
    }
}

/// Whether a line opens a region: its code ends with `{`.
pub open spec fn opens_region(l: Seq<char>) -> bool {
    let c = code_part(trim(l));
    c.len() > 0 && c.last() == '{'
}

/// Whether a line closes a region: trimmed, it begins with `}`.
pub open spec fn closes_region(l: Seq<char>) -> bool {
    let t = trim(l);
    t.len() > 0 && t[0] == '}'
}

/// The byte width of a line's indent.
pub open spec fn indent_width(l: Seq<char>) -> usize {
    bytes_of(indent_of(l)).len() as usize
}

/// Reading the lines in order: the open braces not yet closed (line and
/// indent width), and the regions found, in the order they were closed. A
/// line may open and then close; a close with nothing open is ignored; a
/// region is kept only when it spans more than one line.
pub open spec fn scan(ls: Seq<Seq<char>>) -> (Seq<(usize, usize)>, Seq<FoldRegion>)
    decreases ls.len(),
{
    if ls.len() == 0 {
        (seq![], seq![])
    } else {
        let (st, rs) = scan(ls.drop_last());
        let i = (ls.len() - 1) as usize;
        let l = ls.last();
        let st1 = if opens_region(l) {
            st.push((i, indent_width(l)))
        } else {
            st
        };
        if closes_region(l) && st1.len() > 0 {
            let top = st1.last();
            if i > top.0 {
                (
                    st1.drop_last(),
                    rs.push(FoldRegion { start_line: top.0, end_line: i, indent_level: top.1 }),
                )
            } else {
                (st1.drop_last(), rs)
            }
        } else {
            (st1, rs)
        }
    }
}

/// `rs` with `r` placed after every region that starts no later than it.
pub open spec fn insert_region(rs: Seq<FoldRegion>, r: FoldRegion) -> Seq<FoldRegion>
    decreases rs.len(),
{
    if rs.len() == 0 {
        seq![r]
    } else if r.start_line < rs[0].start_line {
        seq![r] + rs
    } else {
        seq![rs[0]] + insert_region(rs.drop_first(), r)
    }
}

/// The regions stably sorted by start line.
pub open spec fn sort_regions(rs: Seq<FoldRegion>) -> Seq<FoldRegion>
    decreases rs.len(),
{
    if rs.len() == 0 {
        seq![]
    } else {
        insert_region(sort_regions(rs.drop_last()), rs.last())
    }
}

/// The regions of a text, sorted by start line.
pub open spec fn regions_of(text: Seq<char>) -> Seq<FoldRegion> {
    sort_regions(scan(lines_of(text)).1)
}

/// Whether some region starts at `line`.
pub open spec fn starts_at(rs: Seq<FoldRegion>, line: usize) -> bool {
    exists|k: int| 0 <= k < rs.len() && (#[trigger] rs[k]).start_line == line
}

/// The folded lines after toggling `line`: unchanged where no region
/// starts, else with `line` removed or added.
pub open spec fn fold_toggled(rs: Seq<FoldRegion>, folded: Set<usize>, line: usize) -> Set<usize> {
    if !starts_at(rs, line) {
        folded
    } else if folded.contains(line) {
        folded.remove(line)
    } else {
        folded.insert(line)
    }
}

/// Toggling the fold at the same line twice leaves the folds as they were.
pub proof fn law_fold_toggle_twice(rs: Seq<FoldRegion>, folded: Set<usize>, line: usize)
    ensures
        fold_toggled(rs, fold_toggled(rs, folded, line), line) == folded,
{
    if starts_at(rs, line) {
        if folded.contains(line) {
            assert(folded.remove(line).insert(line) =~= folded);
        } else {
            assert(folded.insert(line).remove(line) =~= folded);
        }
    }
}

/// Sorting puts the regions in order of start line.
pub proof fn law_regions_sorted(rs: Seq<FoldRegion>)
    ensures
        forall|i: int, j: int|
            0 <= i < j < sort_regions(rs).len() ==> (#[trigger] sort_regions(rs)[i]).start_line
                <= (#[trigger] sort_regions(rs)[j]).start_line,
        sort_regions(rs).len() == rs.len(),
    decreases rs.len(),
{
    if rs.len() > 0 {
        law_regions_sorted(rs.drop_last());
        lemma_insert_region_sorted(sort_regions(rs.drop_last()), rs.last());
    }
}

proof fn lemma_insert_region_sorted(rs: Seq<FoldRegion>, r: FoldRegion)
    requires
        forall|i: int, j: int|
            0 <= i < j < rs.len() ==> (#[trigger] rs[i]).start_line <= (#[trigger] rs[j]).start_line,
    ensures
        insert_region(rs, r).len() == rs.len() + 1,
        forall|i: int, j: int|
            0 <= i < j < insert_region(rs, r).len() ==> (#[trigger] insert_region(rs, r)[i]).start_line
                <= (#[trigger] insert_region(rs, r)[j]).start_line,
        forall|i: int|
            0 <= i < insert_region(rs, r).len() ==> (#[trigger] insert_region(rs, r)[i] == r
                || rs.contains(insert_region(rs, r)[i])),
    decreases rs.len(),
{
    if rs.len() == 0 {
    } else if r.start_line < rs[0].start_line {
        let out = seq![r] + rs;
        assert forall|i: int| 0 <= i < out.len() implies (#[trigger] out[i] == r || rs.contains(
            out[i],
        )) by {
            if i > 0 {
                assert(out[i] == rs[i - 1]);
            }
        }
    } else {
        let t = rs.drop_first();
        assert forall|i: int, j: int| 0 <= i < j < t.len() implies (#[trigger] t[i]).start_line
            <= (#[trigger] t[j]).start_line by {
            assert(t[i] == rs[i + 1]);
            assert(t[j] == rs[j + 1]);
        }
        lemma_insert_region_sorted(t, r);
        let ins = insert_region(t, r);
        let out = seq![rs[0]] + ins;
        assert forall|i: int| 0 <= i < ins.len() implies rs[0].start_line <= (#[trigger] ins[i]).start_line by {
            if ins[i] != r {
                let k = choose|k: int| 0 <= k < t.len() && t[k] == ins[i];
                assert(t[k] == rs[k + 1]);
            }
        }
        assert forall|i: int, j: int| 0 <= i < j < out.len() implies (#[trigger] out[i]).start_line
            <= (#[trigger] out[j]).start_line by {
            if i == 0 {
                assert(out[j] == ins[j - 1]);
            } else {
                assert(out[i] == ins[i - 1]);
                assert(out[j] == ins[j - 1]);
            }
        }
        assert forall|i: int| 0 <= i < out.len() implies (#[trigger] out[i] == r || rs.contains(
            out[i],
        )) by {
            if i == 0 {
                assert(rs[0] == out[0]);
            } else {
                assert(out[i] == ins[i - 1]);
                if ins[i - 1] != r {
                    let k = choose|k: int| 0 <= k < t.len() && t[k] == ins[i - 1];
                    assert(rs[k + 1] == t[k]);
                }
            }
        }
    }
}

/// Whether `line` lies inside a folded region, below its first line.
pub open spec fn hidden_in(rs: Seq<FoldRegion>, folded: Set<usize>, line: usize) -> bool {
    exists|k: int|
        0 <= k < rs.len() && folded.contains((#[trigger] rs[k]).start_line) && rs[k].start_line
            < line <= rs[k].end_line
}

/// The number of lines before `n` that are not hidden.
pub open spec fn visible_before(rs: Seq<FoldRegion>, folded: Set<usize>, n: int) -> nat
    decreases n,
{
    if n <= 0 {
        0
    } else if hidden_in(rs, folded, (n - 1) as usize) {
        visible_before(rs, folded, n - 1)
    } else {
        visible_before(rs, folded, n - 1) + 1
    }
}

proof fn lemma_insert_region_at(rs: Seq<FoldRegion>, r: FoldRegion, p: int)
    requires
        0 <= p <= rs.len(),
        forall|j: int| 0 <= j < p ==> (#[trigger] rs[j]).start_line <= r.start_line,
        p < rs.len() ==> r.start_line < rs[p].start_line,
    ensures
        insert_region(rs, r) == rs.take(p).push(r) + rs.skip(p),
    decreases rs.len(),
{
    if rs.len() == 0 {
        assert(rs.take(p).push(r) + rs.skip(p) == seq![r]);
    } else if p == 0 {
        assert(rs.take(0).push(r) + rs.skip(0) == seq![r] + rs);
    } else {
        let t = rs.drop_first();
        assert forall|j: int| 0 <= j < p - 1 implies (#[trigger] t[j]).start_line
            <= r.start_line by {
            assert(t[j] == rs[j + 1]);
        }
        assert(rs[0].start_line <= r.start_line);
        if p - 1 < t.len() {
            assert(t[p - 1] == rs[p]);
        }
        lemma_insert_region_at(t, r, p - 1);
        assert(seq![rs[0]] + (t.take(p - 1).push(r) + t.skip(p - 1)) == rs.take(p).push(r)
            + rs.skip(p));
    }
}

/// A stable sort of regions by start line.
fn sorted_regions(found: &Vec<FoldRegion>) -> (res: Vec<FoldRegion>)
    ensures
        res@ == sort_regions(found@),
{
    let mut out: Vec<FoldRegion> = Vec::new();
    let mut i: usize = 0;
    while i < found.len()
        invariant
            i <= found@.len(),
            out@ == sort_regions(found@.take(i as int)),
        decreases found.len() - i,
    {
        let r = found[i];
        let mut p: usize = 0;
        while p < out.len() && out[p].start_line <= r.start_line
            invariant
                p <= out@.len(),
                forall|j: int| 0 <= j < p ==> (#[trigger] out@[j]).start_line <= r.start_line,
            decreases out.len() - p,
        {
            p += 1;
        }
        proof {
            lemma_insert_region_at(out@, r, p as int);
            assert(found@.take(i as int + 1).drop_last() == found@.take(i as int));
        }
        out.insert(p, r);
        proof {
            assert(out@ == sort_regions(found@.take(i as int + 1)));
        }
        i += 1;
    }
    proof {
        assert(found@.take(found@.len() as int) == found@);
    }
    out
}

/// Where `//` first begins in `t`, if anywhere.
fn find_comment(t: &[char]) -> (res: Option<usize>)
    ensures
        match comment_start(t@, 0) {
            Some(p) => res == Some(p as usize),
            None => res is None,
        },
{
    let n = t.len();
    let mut k: usize = 0;
    proof {
        lemma_comment_start(t@, 0);
    }
    while k < n && n - k > 1
        invariant
            n == t@.len(),
            k <= n,
            comment_start(t@, 0) == comment_start(t@, k as int),
        decreases n - k,
    {
        if t[k] == '/' && t[k + 1] == '/' {
            return Some(k);
        }
        k += 1;
    }
    None
}

/// What one line contributes: whether it opens a region, whether it closes
/// one, and the byte width of its indent.
fn classify_line(l: &[char]) -> (res: (bool, bool, usize))
    ensures
        res.0 == opens_region(l@),
        res.1 == closes_region(l@),
        res.2 == indent_width(l@),
{
    let t = trimmed_chars(l);
    proof {
        lemma_comment_start(t@, 0);
    }
    let code: Vec<char> = match find_comment(t.as_slice()) {
        Some(p) => {
            let mut head: Vec<char> = Vec::new();
            push_range(&mut head, t.as_slice(), 0, p);
            proof {
                assert(head@ == t@.take(p as int));
            }
            trimmed_chars(head.as_slice())
        },
        None => t.clone(),
    };
    let cn = code.len();
    let opens = cn > 0 && code[cn - 1] == '{';
    let closes = t.len() > 0 && t[0] == '}';
    let n = leading_ws_len(l);
    let ind = string_from_range(l, 0, n);
    proof {
        assert(l@.subrange(0, n as int) == indent_of(l@));
    }
    let width = ind.as_str().as_bytes().len();
    (opens, closes, width)
}

// ---------------------------------------------------------------------------
// The fold manager
// ---------------------------------------------------------------------------

/// The regions of the current text and the start lines of the collapsed
/// ones.
#[derive(Debug)]
pub struct FoldManager {
    folded: LineSet,
    regions: Vec<FoldRegion>,
}

impl Default for FoldManager {
    fn default() -> (res: Self)
        ensures
            res.folded() == Set::<usize>::empty(),
            res.regions_seq() == Seq::<FoldRegion>::empty(),
    {
        FoldManager::new()
    }
}

impl FoldManager {
    #[verifier::type_invariant]
    spec fn inv(self) -> bool {
        &&& self.folded.wf()
        &&& forall|k: int|
            0 <= k < self.regions@.len() ==> (#[trigger] self.regions@[k]).start_line
                < self.regions@[k].end_line
    }

    /// The start lines of the collapsed regions.
    pub closed spec fn folded(self) -> Set<usize> {
        self.folded@
    }

    /// The regions, sorted by start line.
    pub closed spec fn regions_seq(self) -> Seq<FoldRegion> {
        self.regions@
    }

    /// Whether `line` is hidden inside a collapsed region.
    pub open spec fn hides(self, line: usize) -> bool {
        hidden_in(self.regions_seq(), self.folded(), line)
    }

    /// No regions and nothing folded.
    pub fn new() -> (res: Self)
        ensures
            res.folded() == Set::<usize>::empty(),
            res.regions_seq() == Seq::<FoldRegion>::empty(),
    {
        FoldManager { folded: LineSet::new(), regions: Vec::new() }
    }

    /// Finds the brace-delimited regions of `text` (see `scan`), sorted by
    /// start line, and unfolds every line that no longer starts a region.
    pub fn detect_regions(&mut self, text: &str)
        ensures
            final(self).regions_seq() == regions_of(text@),
            final(self).folded() == old(self).folded().filter(
                |x: usize| starts_at(regions_of(text@), x),
            ),
    {
        proof {
            use_type_invariant(&*self);
        }
        let lines = split_lines(text);
        let ghost ls = lines_of(text@);
        let mut stack: Vec<(usize, usize)> = Vec::new();
        let mut found: Vec<FoldRegion> = Vec::new();
        let mut i: usize = 0;
        while i < lines.len()
            invariant
                i <= lines@.len(),
                seqs_of(lines@) == ls,
                (stack@, found@) == scan(ls.take(i as int)),
                forall|k: int| 0 <= k < found@.len() ==> (#[trigger] found@[k]).start_line
                    < found@[k].end_line,
            decreases lines.len() - i,
        {
            proof {
                assert(ls.take(i as int + 1).drop_last() == ls.take(i as int));
                assert(ls.take(i as int + 1).last() == lines@[i as int]@);
            }
            let (opens, closes, width) = classify_line(lines[i].as_slice());
            if opens {
                stack.push((i, width));
            }
            if closes && stack.len() > 0 {
                let top = stack.pop().unwrap();
                if i > top.0 {
                    found.push(FoldRegion { start_line: top.0, end_line: i, indent_level: top.1 });
                }
            }
            i += 1;
        }
        proof {
            assert(ls.take(lines@.len() as int) == ls);
        }
        let regions = sorted_regions(&found);
        proof {
            assert forall|k: int| 0 <= k < regions@.len() implies (#[trigger] regions@[k]).start_line
                < regions@[k].end_line by {
                lemma_sort_keeps(found@, regions@[k]);
            }
        }
        let mut kept = LineSet::new();
        let n = self.folded.len();
        let mut j: usize = 0;
        proof {
            self.folded.lemma_seq();
        }
        while j < n
            invariant
                j <= n,
                n == self.folded.seq().len(),
                self.folded.wf(),
                kept.wf(),
                regions@ == regions_of(text@),
                forall|x: usize|
                    kept@.contains(x) <==> (exists|k: int|
                        0 <= k < j && #[trigger] self.folded.seq()[k] == x && starts_at(
                            regions@,
                            x,
                        )),
            decreases n - j,
        {
            let x = self.folded.get(j);
            if Self::starts_in(&regions, x) {
                kept.insert(x);
            }
            proof {
                assert forall|y: usize|
                    kept@.contains(y) <==> (exists|k: int|
                        0 <= k < j + 1 && #[trigger] self.folded.seq()[k] == y && starts_at(
                            regions@,
                            y,
                        )) by {
                    if y == x && starts_at(regions@, y) {
                        assert(self.folded.seq()[j as int] == y);
                    }
                }
            }
            j += 1;
        }
        proof {
            self.folded.lemma_seq();
            assert forall|x: usize|
                kept@.contains(x) <==> self.folded@.filter(
                    |x: usize| starts_at(regions_of(text@), x),
                ).contains(x) by {
                if self.folded@.contains(x) {
                    assert(self.folded.seq().to_set().contains(x));
                }
            }
            assert(kept@ =~= self.folded@.filter(|x: usize| starts_at(regions_of(text@), x)));
        }
        self.folded = kept;
        self.regions = regions;
    }

    /// Whether some region of `rs` starts at `line`.
    fn starts_in(rs: &Vec<FoldRegion>, line: usize) -> (res: bool)
        ensures
            res == starts_at(rs@, line),
    {
        let mut k: usize = 0;
        while k < rs.len()
            invariant
                k <= rs@.len(),
                forall|j: int| 0 <= j < k ==> (#[trigger] rs@[j]).start_line != line,
            decreases rs.len() - k,
        {
            if rs[k].start_line == line {
                return true;
            }
            k += 1;
        }
        false
    }

    /// Collapses the region at `line`, or expands it when it is collapsed;
    /// nothing happens where no region starts.
    pub fn toggle_fold(&mut self, line: usize)
        ensures
            final(self).regions_seq() == old(self).regions_seq(),
            final(self).folded() == fold_toggled(old(self).regions_seq(), old(self).folded(), line),
    {
        proof {
            use_type_invariant(&*self);
        }
        if Self::starts_in(&self.regions, line) {
            let mut f = LineSet::new();
            std::mem::swap(&mut f, &mut self.folded);
            if !f.remove(line) {
                f.insert(line);
            }
            self.folded = f;
        }
    }

    /// Collapses the region at `line`, if one starts there.
    pub fn fold(&mut self, line: usize)
        ensures
            final(self).regions_seq() == old(self).regions_seq(),
            final(self).folded() == if starts_at(old(self).regions_seq(), line) {
                old(self).folded().insert(line)
            } else {
                old(self).folded()
            },
    {
        proof {
            use_type_invariant(&*self);
        }
        if Self::starts_in(&self.regions, line) {
            let mut f = LineSet::new();
            std::mem::swap(&mut f, &mut self.folded);
            f.insert(line);
            self.folded = f;
        }
    }

    /// Expands the region at `line`.
    pub fn unfold(&mut self, line: usize)
        ensures
            final(self).regions_seq() == old(self).regions_seq(),
            final(self).folded() == old(self).folded().remove(line),
    {
        proof {
            use_type_invariant(&*self);
        }
        let mut f = LineSet::new();
        std::mem::swap(&mut f, &mut self.folded);
        f.remove(line);
        self.folded = f;
    }

    /// Collapses the regions whose indent width is at most `level`, or every
    /// region when `all` holds.
    fn fold_where(&mut self, level: usize, all: bool)
        ensures
            final(self).regions_seq() == old(self).regions_seq(),
            forall|x: usize|
                #[trigger] final(self).folded().contains(x) <==> (old(self).folded().contains(x)
                    || exists|k: int|
                    0 <= k < old(self).regions_seq().len() && (#[trigger] old(
                        self,
                    ).regions_seq()[k]).start_line == x && (all || old(self).regions_seq()[k].indent_level
                        <= level)),
    {
        proof {
            use_type_invariant(&*self);
        }
        let mut f = LineSet::new();
        std::mem::swap(&mut f, &mut self.folded);
        let ghost start = f@;
        let mut k: usize = 0;
        while k < self.regions.len()
            invariant
                k <= self.regions@.len(),
                f.wf(),
                forall|x: usize|
                    #[trigger] f@.contains(x) <==> (start.contains(x) || exists|j: int|
                        0 <= j < k && (#[trigger] self.regions@[j]).start_line == x && (all
                            || self.regions@[j].indent_level <= level)),
            decreases self.regions.len() - k,
        {
            let r = self.regions[k];
            if all || r.indent_level <= level {
                f.insert(r.start_line);
            }
            proof {
                assert forall|x: usize|
                    #[trigger] f@.contains(x) <==> (start.contains(x) || exists|j: int|
                        0 <= j < k + 1 && (#[trigger] self.regions@[j]).start_line == x && (all
                            || self.regions@[j].indent_level <= level)) by {
                    if x == r.start_line && (all || r.indent_level <= level) {
                        assert(self.regions@[k as int].start_line == x);
                    }
                }
            }
            k += 1;
        }
        self.folded = f;
    }

    /// Collapses every region.
    pub fn fold_all(&mut self)
        ensures
            final(self).regions_seq() == old(self).regions_seq(),
            forall|x: usize|
                #[trigger] final(self).folded().contains(x) <==> (old(self).folded().contains(x)
                    || starts_at(old(self).regions_seq(), x)),
    {
        self.fold_where(0, true);
    }

    /// Expands every region.
    pub fn unfold_all(&mut self)
        ensures
            final(self).regions_seq() == old(self).regions_seq(),
            final(self).folded() == Set::<usize>::empty(),
    {
        proof {
            use_type_invariant(&*self);
        }
        let mut f = LineSet::new();
        std::mem::swap(&mut f, &mut self.folded);
        f.clear();
        self.folded = f;
    }

    /// Collapses every region whose indent width is at most `level`.
    pub fn fold_level(&mut self, level: usize)
        ensures
            final(self).regions_seq() == old(self).regions_seq(),
            forall|x: usize|
                #[trigger] final(self).folded().contains(x) <==> (old(self).folded().contains(x)
                    || exists|k: int|
                    0 <= k < old(self).regions_seq().len() && (#[trigger] old(
                        self,
                    ).regions_seq()[k]).start_line == x && old(self).regions_seq()[k].indent_level
                        <= level),
    {
        self.fold_where(level, false);
    }

    /// Whether the region at `line` is collapsed.
    pub fn is_folded(&self, line: usize) -> (res: bool)
        ensures
            res == self.folded().contains(line),
    {
        proof {
            use_type_invariant(self);
        }
        self.folded.contains(line)
    }

    /// Whether a region starts at `line`.
    pub fn is_fold_point(&self, line: usize) -> (res: bool)
        ensures
            res == starts_at(self.regions_seq(), line),
    {
        Self::starts_in(&self.regions, line)
    }

    /// Whether `line` is hidden inside a collapsed region.
    pub fn is_hidden(&self, line: usize) -> (res: bool)
        ensures
            res == self.hides(line),
    {
        proof {
            use_type_invariant(self);
        }
        let mut k: usize = 0;
        while k < self.regions.len()
            invariant
                k <= self.regions@.len(),
                self.folded.wf(),
                forall|j: int|
                    0 <= j < k ==> !(self.folded@.contains((#[trigger] self.regions@[j]).start_line)
                        && self.regions@[j].start_line < line <= self.regions@[j].end_line),
            decreases self.regions.len() - k,
        {
            let r = self.regions[k];
            if self.folded.contains(r.start_line) && line > r.start_line && line <= r.end_line {
                assert(self.folded@.contains(self.regions@[k as int].start_line));
                return true;
            }
            k += 1;
        }
        false
    }

    /// The first region that starts at `line`.
    pub fn get_region(&self, line: usize) -> (res: Option<&FoldRegion>)
        ensures
            match res {
                Some(r) => exists|k: int|
                    0 <= k < self.regions_seq().len() && self.regions_seq()[k] == *r && r.start_line
                        == line && forall|j: int|
                        0 <= j < k ==> (#[trigger] self.regions_seq()[j]).start_line != line,
                None => !starts_at(self.regions_seq(), line),
            },
    {
        let mut k: usize = 0;
        while k < self.regions.len()
            invariant
                k <= self.regions@.len(),
                forall|j: int| 0 <= j < k ==> (#[trigger] self.regions@[j]).start_line != line,
            decreases self.regions.len() - k,
        {
            if self.regions[k].start_line == line {
                let r = &self.regions[k];
                assert(self.regions_seq()[k as int] == *r);
                return Some(r);
            }
            k += 1;
        }
        None
    }

    /// The regions, sorted by start line.
    pub fn regions(&self) -> (res: &[FoldRegion])
        ensures
            res@ == self.regions_seq(),
    {
        self.regions.as_slice()
    }

    /// How many lines the region at `line` hides: its span when it is
    /// collapsed, else 0.
    pub fn hidden_line_count(&self, line: usize) -> (res: usize)
        ensures
            self.folded().contains(line) && starts_at(self.regions_seq(), line) ==> exists|k: int|
                0 <= k < self.regions_seq().len() && (#[trigger] self.regions_seq()[k]).start_line
                    == line && res == self.regions_seq()[k].end_line - line && forall|j: int|
                    0 <= j < k ==> (#[trigger] self.regions_seq()[j]).start_line != line,
            !(self.folded().contains(line) && starts_at(self.regions_seq(), line)) ==> res == 0,
    {
        proof {
            use_type_invariant(self);
        }
        match self.get_region(line) {
            Some(region) => {
                if self.folded.contains(line) {
                    return region.end_line - region.start_line;
                }
                0
            },
            None => 0,
        }
    }

    /// The document line shown as visible line `visible_line`; past the last
    /// visible line, the last document line (0 for an empty document).
    pub fn visible_to_doc_line(&self, visible_line: usize, total_lines: usize) -> (res: usize)
        ensures
            (exists|d: usize|
                d < total_lines && !self.hides(d) && visible_before(
                    self.regions_seq(),
                    self.folded(),
                    d as int,
                ) == visible_line) ==> (res < total_lines && !self.hides(res) && visible_before(
                self.regions_seq(),
                self.folded(),
                res as int,
            ) == visible_line),
            !(exists|d: usize|
                d < total_lines && !self.hides(d) && visible_before(
                    self.regions_seq(),
                    self.folded(),
                    d as int,
                ) == visible_line) ==> res == if total_lines > 0 {
                (total_lines - 1) as usize
            } else {
                0usize
            },
    {
        let ghost rs = self.regions_seq();
        let ghost fs = self.folded();
        let mut vis: usize = 0;
        let mut doc: usize = 0;
        while doc < total_lines
            invariant
                doc <= total_lines,
                vis == visible_before(rs, fs, doc as int),
                vis <= visible_line,
                rs == self.regions_seq(),
                fs == self.folded(),
                forall|d: usize|
                    d < doc && !self.hides(d) ==> #[trigger] visible_before(rs, fs, d as int)
                        != visible_line,
            decreases total_lines - doc,
        {
            if self.is_hidden(doc) {
                doc += 1;
                continue;
            }
            if vis == visible_line {
                return doc;
            }
            vis += 1;
            doc += 1;
        }
        if total_lines > 0 {
            total_lines - 1
        } else {
            0
        }
    }

    /// The visible line on which document line `doc_line` is shown (for a
    /// hidden line, the number of visible lines above it).
    pub fn doc_to_visible_line(&self, doc_line: usize) -> (res: usize)
        ensures
            res == visible_before(self.regions_seq(), self.folded(), doc_line as int),
    {
        self.count_visible(doc_line)
    }

    /// The number of visible lines in a document of `total_lines` lines.
    pub fn visible_line_count(&self, total_lines: usize) -> (res: usize)
        ensures
            res == visible_before(self.regions_seq(), self.folded(), total_lines as int),
    {
        self.count_visible(total_lines)
    }

    fn count_visible(&self, n: usize) -> (res: usize)
        ensures
            res == visible_before(self.regions_seq(), self.folded(), n as int),
    {
        let mut vis: usize = 0;
        let mut line: usize = 0;
        while line < n
            invariant
                line <= n,
                vis == visible_before(self.regions_seq(), self.folded(), line as int),
                vis <= line,
            decreases n - line,
        {
            if !self.is_hidden(line) {
                vis += 1;
            }
            line += 1;
        }
        vis
    }

    /// Drops every region and every fold.
    pub fn clear(&mut self)
        ensures
            final(self).folded() == Set::<usize>::empty(),
            final(self).regions_seq() == Seq::<FoldRegion>::empty(),
    {
        proof {
            use_type_invariant(&*self);
        }
        self.folded = LineSet::new();
        self.regions = Vec::new();
    }
}

/// Sorting keeps every region it is given.
proof fn lemma_sort_keeps(rs: Seq<FoldRegion>, r: FoldRegion)
    requires
        sort_regions(rs).contains(r),
    ensures
        rs.contains(r),
    decreases rs.len(),
{
    if rs.len() > 0 {
        lemma_insert_keeps(sort_regions(rs.drop_last()), rs.last(), r);
        if r != rs.last() {
            lemma_sort_keeps(rs.drop_last(), r);
            let k = choose|k: int| 0 <= k < rs.drop_last().len() && rs.drop_last()[k] == r;
            assert(rs[k] == r);
        } else {
            assert(rs[rs.len() - 1] == r);
        }
    }
}

proof fn lemma_insert_keeps(rs: Seq<FoldRegion>, x: FoldRegion, r: FoldRegion)
    requires
        insert_region(rs, x).contains(r),
    ensures
        r == x || rs.contains(r),
    decreases rs.len(),
{
    if rs.len() == 0 {
        assert(insert_region(rs, x)[0] == r);
    } else if x.start_line < rs[0].start_line {
        let k = choose|k: int| 0 <= k < (seq![x] + rs).len() && (seq![x] + rs)[k] == r;
        if k > 0 {
            assert(rs[k - 1] == r);
        }
    } else {
        let s = seq![rs[0]] + insert_region(rs.drop_first(), x);
        let k = choose|k: int| 0 <= k < s.len() && s[k] == r;
        if k == 0 {
            assert(rs[0] == r);
        } else {
            assert(insert_region(rs.drop_first(), x)[k - 1] == r);
            lemma_insert_keeps(rs.drop_first(), x, r);
            if r != x {
                let j = choose|j: int| 0 <= j < rs.drop_first().len() && rs.drop_first()[j] == r;
                assert(rs[j + 1] == r);
            }
        }
    }
}

/// Counting visible lines up to a later line counts at least one more for
/// every visible line passed.
proof fn lemma_visible_grows(rs: Seq<FoldRegion>, folded: Set<usize>, a: int, b: int)
    requires
        0 <= a < b,
        a <= usize::MAX,
        !hidden_in(rs, folded, a as usize),
    ensures
        visible_before(rs, folded, b) >= visible_before(rs, folded, a) + 1,
    decreases b - a,
{
    if b > a + 1 {
        lemma_visible_grows(rs, folded, a, b - 1);
    }
}

/// Going from a shown document line to its visible line and back gives the
/// same document line.
pub proof fn law_visible_round_trip(rs: Seq<FoldRegion>, folded: Set<usize>, d: usize, res: usize)
    requires
        !hidden_in(rs, folded, d),
        !hidden_in(rs, folded, res),
        visible_before(rs, folded, res as int) == visible_before(rs, folded, d as int),
    ensures
        res == d,
{
    if res < d {
        lemma_visible_grows(rs, folded, res as int, d as int);
    } else if res > d {
        lemma_visible_grows(rs, folded, d as int, res as int);
    }
}

} // verus!
