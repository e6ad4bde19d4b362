//! Line-by-line comparison of two texts through a longest common
//! subsequence.
use vstd::prelude::*;
use crate::text::{chars_eq, lines_of, seqs_of, split_lines, string_from_chars};

verus! {

/// One line of a comparison.
#[derive(Debug)]
pub enum DiffLine {
    Same(String),
    Added(String),
    Removed(String),
    Changed { old: String, new: String },
}

/// A line of a comparison, by the characters it holds.
pub enum DiffEntry {
    Same(Seq<char>),
    Added(Seq<char>),
    Removed(Seq<char>),
    Changed(Seq<char>, Seq<char>),
}

impl View for DiffLine {
    type V = DiffEntry;

    open spec fn view(&self) -> DiffEntry {
        match self {
            DiffLine::Same(s) => DiffEntry::Same(s@),
            DiffLine::Added(s) => DiffEntry::Added(s@),
            DiffLine::Removed(s) => DiffEntry::Removed(s@),
            DiffLine::Changed { old, new } => DiffEntry::Changed(old@, new@),
        }
    }
}

impl Clone for DiffLine {
    fn clone(&self) -> (res: Self)
        ensures
            res@ == self@,
    {
        match self {
            DiffLine::Same(s) => DiffLine::Same(s.clone()),
            DiffLine::Added(s) => DiffLine::Added(s.clone()),
            DiffLine::Removed(s) => DiffLine::Removed(s.clone()),
            DiffLine::Changed { old, new } => DiffLine::Changed { old: old.clone(), new: new.clone() },
        }
    }
}

/// How many lines of each kind a comparison has.
#[derive(Debug, Clone, Copy, PartialEq, Eq, Structural)]
pub struct DiffStats {
    pub added: usize,
    pub removed: usize,
    pub changed: usize,
    pub same: usize,
}

/// The lines of a comparison and their counts.
#[derive(Debug)]
pub struct DiffResult {
    pub lines: Vec<DiffLine>,
    pub stats: DiffStats,
}

/// The views of a sequence of diff lines.
pub open spec fn entries_of(v: Seq<DiffLine>) -> Seq<DiffEntry> {
    v.map_values(|d: DiffLine| d@)
}

/// The length of a longest common subsequence of `l[..i]` and `r[..j]`.
pub open spec fn lcs(l: Seq<Seq<char>>, r: Seq<Seq<char>>, i: int, j: int) -> nat
    decreases i + j,
{
    if i <= 0 || j <= 0 {
        0
    } else if l[i - 1] == r[j - 1] {
        lcs(l, r, i - 1, j - 1) + 1
    } else {
        let a = lcs(l, r, i - 1, j);
        let b = lcs(l, r, i, j - 1);
        if a >= b {
            a
        } else {
            b
        }
    }
}

/// `i`, or 0 when it is negative.
pub open spec fn nonneg(i: int) -> int {
    if i > 0 {
        i
    } else {
        0
    }
}

/// The comparison of `l[..i]` with `r[..j]` read back from the table of
/// `lcs`, from the ends: equal last lines are the same; else the last line
/// of `r` is added when that keeps at least as long a common subsequence,
/// and otherwise the last line of `l` is removed.
pub open spec fn trace(l: Seq<Seq<char>>, r: Seq<Seq<char>>, i: int, j: int) -> Seq<DiffEntry>
    decreases nonneg(i) + nonneg(j),
{
    if i <= 0 && j <= 0 {
        seq![]
    } else if i > 0 && j > 0 && l[i - 1] == r[j - 1] {
        trace(l, r, i - 1, j - 1).push(DiffEntry::Same(l[i - 1]))
    } else if j > 0 && (i <= 0 || lcs(l, r, i, j - 1) >= lcs(l, r, i - 1, j)) {
        trace(l, r, i, j - 1).push(DiffEntry::Added(r[j - 1]))
    } else {
        trace(l, r, i - 1, j).push(DiffEntry::Removed(l[i - 1]))
    }
}

/// Every removed line directly followed by an added line becomes one
/// changed line, read from the left.
pub open spec fn merge_changes(t: Seq<DiffEntry>) -> Seq<DiffEntry>
    decreases t.len(),
{
    if t.len() == 0 {
        seq![]
    } else if t.len() > 1 && t[0] is Removed && t[1] is Added {
        seq![DiffEntry::Changed(t[0]->Removed_0, t[1]->Added_0)] + merge_changes(t.skip(2))
    } else {
        seq![t[0]] + merge_changes(t.skip(1))
    }
}

/// The comparison of two texts, line by line.
pub open spec fn diff_of(left: Seq<char>, right: Seq<char>) -> Seq<DiffEntry> {
    let l = lines_of(left);
    let r = lines_of(right);
    merge_changes(trace(l, r, l.len() as int, r.len() as int))
}

/// The number of entries of each kind: added, removed, changed, same.
pub open spec fn kind_counts(t: Seq<DiffEntry>) -> (nat, nat, nat, nat)
    decreases t.len(),
{
    if t.len() == 0 {
        (0, 0, 0, 0)
    } else {
        let (a, r, c, s) = kind_counts(t.drop_last());
        match t.last() {
            DiffEntry::Added(_) => (a + 1, r, c, s),
            DiffEntry::Removed(_) => (a, r + 1, c, s),
            DiffEntry::Changed(_, _) => (a, r, c + 1, s),
            DiffEntry::Same(_) => (a, r, c, s + 1),
        }
    }
}

/// The counts of a comparison are its entries of each kind: added lines
/// count the `Added` entries, removed lines the `Removed` ones, changed
/// lines the `Changed` ones, and unchanged lines the `Same` ones.
pub proof fn law_kind_counts(t: Seq<DiffEntry>)
    ensures
        kind_counts(t).0 == t.filter(|e: DiffEntry| e is Added).len(),
        kind_counts(t).1 == t.filter(|e: DiffEntry| e is Removed).len(),
        kind_counts(t).2 == t.filter(|e: DiffEntry| e is Changed).len(),
        kind_counts(t).3 == t.filter(|e: DiffEntry| e is Same).len(),
    decreases t.len(),
{
    reveal(Seq::filter);
    if t.len() > 0 {
        law_kind_counts(t.drop_last());
    }
}

/// The counts `diff_texts` reports are the number of lines of each kind
/// in the comparison it gives: added lines among them for `added`, removed
/// ones for `removed`, changed ones for `changed`, unchanged ones for
/// `same`.
pub proof fn law_diff_stats_count_lines(left: Seq<char>, right: Seq<char>, res: DiffResult)
    requires
        entries_of(res.lines@) == diff_of(left, right),
        ({
            let (a, r, c, s) = kind_counts(diff_of(left, right));
            res.stats.added == a && res.stats.removed == r && res.stats.changed == c
                && res.stats.same == s
        }),
    ensures
        res.stats.added == entries_of(res.lines@).filter(|e: DiffEntry| e is Added).len(),
        res.stats.removed == entries_of(res.lines@).filter(|e: DiffEntry| e is Removed).len(),
        res.stats.changed == entries_of(res.lines@).filter(|e: DiffEntry| e is Changed).len(),
        res.stats.same == entries_of(res.lines@).filter(|e: DiffEntry| e is Same).len(),
{
    law_kind_counts(diff_of(left, right));
}

proof fn lemma_lcs_bound(l: Seq<Seq<char>>, r: Seq<Seq<char>>, i: int, j: int)
    requires
        0 <= i,
        0 <= j,
    ensures
        lcs(l, r, i, j) <= i,
    decreases i + j,
{
    if i > 0 && j > 0 {
        lemma_lcs_bound(l, r, i - 1, j - 1);
        lemma_lcs_bound(l, r, i - 1, j);
        lemma_lcs_bound(l, r, i, j - 1);
    }
}

fn compute_stats(lines: &Vec<DiffLine>) -> (res: DiffStats)
    ensures
        ({
            let (a, r, c, s) = kind_counts(entries_of(lines@));
            res.added == a && res.removed == r && res.changed == c && res.same == s
        }),
{
    let mut st = DiffStats { added: 0, removed: 0, changed: 0, same: 0 };
    let mut i: usize = 0;
    while i < lines.len()
        invariant
            i <= lines@.len(),
            st.added + st.removed + st.changed + st.same == i,
            ({
                let (a, r, c, s) = kind_counts(entries_of(lines@).take(i as int));
                st.added == a && st.removed == r && st.changed == c && st.same == s
            }),
        decreases lines.len() - i,
    {
        proof {
            assert(entries_of(lines@).take(i as int + 1).drop_last() == entries_of(lines@).take(
                i as int,
            ));
        }
        match &lines[i] {
            DiffLine::Same(_) => st.same = st.same + 1,
            DiffLine::Added(_) => st.added = st.added + 1,
            DiffLine::Removed(_) => st.removed = st.removed + 1,
            DiffLine::Changed { .. } => st.changed = st.changed + 1,
        }
        i += 1;
    }
    proof {
        assert(entries_of(lines@).take(lines@.len() as int) == entries_of(lines@));
    }
    st
}

/// The table of `lcs` for all prefixes of `l` and `r`.
fn lcs_table(l: &Vec<Vec<char>>, r: &Vec<Vec<char>>) -> (dp: Vec<Vec<usize>>)
    ensures
        dp@.len() == l@.len() + 1,
        forall|a: int|
            0 <= a <= l@.len() ==> (#[trigger] dp@[a])@.len() == r@.len() + 1,
        forall|a: int, b: int|
            0 <= a <= l@.len() && 0 <= b <= r@.len() ==> #[trigger] dp@[a]@[b] == lcs(
                seqs_of(l@),
                seqs_of(r@),
                a,
                b,
            ),
{
    let ghost ls = seqs_of(l@);
    let ghost rs = seqs_of(r@);
    let m = l.len();
    let n = r.len();
    let mut dp: Vec<Vec<usize>> = Vec::new();
    let mut first: Vec<usize> = Vec::new();
    first.push(0);
    let mut b: usize = 0;
    while b < n
        invariant
            b <= n,
            n == r@.len(),
            first@.len() == b + 1,
            forall|k: int| 0 <= k <= b ==> first@[k] == 0,
        decreases n - b,
    {
        first.push(0);
        b += 1;
    }
    proof {
        assert forall|k: int| 0 <= k <= n implies first@[k] == lcs(ls, rs, 0, k) by {}
    }
    dp.push(first);
    let mut i0: usize = 0;
    while i0 < m
        invariant
            i0 <= m,
            i0 + 1 == dp@.len(),
            m == l@.len(),
            n == r@.len(),
            ls == seqs_of(l@),
            rs == seqs_of(r@),
            forall|a: int| 0 <= a < dp@.len() ==> (#[trigger] dp@[a])@.len() == n + 1,
            forall|a: int, c: int|
                0 <= a < dp@.len() && 0 <= c <= n ==> #[trigger] dp@[a]@[c] == lcs(ls, rs, a, c),
        decreases m - i0,
    {
        let i = i0 + 1;
        let mut row: Vec<usize> = Vec::new();
        row.push(0);
        let mut j0: usize = 0;
        while j0 < n
            invariant
                1 <= i <= m,
                i == i0 + 1,
                j0 <= n,
                m == l@.len(),
                n == r@.len(),
                ls == seqs_of(l@),
                rs == seqs_of(r@),
                dp@.len() == i,
                forall|a: int| 0 <= a < i ==> (#[trigger] dp@[a])@.len() == n + 1,
                forall|a: int, c: int|
                    0 <= a < i && 0 <= c <= n ==> #[trigger] dp@[a]@[c] == lcs(ls, rs, a, c),
                row@.len() == j0 + 1,
                forall|c: int| 0 <= c <= j0 ==> #[trigger] row@[c] == lcs(ls, rs, i as int, c),
            decreases n - j0,
        {
            let j = j0 + 1;
            proof {
                assert(ls[i - 1] == l@[i - 1]@);
                assert(rs[j - 1] == r@[j - 1]@);
                lemma_lcs_bound(ls, rs, i as int, j as int);
                lemma_lcs_bound(ls, rs, i - 1, j - 1);
            }
            let v = if chars_eq(l[i - 1].as_slice(), r[j - 1].as_slice()) {
                dp[i - 1][j - 1] + 1
            } else {
                let up = dp[i - 1][j];
                let left = row[j - 1];
                if up >= left {
                    up
                } else {
                    left
                }
            };
            row.push(v);
            j0 += 1;
        }
        dp.push(row);
        i0 += 1;
    }
    dp
}

fn line_string(v: &Vec<char>) -> (res: String)
    ensures
        res@ == v@,
{
    string_from_chars(v.as_slice())
}

/// Compares two texts line by line: the lines of a longest common
/// subsequence are the same, the others added or removed (see `trace`), and
/// a removed line directly followed by an added one becomes a changed line.
pub fn diff_texts(left: &str, right: &str) -> (res: DiffResult)
    ensures
        entries_of(res.lines@) == diff_of(left@, right@),
        ({
            let (a, r, c, s) = kind_counts(diff_of(left@, right@));
            res.stats.added == a && res.stats.removed == r && res.stats.changed == c
                && res.stats.same == s
        }),
{
    let l = split_lines(left);
    let r = split_lines(right);
    let ghost ls = seqs_of(l@);
    let ghost rs = seqs_of(r@);
    let dp = lcs_table(&l, &r);
    let mut temp: Vec<DiffLine> = Vec::new();
    let mut i = l.len();
    let mut j = r.len();
    while i > 0 || j > 0
        invariant
            i <= l@.len(),
            j <= r@.len(),
            ls == seqs_of(l@),
            rs == seqs_of(r@),
            dp@.len() == l@.len() + 1,
            forall|a: int| 0 <= a <= l@.len() ==> (#[trigger] dp@[a])@.len() == r@.len() + 1,
            forall|a: int, b: int|
                0 <= a <= l@.len() && 0 <= b <= r@.len() ==> #[trigger] dp@[a]@[b] == lcs(
                    ls,
                    rs,
                    a,
                    b,
                ),
            trace(ls, rs, i as int, j as int) + entries_of(temp@).reverse() == trace(
                ls,
                rs,
                l@.len() as int,
                r@.len() as int,
            ),
        decreases i + j,
    {
        let ghost prev = temp@;
        let ghost before = trace(ls, rs, i as int, j as int);
        if i > 0 && j > 0 && chars_eq(l[i - 1].as_slice(), r[j - 1].as_slice()) {
            proof {
                assert(ls[i - 1] == l@[i - 1]@);
                assert(rs[j - 1] == r@[j - 1]@);
            }
            temp.push(DiffLine::Same(line_string(&l[i - 1])));
            i -= 1;
            j -= 1;
        } else if j > 0 && (i == 0 || dp[i][j - 1] >= dp[i - 1][j]) {
            proof {
                if i > 0 {
                    assert(ls[i - 1] == l@[i - 1]@);
                }
                assert(rs[j - 1] == r@[j - 1]@);
            }
            temp.push(DiffLine::Added(line_string(&r[j - 1])));
            j -= 1;
        } else {
            proof {
                assert(ls[i - 1] == l@[i - 1]@);
                if j > 0 {
                    assert(rs[j - 1] == r@[j - 1]@);
                }
            }
            temp.push(DiffLine::Removed(line_string(&l[i - 1])));
            i -= 1;
        }
        proof {
            let e = temp@.last()@;
            assert(entries_of(temp@) == entries_of(prev).push(e));
            assert(entries_of(temp@).reverse() == seq![e] + entries_of(prev).reverse());
            assert(before == trace(ls, rs, i as int, j as int).push(e));
            assert(trace(ls, rs, i as int, j as int) + entries_of(temp@).reverse() == before
                + entries_of(prev).reverse());
        }
    }
    let ghost full = trace(ls, rs, l@.len() as int, r@.len() as int);
    proof {
        assert(trace(ls, rs, 0, 0) == Seq::<DiffEntry>::empty());
        assert(entries_of(temp@).reverse() == full);
    }
    let mut fwd: Vec<DiffLine> = Vec::new();
    let mut k = temp.len();
    while k > 0
        invariant
            k <= temp@.len(),
            entries_of(temp@).reverse() == full,
            entries_of(fwd@) == full.take(temp@.len() - k),
        decreases k,
    {
        k -= 1;
        let ghost prev = fwd@;
        fwd.push(temp[k].clone());
        proof {
            assert(entries_of(fwd@) == entries_of(prev).push(temp@[k as int]@));
            assert(full[temp@.len() - k - 1] == entries_of(temp@)[k as int]);
            assert(full.take(temp@.len() - k) == full.take(temp@.len() - k - 1).push(
                full[temp@.len() - k - 1],
            ));
        }
    }
    proof {
        assert(full.take(temp@.len() as int) == full);
    }
    let mut lines: Vec<DiffLine> = Vec::new();
    let mut idx: usize = 0;
    let len = fwd.len();
    proof {
        assert(full.skip(0) == full);
    }
    while idx < len
        invariant
            len == fwd@.len(),
            idx <= len,
            entries_of(fwd@) == full,
            entries_of(lines@) + merge_changes(full.skip(idx as int)) == merge_changes(full),
        decreases len - idx,
    {
        let ghost rest = full.skip(idx as int);
        let ghost prev = lines@;
        let mut merged = false;
        if idx + 1 < len {
            match (&fwd[idx], &fwd[idx + 1]) {
                (DiffLine::Removed(old), DiffLine::Added(new)) => {
                    proof {
                        assert(rest[0] == fwd@[idx as int]@);
                        assert(rest[1] == fwd@[idx + 1]@);
                        assert(rest.skip(2) == full.skip(idx + 2));
                    }
                    lines.push(DiffLine::Changed { old: old.clone(), new: new.clone() });
                    proof {
                        assert(entries_of(lines@) == entries_of(prev).push(
                            DiffEntry::Changed(old@, new@),
                        ));
                    }
                    idx += 2;
                    merged = true;
                },
                _ => {},
            }
        }
        if !merged {
            proof {
                assert(rest[0] == fwd@[idx as int]@);
                assert(rest.skip(1) == full.skip(idx + 1));
                if idx + 1 < len {
                    assert(rest[1] == fwd@[idx + 1]@);
                }
            }
            lines.push(fwd[idx].clone());
            proof {
                assert(entries_of(lines@) == entries_of(prev).push(rest[0]));
            }
            idx += 1;
        }
    }
    proof {
        assert(full.skip(len as int) == Seq::<DiffEntry>::empty());
        assert(entries_of(lines@) + Seq::<DiffEntry>::empty() == entries_of(lines@));
    }
    let stats = compute_stats(&lines);
    DiffResult { lines, stats }
}

/// Every line the same.
pub open spec fn all_same(l: Seq<Seq<char>>) -> Seq<DiffEntry> {
    Seq::new(l.len(), |i: int| DiffEntry::Same(l[i]))
}

proof fn lemma_trace_same(l: Seq<Seq<char>>, i: int)
    requires
        0 <= i <= l.len(),
    ensures
        trace(l, l, i, i) == all_same(l.take(i)),
    decreases i,
{
    if i > 0 {
        lemma_trace_same(l, i - 1);
        assert(all_same(l.take(i)) == all_same(l.take(i - 1)).push(DiffEntry::Same(l[i - 1])));
    } else {
        assert(all_same(l.take(0)) == Seq::<DiffEntry>::empty());
    }
}

proof fn lemma_merge_same(t: Seq<DiffEntry>)
    requires
        forall|k: int| 0 <= k < t.len() ==> (#[trigger] t[k]) is Same,
    ensures
        merge_changes(t) == t,
        kind_counts(t) == (0nat, 0nat, 0nat, t.len()),
    decreases t.len(),
{
    if t.len() > 0 {
        lemma_merge_same(t.skip(1));
        assert(seq![t[0]] + t.skip(1) == t);
        lemma_merge_same(t.drop_last());
    }
}

/// A text compared with itself has every line the same and nothing added,
/// removed or changed.
pub proof fn law_diff_identical(text: Seq<char>)
    ensures
        diff_of(text, text) == all_same(lines_of(text)),
        kind_counts(diff_of(text, text)) == (0nat, 0nat, 0nat, lines_of(text).len()),
{
    let l = lines_of(text);
    lemma_trace_same(l, l.len() as int);
    assert(l.take(l.len() as int) == l);
    lemma_merge_same(all_same(l));
}

/// The counts of a comparison add up to its number of lines.
pub proof fn law_counts_total(t: Seq<DiffEntry>)
    ensures
        kind_counts(t).0 + kind_counts(t).1 + kind_counts(t).2 + kind_counts(t).3 == t.len(),
    decreases t.len(),
{
    if t.len() > 0 {
        law_counts_total(t.drop_last());
    }
}

} // verus!
