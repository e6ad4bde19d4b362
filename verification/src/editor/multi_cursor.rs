//! Multi-cursor editing: extra cursors (byte offsets, optionally with a
//! selection) to which every insert and delete is applied.
use vstd::prelude::*;
use crate::bytes::{
    bytes_of, boundary, first_occ, find_bytes, is_boundary, string_insert_str,
    string_replace_range,
};

verus! {

/// A single cursor position within the text buffer.
#[derive(Debug, Clone, Copy, PartialEq, Eq)]
pub struct CursorPosition {
    /// Byte offset into the text.
    pub offset: usize,
    /// Optional selection range (start byte offset, end byte offset).
    pub selection: Option<(usize, usize)>,
}

impl CursorPosition {
    pub fn new(offset: usize) -> (res: Self)
        ensures
            res.offset == offset,
            res.selection is None,
    {
        CursorPosition { offset, selection: None }
    }

    /// A cursor whose selection is `start..end`, ordered so that start <= end.
    pub fn with_selection(offset: usize, start: usize, end: usize) -> (res: Self)
        ensures
            res.offset == offset,
            res.selection == Some(sel_pair(start, end)),
    {
        let (s, e) = if start <= end {
            (start, end)
        } else {
            (end, start)
        };
        CursorPosition { offset, selection: Some((s, e)) }
    }
}

/// The pair `(a, b)` ordered ascending.
pub open spec fn sel_pair(a: usize, b: usize) -> (usize, usize) {
    if a <= b {
        (a, b)
    } else {
        (b, a)
    }
}

/// State for multi-cursor editing.
#[derive(Debug, Clone)]
pub struct MultiCursorState {
    /// Extra cursors beyond the primary one.
    pub extra_cursors: Vec<CursorPosition>,
    /// Whether multi-cursor mode is active.
    pub active: bool,
    /// The text that was last selected by "select next occurrence".
    pub last_selected_text: Option<String>,
}

// ---------------------------------------------------------------------------
// Specification of the editing operations
// ---------------------------------------------------------------------------

/// `s` with `c` placed after every element whose offset is at most `c.offset`
/// (one step of a stable insertion sort).
pub open spec fn insert_by_offset(s: Seq<CursorPosition>, c: CursorPosition) -> Seq<
    CursorPosition,
>
    decreases s.len(),
{
    if s.len() == 0 {
        seq![c]
    } else if s.last().offset <= c.offset {
        s.push(c)
    } else {
        insert_by_offset(s.drop_last(), c).push(s.last())
    }
}

/// The cursors stably sorted by offset (`sort_by_key(|c| c.offset)`).
pub open spec fn sorted_by_offset(s: Seq<CursorPosition>) -> Seq<CursorPosition>
    decreases s.len(),
{
    if s.len() == 0 {
        s
    } else {
        insert_by_offset(sorted_by_offset(s.drop_last()), s.last())
    }
}

/// A byte offset after an edit at `p` that changed the length by `delta`:
/// offsets beyond `p` move by `delta`, not below zero.
pub open spec fn shift(v: usize, p: usize, delta: int) -> usize {
    if v > p {
        if v + delta < 0 {
            0
        } else {
            (v + delta) as usize
        }
    } else {
        v
    }
}

pub open spec fn shift_cursor(c: CursorPosition, p: usize, delta: int) -> CursorPosition {
    CursorPosition {
        offset: shift(c.offset, p, delta),
        selection: match c.selection {
            Some((s, e)) => Some((shift(s, p, delta), shift(e, p, delta))),
            None => None,
        },
    }
}

/// Every cursor but the `i`-th moved after an edit at `p` (length change `delta`).
pub open spec fn adjust(cs: Seq<CursorPosition>, i: int, p: usize, delta: int) -> Seq<
    CursorPosition,
> {
    if delta == 0 {
        cs
    } else {
        Seq::new(cs.len(), |j: int| if j == i { cs[j] } else { shift_cursor(cs[j], p, delta) })
    }
}

pub open spec fn min_len(v: usize, len: int) -> usize {
    if v < len {
        v
    } else {
        len as usize
    }
}

/// Replacing `b[a..z]` with `ins`.
pub open spec fn splice(b: Seq<u8>, a: int, z: int, ins: Seq<u8>) -> Seq<u8> {
    b.take(a) + ins + b.skip(z)
}

/// The edit that inserting `ins` makes at cursor `i`.
pub open spec fn insert_step(b: Seq<u8>, cs: Seq<CursorPosition>, i: int, ins: Seq<u8>) -> (
    Seq<u8>,
    Seq<CursorPosition>,
) {
    let c = cs[i];
    match c.selection {
        Some((s, e)) => {
            let a = min_len(s, b.len() as int);
            let z = min_len(e, b.len() as int);
            let cs2 = cs.update(
                i,
                CursorPosition { offset: (a + ins.len()) as usize, selection: None },
            );
            (splice(b, a as int, z as int, ins), adjust(cs2, i, a, ins.len() - (z - a)))
        },
        None => {
            let p = min_len(c.offset, b.len() as int);
            let cs2 = cs.update(i, CursorPosition { offset: (p + ins.len()) as usize, ..c });
            (splice(b, p as int, p as int, ins), adjust(cs2, i, p, ins.len() as int))
        },
    }
}

/// Whether that edit stays on character boundaries (else `String` panics).
pub open spec fn insert_step_ok(b: Seq<u8>, cs: Seq<CursorPosition>, i: int) -> bool {
    let c = cs[i];
    match c.selection {
        Some((s, e)) => {
            let a = min_len(s, b.len() as int);
            let z = min_len(e, b.len() as int);
            a <= z && boundary(b, a as int) && boundary(b, z as int)
        },
        None => boundary(b, min_len(c.offset, b.len() as int) as int),
    }
}

/// The edits at cursors `n-1, n-2, ..., 0`, in that order.
pub open spec fn insert_run(b: Seq<u8>, cs: Seq<CursorPosition>, ins: Seq<u8>, n: int) -> (
    Seq<u8>,
    Seq<CursorPosition>,
)
    decreases n,
{
    if n <= 0 {
        (b, cs)
    } else {
        let (b1, cs1) = insert_step(b, cs, n - 1, ins);
        insert_run(b1, cs1, ins, n - 1)
    }
}

pub open spec fn insert_run_ok(b: Seq<u8>, cs: Seq<CursorPosition>, ins: Seq<u8>, n: int) -> bool
    decreases n,
{
    if n <= 0 {
        true
    } else {
        let (b1, cs1) = insert_step(b, cs, n - 1, ins);
        insert_step_ok(b, cs, n - 1) && insert_run_ok(b1, cs1, ins, n - 1)
    }
}

/// The largest byte index at or below `j` that is a character boundary (or 0).
pub open spec fn prev_boundary(b: Seq<u8>, j: int) -> int
    decreases j,
{
    if j <= 0 || boundary(b, j) {
        j
    } else {
        prev_boundary(b, j - 1)
    }
}

/// The smallest byte index at or above `j` that is a character boundary (or the end).
pub open spec fn next_boundary(b: Seq<u8>, j: int) -> int
    decreases b.len() - j,
{
    if j >= b.len() || boundary(b, j) {
        j
    } else {
        next_boundary(b, j + 1)
    }
}

/// The byte index `count` characters before `pos` (stopping at 0).
pub open spec fn back_n(b: Seq<u8>, pos: int, count: nat) -> int
    decreases count,
{
    if count == 0 || pos <= 0 {
        pos
    } else {
        back_n(b, prev_boundary(b, pos - 1), (count - 1) as nat)
    }
}

/// The byte index `count` characters after `pos` (stopping at the end).
pub open spec fn fwd_n(b: Seq<u8>, pos: int, count: nat) -> int
    decreases count,
{
    if count == 0 || pos >= b.len() {
        pos
    } else {
        fwd_n(b, next_boundary(b, pos + 1), (count - 1) as nat)
    }
}

/// Deleting the selection of cursor `i`, if it has a non-empty one.
pub open spec fn delete_selection_step(b: Seq<u8>, cs: Seq<CursorPosition>, i: int, s: usize, e: usize) -> (
    Seq<u8>,
    Seq<CursorPosition>,
) {
    let a = min_len(s, b.len() as int);
    let z = min_len(e, b.len() as int);
    if a < z {
        let cs2 = cs.update(i, CursorPosition { offset: a, selection: None });
        (splice(b, a as int, z as int, seq![]), adjust(cs2, i, a, a - z))
    } else {
        (b, cs)
    }
}

pub open spec fn delete_selection_ok(b: Seq<u8>, s: usize, e: usize) -> bool {
    let a = min_len(s, b.len() as int);
    let z = min_len(e, b.len() as int);
    a < z ==> boundary(b, a as int) && boundary(b, z as int)
}

/// The edit that a backspace of `count` characters makes at cursor `i`.
pub open spec fn backspace_step(b: Seq<u8>, cs: Seq<CursorPosition>, i: int, count: nat) -> (
    Seq<u8>,
    Seq<CursorPosition>,
) {
    let c = cs[i];
    match c.selection {
        Some((s, e)) => delete_selection_step(b, cs, i, s, e),
        None => {
            let p = min_len(c.offset, b.len() as int);
            let d = back_n(b, p as int, count);
            if d < p {
                let cs2 = cs.update(i, CursorPosition { offset: d as usize, ..c });
                (splice(b, d, p as int, seq![]), adjust(cs2, i, d as usize, d - p))
            } else {
                (b, cs)
            }
        },
    }
}

pub open spec fn backspace_step_ok(b: Seq<u8>, cs: Seq<CursorPosition>, i: int, count: nat) -> bool {
    let c = cs[i];
    match c.selection {
        Some((s, e)) => delete_selection_ok(b, s, e),
        None => {
            let p = min_len(c.offset, b.len() as int);
            back_n(b, p as int, count) < p ==> boundary(b, p as int)
        },
    }
}

/// The edit that deleting `count` characters forward makes at cursor `i`.
pub open spec fn delete_step(b: Seq<u8>, cs: Seq<CursorPosition>, i: int, count: nat) -> (
    Seq<u8>,
    Seq<CursorPosition>,
) {
    let c = cs[i];
    match c.selection {
        Some((s, e)) => delete_selection_step(b, cs, i, s, e),
        None => {
            let p = min_len(c.offset, b.len() as int);
            let d = fwd_n(b, p as int, count);
            if d > p {
                (splice(b, p as int, d, seq![]), adjust(cs, i, p, p - d))
            } else {
                (b, cs)
            }
        },
    }
}

pub open spec fn delete_step_ok(b: Seq<u8>, cs: Seq<CursorPosition>, i: int, count: nat) -> bool {
    let c = cs[i];
    match c.selection {
        Some((s, e)) => delete_selection_ok(b, s, e),
        None => {
            let p = min_len(c.offset, b.len() as int);
            fwd_n(b, p as int, count) > p ==> boundary(b, p as int)
        },
    }
}

/// Backspace (`fwd == false`) or forward delete (`fwd == true`) at cursors
/// `n-1, ..., 0`, in that order.
pub open spec fn erase_run(b: Seq<u8>, cs: Seq<CursorPosition>, count: nat, fwd: bool, n: int) -> (
    Seq<u8>,
    Seq<CursorPosition>,
)
    decreases n,
{
    if n <= 0 {
        (b, cs)
    } else {
        let (b1, cs1) = if fwd {
            delete_step(b, cs, n - 1, count)
        } else {
            backspace_step(b, cs, n - 1, count)
        };
        erase_run(b1, cs1, count, fwd, n - 1)
    }
}

pub open spec fn erase_run_ok(b: Seq<u8>, cs: Seq<CursorPosition>, count: nat, fwd: bool, n: int) -> bool
    decreases n,
{
    if n <= 0 {
        true
    } else {
        let (b1, cs1) = if fwd {
            delete_step(b, cs, n - 1, count)
        } else {
            backspace_step(b, cs, n - 1, count)
        };
        (if fwd {
            delete_step_ok(b, cs, n - 1, count)
        } else {
            backspace_step_ok(b, cs, n - 1, count)
        }) && erase_run_ok(b1, cs1, count, fwd, n - 1)
    }
}

/// Every offset and selection bound of the cursors is at most `m`.
pub open spec fn bounds_within(cs: Seq<CursorPosition>, m: int) -> bool {
    forall|j: int|
        0 <= j < cs.len() ==> {
            &&& (#[trigger] cs[j]).offset <= m
            &&& (cs[j].selection matches Some((s, e)) ==> s <= m && e <= m)
        }
}

/// Every offset and selection bound of the cursors other than the `i`-th is at most `m`.
pub open spec fn bounds_within_except(cs: Seq<CursorPosition>, i: int, m: int) -> bool {
    forall|j: int|
        0 <= j < cs.len() && j != i ==> {
            &&& (#[trigger] cs[j]).offset <= m
            &&& (cs[j].selection matches Some((s, e)) ==> s <= m && e <= m)
        }
}

/// The occurrence of `p` that "select next occurrence" picks: the first one
/// at or after the search start, unless a cursor already selects it; failing
/// that, the first one wholly before the search start, under the same proviso.
pub open spec fn next_occurrence(b: Seq<u8>, p: Seq<u8>, cs: Seq<CursorPosition>) -> Option<int> {
    let ss = search_start(cs) as int;
    let fwd = first_occ(b, p, ss, b.len() as int);
    let wrap = first_occ(b, p, 0, ss);
    if fwd is Some && !has_selection(cs, fwd->0 as usize, (fwd->0 + p.len()) as usize) {
        fwd
    } else if wrap is Some && !has_selection(cs, wrap->0 as usize, (wrap->0 + p.len()) as usize) {
        wrap
    } else {
        None
    }
}

/// Where "select next occurrence" starts looking: after the furthest cursor
/// (the end of its selection, or its offset), or at 0 without cursors.
pub open spec fn search_start(cs: Seq<CursorPosition>) -> usize
    decreases cs.len(),
{
    if cs.len() == 0 {
        0
    } else {
        let k = match cs.last().selection {
            Some((_, e)) => e,
            None => cs.last().offset,
        };
        let m = search_start(cs.drop_last());
        if cs.len() == 1 || k > m {
            k
        } else {
            m
        }
    }
}

/// Whether some cursor already selects exactly `start..end`.
pub open spec fn has_selection(cs: Seq<CursorPosition>, start: usize, end: usize) -> bool {
    exists|j: int| 0 <= j < cs.len() && cs[j].selection == Some((start, end))
}

/// Each step of typing at several cursors (`insert_step`, which
/// `apply_insert` makes at each cursor from the last to the first) leaves
/// the cursor it types at right after the typed bytes: at the start of its
/// selection (or its offset), cut to the text, plus the typed length,
/// without a selection where it had one; the typed bytes stand there in
/// place of the selected ones.
pub proof fn law_insert_step_cursor_after(b: Seq<u8>, cs: Seq<CursorPosition>, i: int, ins: Seq<u8>)
    requires
        0 <= i < cs.len(),
        cs[i].selection matches Some((s, e)) ==> s <= e,
        b.len() + ins.len() <= usize::MAX,
    ensures
        ({
            let r = insert_step(b, cs, i, ins);
            let c = cs[i];
            let start: int = match c.selection {
                Some((s, _)) => if s < b.len() { s as int } else { b.len() as int },
                None => if c.offset < b.len() { c.offset as int } else { b.len() as int },
            };
            let end: int = match c.selection {
                Some((_, e)) => if e < b.len() { e as int } else { b.len() as int },
                None => start,
            };
            &&& r.1.len() == cs.len()
            &&& r.1[i].offset == start + ins.len()
            &&& r.1[i].selection is None
            &&& r.0.take(start) == b.take(start)
            &&& r.0.subrange(start, start + ins.len()) == ins
            &&& r.0.skip(start + ins.len()) == b.skip(end)
        }),
{
    let (b1, cs1) = insert_step(b, cs, i, ins);
    match cs[i].selection {
        Some((s, e)) => {
            let a = min_len(s, b.len() as int);
            let z = min_len(e, b.len() as int);
            assert(b1 == splice(b, a as int, z as int, ins));
            assert(b1.take(a as int) =~= b.take(a as int));
            assert(b1.subrange(a as int, a + ins.len()) =~= ins);
            assert(b1.skip(a + ins.len()) =~= b.skip(z as int));
        },
        None => {
            let p = min_len(cs[i].offset, b.len() as int);
            assert(b1 == splice(b, p as int, p as int, ins));
            assert(b1.take(p as int) =~= b.take(p as int));
            assert(b1.subrange(p as int, p + ins.len()) =~= ins);
            assert(b1.skip(p + ins.len()) =~= b.skip(p as int));
        },
    }
}

/// Typing at one cursor moves the others with the text: a cursor at or
/// before the place typed at stays where it is, and a cursor past the
/// replaced bytes moves so that it still stands before the same text.
pub proof fn law_insert_step_moves_others(
    b: Seq<u8>,
    cs: Seq<CursorPosition>,
    i: int,
    ins: Seq<u8>,
    j: int,
)
    requires
        0 <= i < cs.len(),
        0 <= j < cs.len(),
        i != j,
        cs[i].selection matches Some((s, e)) ==> s <= e,
        cs[j].offset <= b.len(),
        b.len() + ins.len() <= usize::MAX,
    ensures
        ({
            let r = insert_step(b, cs, i, ins);
            let c = cs[i];
            let start: int = match c.selection {
                Some((s, _)) => if s < b.len() { s as int } else { b.len() as int },
                None => if c.offset < b.len() { c.offset as int } else { b.len() as int },
            };
            let end: int = match c.selection {
                Some((_, e)) => if e < b.len() { e as int } else { b.len() as int },
                None => start,
            };
            &&& cs[j].offset <= start ==> r.1[j].offset == cs[j].offset
            &&& cs[j].offset > start && cs[j].offset >= end ==> r.1[j].offset <= r.0.len() && r.0.skip(
                r.1[j].offset as int,
            ) == b.skip(cs[j].offset as int)
        }),
{
    let (b1, cs1) = insert_step(b, cs, i, ins);
    let o = cs[j].offset;
    match cs[i].selection {
        Some((s, e)) => {
            let a = min_len(s, b.len() as int);
            let z = min_len(e, b.len() as int);
            assert(b1 == splice(b, a as int, z as int, ins));
            if o > a && o >= z {
                let no = cs1[j].offset;
                assert(no == o + ins.len() - (z - a));
                assert(b1.skip(no as int) =~= b.skip(o as int));
            }
        },
        None => {
            let p = min_len(cs[i].offset, b.len() as int);
            assert(b1 == splice(b, p as int, p as int, ins));
            if o > p {
                let no = cs1[j].offset;
                assert(no == o + ins.len());
                assert(b1.skip(no as int) =~= b.skip(o as int));
            }
        },
    }
}

/// Typing at a lone extra cursor (what `apply_insert` does with one
/// cursor): with a selection `s..e` (cut to the text), the selected bytes
/// are replaced by the typed bytes and the cursor sits right after them,
/// at the selection's start plus the typed length, without a selection;
/// without one, the bytes go in at the cursor (cut to the text) and the
/// cursor sits right after them.
pub proof fn law_insert_leaves_cursor_after(b: Seq<u8>, c: CursorPosition, ins: Seq<u8>)
    requires
        c.selection matches Some((s, e)) ==> s <= e,
        b.len() + ins.len() <= usize::MAX,
    ensures
        ({
            let r = insert_run(b, sorted_by_offset(seq![c]), ins, 1);
            let start: int = match c.selection {
                Some((s, _)) => if s < b.len() { s as int } else { b.len() as int },
                None => if c.offset < b.len() { c.offset as int } else { b.len() as int },
            };
            let end: int = match c.selection {
                Some((_, e)) => if e < b.len() { e as int } else { b.len() as int },
                None => start,
            };
            &&& r.1.len() == 1
            &&& r.1[0].offset == start + ins.len()
            &&& r.1[0].selection is None
            &&& r.0.take(start) == b.take(start)
            &&& r.0.subrange(start, start + ins.len()) == ins
            &&& r.0.skip(start + ins.len()) == b.skip(end)
        }),
{
    let cs = seq![c];
    assert(sorted_by_offset(cs) == insert_by_offset(sorted_by_offset(cs.drop_last()), c));
    assert(cs.drop_last() =~= Seq::<CursorPosition>::empty());
    assert(sorted_by_offset(cs) =~= cs);
    let (b1, cs1) = insert_step(b, cs, 0, ins);
    assert(insert_run(b, cs, ins, 1) == insert_run(b1, cs1, ins, 0));
    match c.selection {
        Some((s, e)) => {
            let a = min_len(s, b.len() as int);
            let z = min_len(e, b.len() as int);
            let cs2 = cs.update(0, CursorPosition { selection: None, offset: (a + ins.len()) as usize });
            assert(adjust(cs2, 0, a, ins.len() - (z - a)) =~= cs2);
            assert(b1 == splice(b, a as int, z as int, ins));
            assert(b1.take(a as int) =~= b.take(a as int));
            assert(b1.subrange(a as int, a + ins.len()) =~= ins);
            assert(b1.skip(a + ins.len()) =~= b.skip(z as int));
        },
        None => {
            let p = min_len(c.offset, b.len() as int);
            let cs2 = cs.update(0, CursorPosition { offset: (p + ins.len()) as usize, ..c });
            assert(adjust(cs2, 0, p, ins.len() as int) =~= cs2);
            assert(b1 == splice(b, p as int, p as int, ins));
            assert(b1.take(p as int) =~= b.take(p as int));
            assert(b1.subrange(p as int, p + ins.len()) =~= ins);
            assert(b1.skip(p + ins.len()) =~= b.skip(p as int));
        },
    }
}

// ---------------------------------------------------------------------------
// Proof helpers
// ---------------------------------------------------------------------------

proof fn lemma_insert_by_offset_at(s: Seq<CursorPosition>, c: CursorPosition, k: int)
    requires
        0 <= k <= s.len(),
        forall|j: int| k <= j < s.len() ==> s[j].offset > c.offset,
        k == 0 || s[k - 1].offset <= c.offset,
    ensures
        insert_by_offset(s, c) == s.insert(k, c),
    decreases s.len(),
{
    if s.len() == 0 {
        assert(s.insert(k, c) == seq![c]);
    } else if s.last().offset <= c.offset {
        assert(s.insert(k, c) == s.push(c));
    } else {
        lemma_insert_by_offset_at(s.drop_last(), c, k);
        assert(s.insert(k, c) == s.drop_last().insert(k, c).push(s.last()));
    }
}

proof fn lemma_insert_by_offset_bounds(s: Seq<CursorPosition>, c: CursorPosition, m: int)
    requires
        bounds_within(s, m),
        bounds_within(seq![c], m),
    ensures
        bounds_within(insert_by_offset(s, c), m),
        insert_by_offset(s, c).len() == s.len() + 1,
    decreases s.len(),
{
    if s.len() == 0 {
    } else if s.last().offset <= c.offset {
        assert(seq![c][0] == c);
    } else {
        lemma_insert_by_offset_bounds(s.drop_last(), c, m);
        let r = insert_by_offset(s.drop_last(), c).push(s.last());
        assert forall|j: int| 0 <= j < r.len() implies {
            &&& (#[trigger] r[j]).offset <= m
            &&& (r[j].selection matches Some((a, e)) ==> a <= m && e <= m)
        } by {
            if j == r.len() - 1 {
                assert(r[j] == s[s.len() - 1]);
            } else {
                assert(r[j] == insert_by_offset(s.drop_last(), c)[j]);
            }
        }
    }
}

proof fn lemma_sorted_bounds(s: Seq<CursorPosition>, m: int)
    requires
        bounds_within(s, m),
    ensures
        bounds_within(sorted_by_offset(s), m),
        sorted_by_offset(s).len() == s.len(),
    decreases s.len(),
{
    if s.len() > 0 {
        assert(bounds_within(s.drop_last(), m)) by {
            assert forall|j: int| 0 <= j < s.drop_last().len() implies {
                &&& (#[trigger] s.drop_last()[j]).offset <= m
                &&& (s.drop_last()[j].selection matches Some((a, e)) ==> a <= m && e <= m)
            } by {
                assert(s.drop_last()[j] == s[j]);
            }
        }
        lemma_sorted_bounds(s.drop_last(), m);
        assert(bounds_within(seq![s.last()], m)) by {
            assert(seq![s.last()][0] == s[s.len() - 1]);
        }
        lemma_insert_by_offset_bounds(sorted_by_offset(s.drop_last()), s.last(), m);
    }
}

proof fn lemma_prev_boundary(b: Seq<u8>, j: int)
    requires
        0 <= j <= b.len(),
    ensures
        0 <= prev_boundary(b, j) <= j,
        boundary(b, prev_boundary(b, j)),
    decreases j,
{
    if j > 0 && !boundary(b, j) {
        lemma_prev_boundary(b, j - 1);
    }
}

proof fn lemma_back_n(b: Seq<u8>, pos: int, count: nat)
    requires
        0 <= pos <= b.len(),
    ensures
        0 <= back_n(b, pos, count) <= pos,
        boundary(b, pos) || (count > 0 && pos > 0) ==> boundary(b, back_n(b, pos, count)),
    decreases count,
{
    if count > 0 && pos > 0 {
        lemma_prev_boundary(b, pos - 1);
        lemma_back_n(b, prev_boundary(b, pos - 1), (count - 1) as nat);
    }
}

proof fn lemma_next_boundary(b: Seq<u8>, j: int)
    requires
        0 <= j <= b.len(),
    ensures
        j <= next_boundary(b, j) <= b.len(),
        boundary(b, next_boundary(b, j)),
    decreases b.len() - j,
{
    if j < b.len() && !boundary(b, j) {
        lemma_next_boundary(b, j + 1);
    }
}

proof fn lemma_fwd_n(b: Seq<u8>, pos: int, count: nat)
    requires
        0 <= pos <= b.len(),
    ensures
        pos <= fwd_n(b, pos, count) <= b.len(),
        fwd_n(b, pos, count) > pos ==> boundary(b, fwd_n(b, pos, count)),
    decreases count,
{
    if count > 0 && pos < b.len() {
        lemma_next_boundary(b, pos + 1);
        lemma_fwd_n(b, next_boundary(b, pos + 1), (count - 1) as nat);
    }
}

// ---------------------------------------------------------------------------
// Executable code
// ---------------------------------------------------------------------------

/// The cursors stably sorted by offset.
fn sort_by_offset(v: &Vec<CursorPosition>) -> (res: Vec<CursorPosition>)
    ensures
        res@ == sorted_by_offset(v@),
{
    let mut out: Vec<CursorPosition> = Vec::new();
    let mut i: usize = 0;
    while i < v.len()
        invariant
            i <= v@.len(),
            out@ == sorted_by_offset(v@.take(i as int)),
        decreases v.len() - i,
    {
        let c = v[i];
        let mut k = out.len();
        while k > 0 && out[k - 1].offset > c.offset
            invariant
                k <= out@.len(),
                forall|j: int| k <= j < out@.len() ==> out@[j].offset > c.offset,
            decreases k,
        {
            k -= 1;
        }
        proof {
            lemma_insert_by_offset_at(out@, c, k as int);
            assert(v@.take(i as int + 1).drop_last() == v@.take(i as int));
        }
        out.insert(k, c);
        i += 1;
    }
    assert(v@.take(v@.len() as int) == v@);
    out
}

/// `v` shifted for an edit at `p` with length change `delta`.
fn shift_exec(v: usize, p: usize, delta: isize) -> (res: usize)
    requires
        v <= isize::MAX,
        v + delta <= isize::MAX,
    ensures
        res == shift(v, p, delta as int),
{
    if v > p {
        let w: isize = v as isize + delta;
        if w < 0 {
            0
        } else {
            w as usize
        }
    } else {
        v
    }
}

/// Index of the boundary at or below `j` (`find_char_boundary_back`'s inner loop).
fn prev_boundary_exec(b: &[u8], j: usize) -> (res: usize)
    requires
        j <= b@.len(),
    ensures
        res == prev_boundary(b@, j as int),
        res <= j,
{
    let mut idx = j;
    while idx > 0 && !is_boundary(b, idx)
        invariant
            idx <= j,
            prev_boundary(b@, j as int) == prev_boundary(b@, idx as int),
        decreases idx,
    {
        idx -= 1;
    }
    idx
}

/// The byte position `count` characters before `pos`.
fn find_char_boundary_back(b: &[u8], pos: usize, count: usize) -> (res: usize)
    requires
        pos <= b@.len(),
    ensures
        res == back_n(b@, pos as int, count as nat),
        res <= pos,
{
    let mut chars_back: usize = 0;
    let mut idx = pos;
    while chars_back < count && idx > 0
        invariant
            chars_back <= count,
            idx <= pos <= b@.len(),
            back_n(b@, pos as int, count as nat) == back_n(
                b@,
                idx as int,
                (count - chars_back) as nat,
            ),
        decreases count - chars_back,
    {
        idx = prev_boundary_exec(b, idx - 1);
        chars_back += 1;
    }
    idx
}

/// Index of the boundary at or above `j` (`find_char_boundary_forward`'s inner loop).
fn next_boundary_exec(b: &[u8], j: usize) -> (res: usize)
    requires
        j <= b@.len(),
    ensures
        res == next_boundary(b@, j as int),
        j <= res <= b@.len(),
{
    let mut idx = j;
    while idx < b.len() && !is_boundary(b, idx)
        invariant
            j <= idx <= b@.len(),
            next_boundary(b@, j as int) == next_boundary(b@, idx as int),
        decreases b.len() - idx,
    {
        idx += 1;
    }
    idx
}

/// The byte position `count` characters after `pos`.
fn find_char_boundary_forward(b: &[u8], pos: usize, count: usize) -> (res: usize)
    requires
        pos <= b@.len(),
    ensures
        res == fwd_n(b@, pos as int, count as nat),
        pos <= res <= b@.len(),
{
    let mut chars_fwd: usize = 0;
    let mut idx = pos;
    let len = b.len();
    while chars_fwd < count && idx < len
        invariant
            chars_fwd <= count,
            pos <= idx <= len == b@.len(),
            fwd_n(b@, pos as int, count as nat) == fwd_n(
                b@,
                idx as int,
                (count - chars_fwd) as nat,
            ),
        decreases count - chars_fwd,
    {
        idx = next_boundary_exec(b, idx + 1);
        chars_fwd += 1;
    }
    idx
}

/// Whether a cursor without selection is at `offset`.
pub open spec fn has_plain_cursor(cs: Seq<CursorPosition>, offset: usize) -> bool {
    exists|j: int| 0 <= j < cs.len() && cs[j].offset == offset && cs[j].selection is None
}

/// The cursors with a plain cursor at `offset` added, unless one is there.
pub open spec fn with_cursor(cs: Seq<CursorPosition>, offset: usize) -> Seq<CursorPosition> {
    if has_plain_cursor(cs, offset) {
        cs
    } else {
        cs.push(CursorPosition { offset, selection: None })
    }
}

/// Adding a cursor twice at the same offset adds it once.
pub proof fn law_add_cursor_idempotent(cs: Seq<CursorPosition>, offset: usize)
    ensures
        with_cursor(with_cursor(cs, offset), offset) == with_cursor(cs, offset),
        has_plain_cursor(with_cursor(cs, offset), offset),
{
    let w = with_cursor(cs, offset);
    if !has_plain_cursor(cs, offset) {
        assert(w[cs.len() as int].offset == offset && w[cs.len() as int].selection is None);
    }
}

impl MultiCursorState {
    pub fn new() -> (res: Self)
        ensures
            res.extra_cursors@.len() == 0,
            !res.active,
            res.last_selected_text is None,
    {
        MultiCursorState { extra_cursors: Vec::new(), active: false, last_selected_text: None }
    }

    /// Adds a cursor at `offset`, unless a cursor without selection is already there.
    pub fn add_cursor(&mut self, offset: usize)
        ensures
            final(self).extra_cursors@ == with_cursor(old(self).extra_cursors@, offset),
            final(self).active == (old(self).active || !has_plain_cursor(
                old(self).extra_cursors@,
                offset,
            )),
            final(self).last_selected_text == old(self).last_selected_text,
    {
        let mut j: usize = 0;
        while j < self.extra_cursors.len()
            invariant
                j <= self.extra_cursors@.len(),
                *self == *old(self),
                forall|t: int|
                    0 <= t < j ==> !(self.extra_cursors@[t].offset == offset
                        && self.extra_cursors@[t].selection is None),
            decreases self.extra_cursors.len() - j,
        {
            if self.extra_cursors[j].offset == offset && self.extra_cursors[j].selection.is_none() {
                return;
            }
            j += 1;
        }
        self.extra_cursors.push(CursorPosition::new(offset));
        self.active = true;
    }

    /// Adds a cursor at `offset` selecting `sel_start..sel_end`.
    pub fn add_cursor_with_selection(&mut self, offset: usize, sel_start: usize, sel_end: usize)
        ensures
            final(self).extra_cursors@ == old(self).extra_cursors@.push(
                CursorPosition { offset, selection: Some(sel_pair(sel_start, sel_end)) },
            ),
            final(self).active,
            final(self).last_selected_text == old(self).last_selected_text,
    {
        self.extra_cursors.push(CursorPosition::with_selection(offset, sel_start, sel_end));
        self.active = true;
    }

    /// Clears all extra cursors and leaves multi-cursor mode.
    pub fn clear(&mut self)
        ensures
            final(self).extra_cursors@.len() == 0,
            !final(self).active,
            final(self).last_selected_text is None,
    {
        self.extra_cursors.clear();
        self.active = false;
        self.last_selected_text = None;
    }

    /// The byte offsets of the extra cursors.
    pub fn cursor_offsets(&self) -> (res: Vec<usize>)
        ensures
            res@ == self.extra_cursors@.map_values(|c: CursorPosition| c.offset),
    {
        let mut res: Vec<usize> = Vec::new();
        let mut i: usize = 0;
        while i < self.extra_cursors.len()
            invariant
                i <= self.extra_cursors@.len(),
                res@ == self.extra_cursors@.take(i as int).map_values(|c: CursorPosition| c.offset),
            decreases self.extra_cursors.len() - i,
        {
            res.push(self.extra_cursors[i].offset);
            assert(self.extra_cursors@.take(i as int + 1) == self.extra_cursors@.take(i as int).push(
                self.extra_cursors@[i as int],
            ));
            i += 1;
        }
        assert(self.extra_cursors@.take(self.extra_cursors@.len() as int) == self.extra_cursors@);
        res
    }

    /// The selections of the extra cursors that have one, in order.
    pub fn selections(&self) -> (res: Vec<(usize, usize)>)
        ensures
            res@ == selections_of(self.extra_cursors@),
    {
        let mut res: Vec<(usize, usize)> = Vec::new();
        let mut i: usize = 0;
        while i < self.extra_cursors.len()
            invariant
                i <= self.extra_cursors@.len(),
                res@ == selections_of(self.extra_cursors@.take(i as int)),
            decreases self.extra_cursors.len() - i,
        {
            assert(self.extra_cursors@.take(i as int + 1).drop_last() == self.extra_cursors@.take(
                i as int,
            ));
            if let Some(sel) = self.extra_cursors[i].selection {
                res.push(sel);
            }
            i += 1;
        }
        assert(self.extra_cursors@.take(self.extra_cursors@.len() as int) == self.extra_cursors@);
        res
    }

    /// The cursor offsets moved after an edit at `edit_offset` that replaced
    /// `old_len` bytes with `new_len` bytes; the cursor `edited_idx` is left alone.
    fn adjust_offsets_after_edit(
        &mut self,
        edited_idx: usize,
        edit_offset: usize,
        old_len: usize,
        new_len: usize,
    )
        requires
            old_len <= isize::MAX,
            new_len <= isize::MAX,
            bounds_within_except(old(self).extra_cursors@, edited_idx as int, isize::MAX - new_len),
            bounds_within(old(self).extra_cursors@, isize::MAX as int),
        ensures
            final(self).extra_cursors@ == adjust(
                old(self).extra_cursors@,
                edited_idx as int,
                edit_offset,
                new_len - old_len,
            ),
            final(self).active == old(self).active,
            final(self).last_selected_text == old(self).last_selected_text,
    {
        let delta: isize = new_len as isize - old_len as isize;
        if delta == 0 {
            return;
        }
        let ghost cs = old(self).extra_cursors@;
        let mut j: usize = 0;
        while j < self.extra_cursors.len()
            invariant
                j <= self.extra_cursors@.len() == cs.len(),
                delta == new_len - old_len,
                old_len <= isize::MAX,
                new_len <= isize::MAX,
                bounds_within_except(cs, edited_idx as int, isize::MAX - new_len),
                self.active == old(self).active,
                self.last_selected_text == old(self).last_selected_text,
                forall|t: int|
                    0 <= t < cs.len() ==> #[trigger] self.extra_cursors@[t] == if t < j && t
                        != edited_idx {
                        shift_cursor(cs[t], edit_offset, delta as int)
                    } else {
                        cs[t]
                    },
            decreases cs.len() - j,
        {
            if j != edited_idx {
                let c = self.extra_cursors[j];
                assert(c == cs[j as int]);
                let offset = shift_exec(c.offset, edit_offset, delta);
                let selection = match c.selection {
                    Some((s, e)) => Some(
                        (shift_exec(s, edit_offset, delta), shift_exec(e, edit_offset, delta)),
                    ),
                    None => None,
                };
                self.extra_cursors.set(j, CursorPosition { offset, selection });
            }
            j += 1;
        }
        assert(self.extra_cursors@ == adjust(cs, edited_idx as int, edit_offset, delta as int));
    }
}


impl MultiCursorState {
    /// Whether some extra cursor selects exactly `start..end`.
    fn has_selection_exec(&self, start: usize, end: usize) -> (res: bool)
        ensures
            res == has_selection(self.extra_cursors@, start, end),
    {
        let mut j: usize = 0;
        while j < self.extra_cursors.len()
            invariant
                j <= self.extra_cursors@.len(),
                forall|t: int|
                    0 <= t < j ==> self.extra_cursors@[t].selection != Some((start, end)),
            decreases self.extra_cursors.len() - j,
        {
            match self.extra_cursors[j].selection {
                Some((s, e)) => {
                    if s == start && e == end {
                        return true;
                    }
                },
                None => {},
            }
            j += 1;
        }
        false
    }

    /// Where the search for the next occurrence starts.
    fn search_start_exec(&self) -> (res: usize)
        ensures
            res == search_start(self.extra_cursors@),
    {
        let mut m: usize = 0;
        let mut i: usize = 0;
        while i < self.extra_cursors.len()
            invariant
                i <= self.extra_cursors@.len(),
                m == search_start(self.extra_cursors@.take(i as int)),
            decreases self.extra_cursors.len() - i,
        {
            let c = self.extra_cursors[i];
            let k = match c.selection {
                Some((_, e)) => e,
                None => c.offset,
            };
            assert(self.extra_cursors@.take(i as int + 1).drop_last() == self.extra_cursors@.take(
                i as int,
            ));
            if i == 0 || k > m {
                m = k;
            }
            i += 1;
        }
        assert(self.extra_cursors@.take(self.extra_cursors@.len() as int) == self.extra_cursors@);
        m
    }

    /// Finds the next occurrence of `selection` after the furthest cursor
    /// (wrapping to the start) and adds a cursor selecting it.  Returns whether
    /// a new occurrence was found.
    pub fn select_next_occurrence(&mut self, text: &str, selection: &str) -> (res: bool)
        requires
            selection@.len() > 0 ==> search_start(old(self).extra_cursors@) <= bytes_of(
                text@,
            ).len() && boundary(bytes_of(text@), search_start(old(self).extra_cursors@) as int),
        ensures
            selection@.len() == 0 ==> !res && *final(self) == *old(self),
            selection@.len() > 0 ==> {
                let found = next_occurrence(
                    bytes_of(text@),
                    bytes_of(selection@),
                    old(self).extra_cursors@,
                );
                &&& res == found is Some
                &&& final(self).last_selected_text is Some
                &&& final(self).last_selected_text->0@ == selection@
                &&& match found {
                    Some(i) => {
                        &&& final(self).extra_cursors@ == old(self).extra_cursors@.push(
                            CursorPosition {
                                offset: (i + bytes_of(selection@).len()) as usize,
                                selection: Some(
                                    (i as usize, (i + bytes_of(selection@).len()) as usize),
                                ),
                            },
                        )
                        &&& final(self).active
                    },
                    None => {
                        &&& final(self).extra_cursors@ == old(self).extra_cursors@
                        &&& final(self).active == old(self).active
                    },
                }
            },
    {
        if selection.is_empty() {
            return false;
        }
        self.last_selected_text = Some(selection.to_owned());
        let b = text.as_bytes();
        let p = selection.as_bytes();
        let search_start = self.search_start_exec();
        if let Some(pos) = find_bytes(b, p, search_start, b.len()) {
            proof {
                crate::bytes::lemma_first_occ(b@, p@, search_start as int, b@.len() as int);
            }
            let abs_end = pos + p.len();
            if !self.has_selection_exec(pos, abs_end) {
                self.add_cursor_with_selection(abs_end, pos, abs_end);
                return true;
            }
        }
        if let Some(pos) = find_bytes(b, p, 0, search_start) {
            proof {
                crate::bytes::lemma_first_occ(b@, p@, 0, search_start as int);
            }
            let abs_end = pos + p.len();
            if !self.has_selection_exec(pos, abs_end) {
                self.add_cursor_with_selection(abs_end, pos, abs_end);
                return true;
            }
        }
        false
    }

    /// Inserts `insert` at every extra cursor, replacing its selection if it
    /// has one.  The cursors are first sorted by offset and then edited from
    /// the last to the first; after each edit the other cursors move with the text.
    pub fn apply_insert(&mut self, text: &mut String, insert: &str)
        requires
            old(self).extra_cursors@.len() > 0 && insert@.len() > 0 ==> {
                let n = old(self).extra_cursors@.len() as int;
                let l = bytes_of(insert@).len() as int;
                &&& bytes_of(old(text)@).len() + n * l <= isize::MAX
                &&& bounds_within(old(self).extra_cursors@, isize::MAX - n * l)
                &&& insert_run_ok(
                    bytes_of(old(text)@),
                    sorted_by_offset(old(self).extra_cursors@),
                    bytes_of(insert@),
                    n,
                )
            },
        ensures
            old(self).extra_cursors@.len() == 0 || insert@.len() == 0 ==> *final(self) == *old(
                self,
            ) && final(text)@ == old(text)@,
            old(self).extra_cursors@.len() > 0 && insert@.len() > 0 ==> {
                let r = insert_run(
                    bytes_of(old(text)@),
                    sorted_by_offset(old(self).extra_cursors@),
                    bytes_of(insert@),
                    old(self).extra_cursors@.len() as int,
                );
                &&& bytes_of(final(text)@) == r.0
                &&& final(self).extra_cursors@ == r.1
                &&& final(self).active == old(self).active
                &&& final(self).last_selected_text == old(self).last_selected_text
            },
    {
        if self.extra_cursors.len() == 0 || insert.is_empty() {
            return;
        }
        let ghost b0 = bytes_of(text@);
        let ghost ins = bytes_of(insert@);
        let ghost sorted = sorted_by_offset(self.extra_cursors@);
        let n = self.extra_cursors.len();
        proof {
            lemma_sorted_bounds(self.extra_cursors@, isize::MAX - n * ins.len());
        }
        self.extra_cursors = sort_by_offset(&self.extra_cursors);
        let insert_len = insert.as_bytes().len();
        proof {
            crate::bytes::lemma_bytes_len(insert@);
        }
        let mut i = n;
        while i > 0
            invariant
                i <= n == self.extra_cursors@.len(),
                insert_len == ins.len() > 0,
                ins == bytes_of(insert@),
                bytes_of(text@).len() + i * insert_len <= isize::MAX,
                bounds_within(self.extra_cursors@, isize::MAX - i * insert_len),
                insert_run(bytes_of(text@), self.extra_cursors@, ins, i as int) == insert_run(
                    b0,
                    sorted,
                    ins,
                    n as int,
                ),
                insert_run_ok(bytes_of(text@), self.extra_cursors@, ins, i as int),
                self.active == old(self).active,
                self.last_selected_text == old(self).last_selected_text,
            decreases i,
        {
            i -= 1;
            let ghost bp = bytes_of(text@);
            let ghost csp = self.extra_cursors@;
            proof {
                assert(i * insert_len + insert_len == (i + 1) * insert_len) by (nonlinear_arith);
                assert(i * insert_len >= 0) by (nonlinear_arith);
            }
            let c = self.extra_cursors[i];
            let len = text.as_str().as_bytes().len();
            match c.selection {
                Some((sel_start, sel_end)) => {
                    let a = if sel_start < len { sel_start } else { len };
                    let z = if sel_end < len { sel_end } else { len };
                    string_replace_range(text, a, z, insert);
                    self.extra_cursors.set(i, CursorPosition { offset: a + insert_len, selection: None });
                    self.adjust_offsets_after_edit(i, a, z - a, insert_len);
                },
                None => {
                    let p = if c.offset < len { c.offset } else { len };
                    string_insert_str(text, p, insert);
                    self.extra_cursors.set(i, CursorPosition { offset: p + insert_len, selection: c.selection });
                    self.adjust_offsets_after_edit(i, p, 0, insert_len);
                },
            }
            assert((bytes_of(text@), self.extra_cursors@) == insert_step(bp, csp, i as int, ins));
            proof {
                let cs2 = self.extra_cursors@;
                assert forall|j: int| 0 <= j < cs2.len() implies {
                    &&& (#[trigger] cs2[j]).offset <= isize::MAX - i * insert_len
                    &&& (cs2[j].selection matches Some((s, e)) ==> s <= isize::MAX - i * insert_len
                        && e <= isize::MAX - i * insert_len)
                } by {
                    if j != i {
                        assert(csp[j] == csp.update(i as int, cs2[i as int])[j]);
                    }
                }
            }
        }
    }
}


impl MultiCursorState {
    /// Deletes `count` characters before (`fwd == false`) or after
    /// (`fwd == true`) every extra cursor, or its selection if it has one.
    #[verifier::rlimit(40)]
    fn apply_erase(&mut self, text: &mut String, count: usize, fwd: bool)
        requires
            old(self).extra_cursors@.len() > 0,
            count > 0,
            bytes_of(old(text)@).len() <= isize::MAX,
            bounds_within(old(self).extra_cursors@, isize::MAX as int),
            erase_run_ok(
                bytes_of(old(text)@),
                sorted_by_offset(old(self).extra_cursors@),
                count as nat,
                fwd,
                old(self).extra_cursors@.len() as int,
            ),
        ensures
            ({
                let r = erase_run(
                    bytes_of(old(text)@),
                    sorted_by_offset(old(self).extra_cursors@),
                    count as nat,
                    fwd,
                    old(self).extra_cursors@.len() as int,
                );
                &&& bytes_of(final(text)@) == r.0
                &&& final(self).extra_cursors@ == r.1
                &&& final(self).active == old(self).active
                &&& final(self).last_selected_text == old(self).last_selected_text
            }),
    {
        let ghost b0 = bytes_of(text@);
        let ghost sorted = sorted_by_offset(self.extra_cursors@);
        let n = self.extra_cursors.len();
        proof {
            lemma_sorted_bounds(self.extra_cursors@, isize::MAX as int);
            crate::bytes::lemma_bytes_len(seq![]);
        }
        self.extra_cursors = sort_by_offset(&self.extra_cursors);
        let mut i = n;
        while i > 0
            invariant
                i <= n == self.extra_cursors@.len(),
                count > 0,
                bytes_of(text@).len() <= isize::MAX,
                bounds_within(self.extra_cursors@, isize::MAX as int),
                erase_run(bytes_of(text@), self.extra_cursors@, count as nat, fwd, i as int)
                    == erase_run(b0, sorted, count as nat, fwd, n as int),
                erase_run_ok(bytes_of(text@), self.extra_cursors@, count as nat, fwd, i as int),
                self.active == old(self).active,
                self.last_selected_text == old(self).last_selected_text,
            decreases i,
        {
            i -= 1;
            let ghost bp = bytes_of(text@);
            let ghost csp = self.extra_cursors@;
            let c = self.extra_cursors[i];
            let len = text.as_str().as_bytes().len();
            match c.selection {
                Some((sel_start, sel_end)) => {
                    let a = if sel_start < len { sel_start } else { len };
                    let z = if sel_end < len { sel_end } else { len };
                    if a < z {
                        proof {
                            crate::bytes::lemma_empty_str_bytes();
                        }
                        string_replace_range(text, a, z, "");
                        self.extra_cursors.set(i, CursorPosition { offset: a, selection: None });
                        self.adjust_offsets_after_edit(i, a, z - a, 0);
                    }
                },
                None => {
                    let p = if c.offset < len { c.offset } else { len };
                    if fwd {
                        let d = find_char_boundary_forward(text.as_str().as_bytes(), p, count);
                        proof {
                            lemma_fwd_n(bp, p as int, count as nat);
                        }
                        if d > p {
                            proof {
                                crate::bytes::lemma_empty_str_bytes();
                            }
                            string_replace_range(text, p, d, "");
                            self.adjust_offsets_after_edit(i, p, d - p, 0);
                        }
                    } else {
                        let d = find_char_boundary_back(text.as_str().as_bytes(), p, count);
                        proof {
                            lemma_back_n(bp, p as int, count as nat);
                        }
                        if d < p {
                            proof {
                                crate::bytes::lemma_empty_str_bytes();
                            }
                            string_replace_range(text, d, p, "");
                            self.extra_cursors.set(i, CursorPosition { offset: d, selection: c.selection });
                            self.adjust_offsets_after_edit(i, d, p - d, 0);
                        }
                    }
                },
            }
            assert((bytes_of(text@), self.extra_cursors@) == (if fwd {
                delete_step(bp, csp, i as int, count as nat)
            } else {
                backspace_step(bp, csp, i as int, count as nat)
            }));
            proof {
                let cs2 = self.extra_cursors@;
                assert forall|j: int| 0 <= j < cs2.len() implies {
                    &&& (#[trigger] cs2[j]).offset <= isize::MAX
                    &&& (cs2[j].selection matches Some((s, e)) ==> s <= isize::MAX && e <= isize::MAX)
                } by {
                }
            }
        }
    }

    /// Backspace: deletes `count` characters before every extra cursor, or
    /// its selection if it has a non-empty one.  Cursors are sorted by offset
    /// and edited from the last to the first.
    pub fn apply_backspace(&mut self, text: &mut String, count: usize)
        requires
            old(self).extra_cursors@.len() > 0 && count > 0 ==> {
                &&& bytes_of(old(text)@).len() <= isize::MAX
                &&& bounds_within(old(self).extra_cursors@, isize::MAX as int)
                &&& erase_run_ok(
                    bytes_of(old(text)@),
                    sorted_by_offset(old(self).extra_cursors@),
                    count as nat,
                    false,
                    old(self).extra_cursors@.len() as int,
                )
            },
        ensures
            old(self).extra_cursors@.len() == 0 || count == 0 ==> *final(self) == *old(self)
                && final(text)@ == old(text)@,
            old(self).extra_cursors@.len() > 0 && count > 0 ==> {
                let r = erase_run(
                    bytes_of(old(text)@),
                    sorted_by_offset(old(self).extra_cursors@),
                    count as nat,
                    false,
                    old(self).extra_cursors@.len() as int,
                );
                &&& bytes_of(final(text)@) == r.0
                &&& final(self).extra_cursors@ == r.1
                &&& final(self).active == old(self).active
                &&& final(self).last_selected_text == old(self).last_selected_text
            },
    {
        if self.extra_cursors.len() == 0 || count == 0 {
            return;
        }
        self.apply_erase(text, count, false);
    }

    /// Forward delete: deletes `count` characters after every extra cursor,
    /// or its selection if it has a non-empty one.
    pub fn apply_delete(&mut self, text: &mut String, count: usize)
        requires
            old(self).extra_cursors@.len() > 0 && count > 0 ==> {
                &&& bytes_of(old(text)@).len() <= isize::MAX
                &&& bounds_within(old(self).extra_cursors@, isize::MAX as int)
                &&& erase_run_ok(
                    bytes_of(old(text)@),
                    sorted_by_offset(old(self).extra_cursors@),
                    count as nat,
                    true,
                    old(self).extra_cursors@.len() as int,
                )
            },
        ensures
            old(self).extra_cursors@.len() == 0 || count == 0 ==> *final(self) == *old(self)
                && final(text)@ == old(text)@,
            old(self).extra_cursors@.len() > 0 && count > 0 ==> {
                let r = erase_run(
                    bytes_of(old(text)@),
                    sorted_by_offset(old(self).extra_cursors@),
                    count as nat,
                    true,
                    old(self).extra_cursors@.len() as int,
                );
                &&& bytes_of(final(text)@) == r.0
                &&& final(self).extra_cursors@ == r.1
                &&& final(self).active == old(self).active
                &&& final(self).last_selected_text == old(self).last_selected_text
            },
    {
        if self.extra_cursors.len() == 0 || count == 0 {
            return;
        }
        self.apply_erase(text, count, true);
    }
}

/// The selections among the cursors, in order.
pub open spec fn selections_of(cs: Seq<CursorPosition>) -> Seq<(usize, usize)>
    decreases cs.len(),
{
    if cs.len() == 0 {
        seq![]
    } else {
        match cs.last().selection {
            Some(sel) => selections_of(cs.drop_last()).push(sel),
            None => selections_of(cs.drop_last()),
        }
    }
}

/// Whether a byte is part of a word: ASCII letter, digit or `_`.
pub open spec fn word_byte(b: u8) -> bool {
    (48 <= b <= 57) || (97 <= b <= 122) || (65 <= b <= 90) || b == 95
}

fn is_word_byte(b: u8) -> (res: bool)
    ensures
        res == word_byte(b),
{
    (48 <= b && b <= 57) || (97 <= b && b <= 122) || (65 <= b && b <= 90) || b == 95
}

/// The word around byte `offset`: the maximal run of word bytes containing
/// it, with its start and end, or `None` when the byte there is not a word byte.
pub fn word_at_offset(text: &str, offset: usize) -> (res: Option<(String, usize, usize)>)
    ensures
        ({
            let b = bytes_of(text@);
            match res {
                None => offset >= b.len() || !word_byte(b[offset as int]),
                Some((w, s, e)) => {
                    &&& s <= offset < e <= b.len()
                    &&& forall|k: int| s <= k < e ==> word_byte(#[trigger] b[k])
                    &&& (s == 0 || !word_byte(b[s - 1]))
                    &&& (e == b.len() || !word_byte(b[e as int]))
                    &&& w@ == Seq::new((e - s) as nat, |k: int| b[s + k] as char)
                },
            }
        }),
{
    let bytes = text.as_bytes();
    if offset >= bytes.len() || !is_word_byte(bytes[offset]) {
        return None;
    }
    let mut start = offset;
    while start > 0 && is_word_byte(bytes[start - 1])
        invariant
            start <= offset < bytes@.len(),
            forall|k: int| start <= k <= offset ==> word_byte(#[trigger] bytes@[k]),
        decreases start,
    {
        start -= 1;
    }
    let mut end = offset;
    while end < bytes.len() && is_word_byte(bytes[end])
        invariant
            offset <= end <= bytes@.len(),
            forall|k: int| start <= k < end ==> word_byte(#[trigger] bytes@[k]),
            forall|k: int| start <= k <= offset ==> word_byte(#[trigger] bytes@[k]),
        decreases bytes.len() - end,
    {
        end += 1;
    }
    let mut w = String::new();
    let mut k = start;
    while k < end
        invariant
            start <= k <= end <= bytes@.len(),
            w@ == Seq::new((k - start) as nat, |t: int| bytes@[start + t] as char),
        decreases end - k,
    {
        crate::text::push_char(&mut w, bytes[k] as char);
        assert(w@ == Seq::new((k + 1 - start) as nat, |t: int| bytes@[start + t] as char));
        k += 1;
    }
    Some((w, start, end))
}

} // verus!
