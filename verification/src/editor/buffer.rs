//! A text buffer kept in a rope, addressed by byte offsets, with an undo and
//! a redo history.
//!
//! Every edit is recorded with the byte offset it was made at and the text it
//! inserted or removed. Undoing an edit reverts it at the char that offset
//! falls in; redoing applies it there again.
use vstd::prelude::*;
use ropey::Rope;
use vstd::utf8::{
    encode_scalar, encode_utf8_decode_utf8, encode_utf8_first_scalar,
    encode_utf8_valid_utf8, is_char_boundary, pop_first_scalar,
};
use crate::bytes::{boundary, bytes_of, lemma_boundary_iff, lemma_bytes_concat, lemma_bytes_len};
use crate::editor::rope_calls::{
    char_of_byte, rope_byte_slice_string, rope_byte_to_char, rope_char, rope_char_to_byte,
    rope_char_to_line, rope_chars, rope_from_str, rope_insert, rope_len_bytes, rope_len_chars,
    rope_len_lines, rope_line, rope_line_count, rope_line_len_chars, rope_line_of_char,
    rope_line_start, rope_line_string, rope_line_to_char, rope_new, rope_remove,
    rope_slice_string, rope_to_string,
};

verus! {

/// One recorded edit: the byte offset it was made at and the text it
/// inserted or deleted.
#[derive(Debug, Clone)]
pub enum EditOperation {
    Insert { pos: usize, text: String },
    Delete { pos: usize, text: String },
}

/// An edit as plain values: whether it inserted, its byte offset, its text.
impl View for EditOperation {
    type V = (bool, usize, Seq<char>);

    open spec fn view(&self) -> (bool, usize, Seq<char>) {
        match self {
            EditOperation::Insert { pos, text } => (true, *pos, text@),
            EditOperation::Delete { pos, text } => (false, *pos, text@),
        }
    }
}

/// The edits of a history, as plain values.
pub open spec fn edits_of(ops: Seq<EditOperation>) -> Seq<(bool, usize, Seq<char>)> {
    ops.map_values(|op: EditOperation| op@)
}

/// `t` put into `s` before char `at`.
pub open spec fn splice(s: Seq<char>, at: int, t: Seq<char>) -> Seq<char> {
    s.take(at) + t + s.skip(at)
}

/// `s` without its chars `from..to`.
pub open spec fn cut(s: Seq<char>, from: int, to: int) -> Seq<char> {
    s.take(from) + s.skip(to)
}

/// A history trimmed to its last `limit` edits, where there is a limit.
pub open spec fn keep_last(
    edits: Seq<(bool, usize, Seq<char>)>,
    limit: Option<usize>,
) -> Seq<(bool, usize, Seq<char>)> {
    match limit {
        Some(m) => if edits.len() > m {
            edits.skip(edits.len() - m)
        } else {
            edits
        },
        None => edits,
    }
}

/// The text with an edit made (again): an insertion puts its text before the
/// char its offset falls in; a deletion removes as many chars from there as
/// it had deleted.
pub open spec fn apply_edit(s: Seq<char>, e: (bool, usize, Seq<char>)) -> Seq<char> {
    let c = char_of_byte(s, e.1 as int);
    if e.0 {
        splice(s, c, e.2)
    } else {
        cut(s, c, c + e.2.len())
    }
}

/// The text with an edit reverted: an insertion's chars are removed from the
/// char its offset falls in; a deletion's text is put back there.
pub open spec fn revert_edit(s: Seq<char>, e: (bool, usize, Seq<char>)) -> Seq<char> {
    let c = char_of_byte(s, e.1 as int);
    if e.0 {
        cut(s, c, c + e.2.len())
    } else {
        splice(s, c, e.2)
    }
}

/// Whether an edit can be made (`forward`) or reverted on the text without
/// reaching past its end.
pub open spec fn edit_fits(s: Seq<char>, e: (bool, usize, Seq<char>), forward: bool) -> bool {
    &&& e.1 <= bytes_of(s).len()
    &&& (e.0 != forward) ==> char_of_byte(s, e.1 as int) + e.2.len() <= s.len()
}

/// The byte offset of char column `col` of line `line`, a column past the
/// line's end (its line break included) taken as its end; `None` past the
/// last line.
pub open spec fn offset_of(s: Seq<char>, line: usize, col: usize) -> Option<usize> {
    if line < rope_line_count(s) {
        Some(bytes_of(s.take(offset_char(s, line, col))).len() as usize)
    } else {
        None
    }
}

/// The char index of char column `col` of line `line`, a column past the
/// line's end taken as its end.
pub open spec fn offset_char(s: Seq<char>, line: usize, col: usize) -> int {
    let len = rope_line(s, line as nat).len();
    rope_line_start(s, line as nat) + if col < len {
        col as int
    } else {
        len as int
    }
}

/// The line and char column of the char a byte offset falls in; `None`
/// past the end of the text.
pub open spec fn line_col_of(s: Seq<char>, byte_pos: usize) -> Option<(usize, usize)> {
    if byte_pos <= bytes_of(s).len() {
        let c = char_of_byte(s, byte_pos as int);
        let l = rope_line_of_char(s, c as nat);
        Some((l as usize, (c - rope_line_start(s, l)) as usize))
    } else {
        None
    }
}

/// A text buffer backed by a rope, with undo and redo.
#[derive(Debug)]
pub struct TextBuffer {
    rope: Rope,
    modified: bool,
    undo_stack: Vec<EditOperation>,
    redo_stack: Vec<EditOperation>,
    undo_limit: Option<usize>,
}

/// `b1` is `b0` after inserting `t` at byte offset `pos`.
pub open spec fn inserted(b0: TextBuffer, b1: TextBuffer, pos: usize, t: Seq<char>) -> bool {
    &&& b1.chars() == apply_edit(b0.chars(), (true, pos, t))
    &&& b1.undo_edits() == keep_last(b0.undo_edits().push((true, pos, t)), b0.limit())
    &&& b1.redo_edits() == Seq::<(bool, usize, Seq<char>)>::empty()
    &&& b1.modified()
    &&& b1.limit() == b0.limit()
}

/// `b1` is `b0` after deleting the chars that the byte offsets `start` and
/// `end` fall in, from the first up to the second.
pub open spec fn deleted(b0: TextBuffer, b1: TextBuffer, start: usize, end: usize) -> bool {
    let s = b0.chars();
    let a = char_of_byte(s, start as int);
    let z = char_of_byte(s, end as int);
    &&& b1.chars() == cut(s, a, z)
    &&& b1.undo_edits() == keep_last(
        b0.undo_edits().push((false, start, s.subrange(a, z))),
        b0.limit(),
    )
    &&& b1.redo_edits() == Seq::<(bool, usize, Seq<char>)>::empty()
    &&& b1.modified()
    &&& b1.limit() == b0.limit()
}

/// `b1` is `b0` after an undo that returned `res`: without history nothing
/// changes; else the last edit is reverted and moves to the redo history.
pub open spec fn undone(b0: TextBuffer, b1: TextBuffer, res: bool) -> bool {
    if b0.undo_edits().len() == 0 {
        &&& !res
        &&& b1.chars() == b0.chars()
        &&& b1.undo_edits() == b0.undo_edits()
        &&& b1.redo_edits() == b0.redo_edits()
        &&& b1.modified() == b0.modified()
        &&& b1.limit() == b0.limit()
    } else {
        let e = b0.undo_edits().last();
        &&& res
        &&& b1.chars() == revert_edit(b0.chars(), e)
        &&& b1.undo_edits() == b0.undo_edits().drop_last()
        &&& b1.redo_edits() == b0.redo_edits().push(e)
        &&& b1.modified()
        &&& b1.limit() == b0.limit()
    }
}

/// `b1` is `b0` after a redo that returned `res`: without redo history
/// nothing changes; else its last edit is made again and moves back to the
/// undo history.
pub open spec fn redone(b0: TextBuffer, b1: TextBuffer, res: bool) -> bool {
    if b0.redo_edits().len() == 0 {
        &&& !res
        &&& b1.chars() == b0.chars()
        &&& b1.undo_edits() == b0.undo_edits()
        &&& b1.redo_edits() == b0.redo_edits()
        &&& b1.modified() == b0.modified()
        &&& b1.limit() == b0.limit()
    } else {
        let e = b0.redo_edits().last();
        &&& res
        &&& b1.chars() == apply_edit(b0.chars(), e)
        &&& b1.redo_edits() == b0.redo_edits().drop_last()
        &&& b1.undo_edits() == b0.undo_edits().push(e)
        &&& b1.modified()
        &&& b1.limit() == b0.limit()
    }
}

/// The buffer with nothing changed but the modified flag.
pub open spec fn same_but_flag(b0: TextBuffer, b1: TextBuffer) -> bool {
    &&& b1.chars() == b0.chars()
    &&& b1.undo_edits() == b0.undo_edits()
    &&& b1.redo_edits() == b0.redo_edits()
    &&& b1.limit() == b0.limit()
}

/// Nothing about the buffer changed.
pub open spec fn unchanged(b0: TextBuffer, b1: TextBuffer) -> bool {
    same_but_flag(b0, b1) && b1.modified() == b0.modified()
}

/// Whether `start..end` is a non-empty span of bytes of the text, the spans
/// that `move_text` and `copy_text_to` act on.
pub open spec fn span_ok(s: Seq<char>, start: usize, end: usize) -> bool {
    start < end && end <= bytes_of(s).len()
}

/// Where `move_text` inserts the moved text, once it is cut out: a `dest`
/// after the span moves back by the span's length.
pub open spec fn moved_dest(start: usize, end: usize, dest: usize) -> usize {
    if dest > end {
        (dest - (end - start)) as usize
    } else {
        dest
    }
}

/// `b1` is `b0` after moving the bytes `start..end` to `dest`: they are
/// deleted, then inserted at `moved_dest`, each recorded as an edit.
pub open spec fn moved(b0: TextBuffer, b1: TextBuffer, start: usize, end: usize, dest: usize) -> bool {
    let s = b0.chars();
    let a = char_of_byte(s, start as int);
    let z = char_of_byte(s, end as int);
    let piece = s.subrange(a, z);
    let lim = b0.limit();
    &&& b1.chars() == apply_edit(cut(s, a, z), (true, moved_dest(start, end, dest), piece))
    &&& b1.undo_edits() == keep_last(
        keep_last(b0.undo_edits().push((false, start, piece)), lim).push(
            (true, moved_dest(start, end, dest), piece),
        ),
        lim,
    )
    &&& b1.redo_edits() == Seq::<(bool, usize, Seq<char>)>::empty()
    &&& b1.modified()
    &&& b1.limit() == lim
}

impl Default for TextBuffer {
    fn default() -> (res: Self)
        ensures
            res.chars() == Seq::<char>::empty(),
            res.undo_edits() == Seq::<(bool, usize, Seq<char>)>::empty(),
            res.redo_edits() == Seq::<(bool, usize, Seq<char>)>::empty(),
            !res.modified(),
            res.limit() == None::<usize>,
    {
        Self::new()
    }
}

impl TextBuffer {
    /// The buffer's text.
    pub closed spec fn chars(self) -> Seq<char> {
        rope_chars(self.rope)
    }

    /// The undo history, oldest first.
    pub closed spec fn undo_edits(self) -> Seq<(bool, usize, Seq<char>)> {
        edits_of(self.undo_stack@)
    }

    /// The redo history, oldest first.
    pub closed spec fn redo_edits(self) -> Seq<(bool, usize, Seq<char>)> {
        edits_of(self.redo_stack@)
    }

    pub closed spec fn modified(self) -> bool {
        self.modified
    }

    /// The limit on the undo history, if any.
    pub closed spec fn limit(self) -> Option<usize> {
        self.undo_limit
    }

    /// Whether `undo` can revert the last edit within the text.
    pub open spec fn undo_fits(self) -> bool {
        self.undo_edits().len() > 0 ==> edit_fits(self.chars(), self.undo_edits().last(), false)
    }

    /// Whether `redo` can make the last undone edit again within the text.
    pub open spec fn redo_fits(self) -> bool {
        self.redo_edits().len() > 0 ==> edit_fits(self.chars(), self.redo_edits().last(), true)
    }

    pub fn new() -> (res: Self)
        ensures
            res.chars() == Seq::<char>::empty(),
            res.undo_edits() == Seq::<(bool, usize, Seq<char>)>::empty(),
            res.redo_edits() == Seq::<(bool, usize, Seq<char>)>::empty(),
            !res.modified(),
            res.limit() == None::<usize>,
    {
        let res = TextBuffer {
            rope: rope_new(),
            modified: false,
            undo_stack: Vec::new(),
            redo_stack: Vec::new(),
            undo_limit: None,
        };
        assert(res.undo_edits() =~= Seq::<(bool, usize, Seq<char>)>::empty());
        assert(res.redo_edits() =~= Seq::<(bool, usize, Seq<char>)>::empty());
        res
    }

    pub fn from_str(text: &str) -> (res: Self)
        ensures
            res.chars() == text@,
            res.undo_edits() == Seq::<(bool, usize, Seq<char>)>::empty(),
            res.redo_edits() == Seq::<(bool, usize, Seq<char>)>::empty(),
            !res.modified(),
            res.limit() == None::<usize>,
    {
        let res = TextBuffer {
            rope: rope_from_str(text),
            modified: false,
            undo_stack: Vec::new(),
            redo_stack: Vec::new(),
            undo_limit: None,
        };
        assert(res.undo_edits() =~= Seq::<(bool, usize, Seq<char>)>::empty());
        assert(res.redo_edits() =~= Seq::<(bool, usize, Seq<char>)>::empty());
        res
    }

    /// Drops the oldest edits beyond `max`.
    fn enforce_undo_limit(&mut self, max: usize)
        ensures
            final(self).undo_edits() == keep_last(old(self).undo_edits(), Some(max)),
            final(self).chars() == old(self).chars(),
            final(self).redo_edits() == old(self).redo_edits(),
            final(self).modified() == old(self).modified(),
            final(self).limit() == old(self).limit(),
    {
        if self.undo_stack.len() > max {
            let excess = self.undo_stack.len() - max;
            let ghost before = self.undo_stack@;
            let kept = self.undo_stack.split_off(excess);
            self.undo_stack = kept;
            assert(edits_of(before.subrange(excess as int, before.len() as int)) =~= edits_of(
                before,
            ).skip(excess as int));
        }
    }

    /// Sets a limit on the undo history (`None`: unlimited) and trims the
    /// history to it.
    pub fn set_undo_limit(&mut self, limit: Option<usize>)
        ensures
            final(self).limit() == limit,
            final(self).undo_edits() == keep_last(old(self).undo_edits(), limit),
            limit matches Some(m) ==> final(self).undo_edits().len() <= m,
            final(self).chars() == old(self).chars(),
            final(self).redo_edits() == old(self).redo_edits(),
            final(self).modified() == old(self).modified(),
    {
        self.undo_limit = limit;
        if let Some(max) = limit {
            self.enforce_undo_limit(max);
        }
    }

    /// Records an edit and trims the undo history to the limit.
    fn record(&mut self, op: EditOperation)
        ensures
            final(self).undo_edits() == keep_last(old(self).undo_edits().push(op@), old(self).limit()),
            final(self).chars() == old(self).chars(),
            final(self).redo_edits() == Seq::<(bool, usize, Seq<char>)>::empty(),
            final(self).modified(),
            final(self).limit() == old(self).limit(),
    {
        let ghost before = self.undo_stack@;
        self.undo_stack.push(op);
        assert(edits_of(self.undo_stack@) =~= edits_of(before).push(op@));
        if let Some(max) = self.undo_limit {
            self.enforce_undo_limit(max);
        }
        self.redo_stack.clear();
        assert(edits_of(self.redo_stack@) =~= Seq::<(bool, usize, Seq<char>)>::empty());
        self.modified = true;
    }

    /// Inserts `text` at the given byte offset; inside a multi-byte char it
    /// goes before that char.
    pub fn insert(&mut self, byte_pos: usize, text: &str)
        requires
            byte_pos <= bytes_of(old(self).chars()).len(),
        ensures
            inserted(*old(self), *final(self), byte_pos, text@),
            final(self).limit() matches Some(m) ==> final(self).undo_edits().len() <= m,
    {
        let char_pos = rope_byte_to_char(&self.rope, byte_pos);
        proof {
            lemma_char_of_byte_bounds(self.chars(), byte_pos as int);
        }
        rope_insert(&mut self.rope, char_pos, text);
        self.record(EditOperation::Insert { pos: byte_pos, text: String::from_str(text) });
    }

    /// Deletes the chars that the byte offsets `start` and `end` fall in, from
    /// the first up to the second.
    pub fn delete(&mut self, start: usize, end: usize)
        requires
            start <= bytes_of(old(self).chars()).len(),
            end <= bytes_of(old(self).chars()).len(),
            char_of_byte(old(self).chars(), start as int) <= char_of_byte(
                old(self).chars(),
                end as int,
            ),
        ensures
            deleted(*old(self), *final(self), start, end),
            final(self).limit() matches Some(m) ==> final(self).undo_edits().len() <= m,
    {
        let char_start = rope_byte_to_char(&self.rope, start);
        let char_end = rope_byte_to_char(&self.rope, end);
        proof {
            lemma_char_of_byte_bounds(self.chars(), end as int);
        }
        let deleted = rope_slice_string(&self.rope, char_start, char_end);
        rope_remove(&mut self.rope, char_start, char_end);
        self.record(EditOperation::Delete { pos: start, text: deleted });
    }

    /// The whole text.
    pub fn text(&self) -> (res: String)
        ensures
            res@ == self.chars(),
    {
        rope_to_string(&self.rope)
    }

    /// The number of lines as the rope counts them (at least one).
    pub fn line_count(&self) -> (res: usize)
        ensures
            res == rope_line_count(self.chars()),
            res >= 1,
    {
        rope_len_lines(&self.rope)
    }

    /// Line `idx` with its line break, if there is such a line.
    pub fn line(&self, idx: usize) -> (res: Option<String>)
        ensures
            match res {
                Some(l) => idx < rope_line_count(self.chars()) && l@ == rope_line(
                    self.chars(),
                    idx as nat,
                ),
                None => idx >= rope_line_count(self.chars()),
            },
    {
        if idx >= rope_len_lines(&self.rope) {
            return None;
        }
        Some(rope_line_string(&self.rope, idx))
    }

    /// The char that the byte offset falls in, if it is inside the text.
    pub fn char_at(&self, byte_pos: usize) -> (res: Option<char>)
        ensures
            res == (if byte_pos < bytes_of(self.chars()).len() {
                Some(self.chars()[char_of_byte(self.chars(), byte_pos as int)])
            } else {
                None
            }),
    {
        if byte_pos >= rope_len_bytes(&self.rope) {
            return None;
        }
        let char_idx = rope_byte_to_char(&self.rope, byte_pos);
        proof {
            lemma_char_of_byte_bounds(self.chars(), byte_pos as int);
        }
        Some(rope_char(&self.rope, char_idx))
    }

    /// The byte offset of char column `col` of line `line`; a column past the
    /// line's end (its line break included) is taken as its end.
    pub fn byte_offset(&self, line: usize, col: usize) -> (res: Option<usize>)
        ensures
            res == offset_of(self.chars(), line, col),
            res is Some ==> 0 <= offset_char(self.chars(), line, col) <= self.chars().len(),
            res matches Some(o) ==> o == bytes_of(
                self.chars().take(offset_char(self.chars(), line, col)),
            ).len(),
    {
        if line >= rope_len_lines(&self.rope) {
            return None;
        }
        let line_start_char = rope_line_to_char(&self.rope, line);
        let line_len_chars = rope_line_len_chars(&self.rope, line);
        let clamped_col = if col < line_len_chars {
            col
        } else {
            line_len_chars
        };
        let total = rope_len_chars(&self.rope);
        assert(line_start_char + clamped_col <= total);
        let char_idx = line_start_char + clamped_col;
        Some(rope_char_to_byte(&self.rope, char_idx))
    }

    /// The line and char column of a byte offset, if it is inside the text or
    /// at its end.
    pub fn line_col(&self, byte_pos: usize) -> (res: Option<(usize, usize)>)
        ensures
            res == line_col_of(self.chars(), byte_pos),
    {
        if byte_pos > rope_len_bytes(&self.rope) {
            return None;
        }
        let char_idx = rope_byte_to_char(&self.rope, byte_pos);
        proof {
            lemma_char_of_byte_bounds(self.chars(), byte_pos as int);
        }
        let line = rope_char_to_line(&self.rope, char_idx);
        let line_start_char = rope_line_to_char(&self.rope, line);
        let col = char_idx - line_start_char;
        Some((line, col))
    }

    pub fn is_modified(&self) -> (res: bool)
        ensures
            res == self.modified(),
    {
        self.modified
    }

    pub fn set_modified(&mut self, v: bool)
        ensures
            final(self).modified() == v,
            same_but_flag(*old(self), *final(self)),
    {
        self.modified = v;
    }

    pub fn len_bytes(&self) -> (res: usize)
        ensures
            res == bytes_of(self.chars()).len(),
    {
        rope_len_bytes(&self.rope)
    }

    pub fn len_chars(&self) -> (res: usize)
        ensures
            res == self.chars().len(),
    {
        rope_len_chars(&self.rope)
    }

    pub fn is_empty(&self) -> (res: bool)
        ensures
            res == (self.chars().len() == 0),
    {
        proof {
            lemma_bytes_len(self.chars());
        }
        rope_len_bytes(&self.rope) == 0
    }

    /// The number of chars of a line, its line break included; 0 past the
    /// last line.
    pub fn line_len_chars(&self, line: usize) -> (res: usize)
        ensures
            res == (if line < rope_line_count(self.chars()) {
                rope_line(self.chars(), line as nat).len()
            } else {
                0
            }),
    {
        if line >= rope_len_lines(&self.rope) {
            return 0;
        }
        rope_line_len_chars(&self.rope, line)
    }

    /// Moves the bytes `start..end` to byte offset `dest`. An empty or
    /// out-of-range span, or a `dest` inside the span, leaves the buffer as
    /// it is.
    pub fn move_text(&mut self, start: usize, end: usize, dest: usize)
        requires
            span_ok(old(self).chars(), start, end) && !(start <= dest <= end) ==> {
                &&& boundary(bytes_of(old(self).chars()), start as int)
                &&& boundary(bytes_of(old(self).chars()), end as int)
                &&& dest <= bytes_of(old(self).chars()).len()
            },
        ensures
            if span_ok(old(self).chars(), start, end) && !(start <= dest <= end) {
                moved(*old(self), *final(self), start, end, dest)
            } else {
                unchanged(*old(self), *final(self))
            },
    {
        if start >= end || start > self.len_bytes() || end > self.len_bytes() {
            return;
        }
        if dest >= start && dest <= end {
            return;
        }
        let ghost s = self.chars();
        let text = rope_byte_slice_string(&self.rope, start, end);
        proof {
            lemma_byte_range_chars(s, start as int, end as int, text@);
            lemma_char_of_byte_monotonic(s, start as int, end as int);
            lemma_cut_bytes_len(s, start as int, end as int);
        }
        self.delete(start, end);
        let adjusted_dest = if dest > end {
            dest - (end - start)
        } else {
            dest
        };
        self.insert(adjusted_dest, text.as_str());
    }

    /// Copies the bytes `start..end` to byte offset `dest`, leaving them
    /// where they are. An empty or out-of-range span leaves the buffer as it
    /// is.
    pub fn copy_text_to(&mut self, start: usize, end: usize, dest: usize)
        requires
            span_ok(old(self).chars(), start, end) ==> {
                &&& boundary(bytes_of(old(self).chars()), start as int)
                &&& boundary(bytes_of(old(self).chars()), end as int)
                &&& dest <= bytes_of(old(self).chars()).len()
            },
        ensures
            if span_ok(old(self).chars(), start, end) {
                inserted(
                    *old(self),
                    *final(self),
                    dest,
                    old(self).chars().subrange(
                        char_of_byte(old(self).chars(), start as int),
                        char_of_byte(old(self).chars(), end as int),
                    ),
                )
            } else {
                unchanged(*old(self), *final(self))
            },
    {
        if start >= end || start > self.len_bytes() || end > self.len_bytes() {
            return;
        }
        let ghost s = self.chars();
        let text = rope_byte_slice_string(&self.rope, start, end);
        proof {
            lemma_byte_range_chars(s, start as int, end as int, text@);
        }
        self.insert(dest, text.as_str());
    }

    /// The index of the char that a byte offset falls in.
    pub(crate) fn char_index(&self, byte_pos: usize) -> (res: usize)
        requires
            byte_pos <= bytes_of(self.chars()).len(),
        ensures
            res == char_of_byte(self.chars(), byte_pos as int),
            res <= self.chars().len(),
    {
        proof {
            lemma_char_of_byte_bounds(self.chars(), byte_pos as int);
        }
        rope_byte_to_char(&self.rope, byte_pos)
    }

    /// The byte offset where char `char_idx` starts.
    pub(crate) fn byte_index(&self, char_idx: usize) -> (res: usize)
        requires
            char_idx <= self.chars().len(),
        ensures
            res == bytes_of(self.chars().take(char_idx as int)).len(),
    {
        rope_char_to_byte(&self.rope, char_idx)
    }

    /// Removes `n` chars from char `char_start` on.
    fn remove_chars(&mut self, char_start: usize, n: usize)
        requires
            char_start + n <= old(self).chars().len(),
        ensures
            final(self).chars() == cut(old(self).chars(), char_start as int, char_start + n),
            final(self).undo_stack == old(self).undo_stack,
            final(self).redo_stack == old(self).redo_stack,
            final(self).modified == old(self).modified,
            final(self).undo_limit == old(self).undo_limit,
    {
        let total = rope_len_chars(&self.rope);
        assert(char_start + n <= total);
        rope_remove(&mut self.rope, char_start, char_start + n);
    }

    /// Reverts the last edit. Returns whether there was one.
    pub fn undo(&mut self) -> (res: bool)
        requires
            old(self).undo_fits(),
        ensures
            undone(*old(self), *final(self), res),
    {
        let ghost before = self.undo_stack@;
        let op = match self.undo_stack.pop() {
            Some(op) => op,
            None => return false,
        };
        assert(edits_of(self.undo_stack@) =~= edits_of(before).drop_last());
        match &op {
            EditOperation::Insert { pos, text } => {
                let char_start = rope_byte_to_char(&self.rope, *pos);
                let n = text.as_str().unicode_len();
                self.remove_chars(char_start, n);
            },
            EditOperation::Delete { pos, text } => {
                let char_pos = rope_byte_to_char(&self.rope, *pos);
                proof {
                    lemma_char_of_byte_bounds(self.chars(), *pos as int);
                }
                rope_insert(&mut self.rope, char_pos, text.as_str());
            },
        }
        let ghost redo_before = self.redo_stack@;
        self.redo_stack.push(op);
        assert(edits_of(self.redo_stack@) =~= edits_of(redo_before).push(op@));
        self.modified = true;
        true
    }

    /// Makes the last undone edit again. Returns whether there was one.
    pub fn redo(&mut self) -> (res: bool)
        requires
            old(self).redo_fits(),
        ensures
            redone(*old(self), *final(self), res),
    {
        let ghost before = self.redo_stack@;
        let op = match self.redo_stack.pop() {
            Some(op) => op,
            None => return false,
        };
        assert(edits_of(self.redo_stack@) =~= edits_of(before).drop_last());
        match &op {
            EditOperation::Insert { pos, text } => {
                let char_pos = rope_byte_to_char(&self.rope, *pos);
                proof {
                    lemma_char_of_byte_bounds(self.chars(), *pos as int);
                }
                rope_insert(&mut self.rope, char_pos, text.as_str());
            },
            EditOperation::Delete { pos, text } => {
                let char_start = rope_byte_to_char(&self.rope, *pos);
                let n = text.as_str().unicode_len();
                self.remove_chars(char_start, n);
            },
        }
        let ghost undo_before = self.undo_stack@;
        self.undo_stack.push(op);
        assert(edits_of(self.undo_stack@) =~= edits_of(undo_before).push(op@));
        self.modified = true;
        true
    }
}

// ---------------------------------------------------------------------------
// Laws of the history
// ---------------------------------------------------------------------------

/// A history that keeps at least one edit ends with the edit pushed last.
proof fn lemma_keep_last_push(
    edits: Seq<(bool, usize, Seq<char>)>,
    e: (bool, usize, Seq<char>),
    limit: Option<usize>,
)
    requires
        limit != Some(0usize),
    ensures
        keep_last(edits.push(e), limit).len() > 0,
        keep_last(edits.push(e), limit).last() == e,
{
}

/// Undoing an insertion made at a char boundary gives back the text from
/// before it, and redoing it then gives back the text with it, where the undo
/// history keeps at least one edit.
pub proof fn law_undo_redo_insert(
    b0: TextBuffer,
    b1: TextBuffer,
    b2: TextBuffer,
    b3: TextBuffer,
    pos: usize,
    t: Seq<char>,
    undo_res: bool,
    redo_res: bool,
)
    requires
        pos <= bytes_of(b0.chars()).len(),
        boundary(bytes_of(b0.chars()), pos as int),
        b0.limit() != Some(0usize),
        inserted(b0, b1, pos, t),
        undone(b1, b2, undo_res),
        redone(b2, b3, redo_res),
    ensures
        b1.undo_fits(),
        undo_res,
        b2.chars() == b0.chars(),
        b2.redo_fits(),
        redo_res,
        b3.chars() == b1.chars(),
{
    lemma_keep_last_push(b0.undo_edits(), (true, pos, t), b0.limit());
    lemma_insert_reverts(b0.chars(), pos, t);
}

/// Undoing a deletion between two char boundaries gives back the text from
/// before it, and redoing it then gives back the text without the span, where
/// the undo history keeps at least one edit.
pub proof fn law_undo_redo_delete(
    b0: TextBuffer,
    b1: TextBuffer,
    b2: TextBuffer,
    b3: TextBuffer,
    start: usize,
    end: usize,
    undo_res: bool,
    redo_res: bool,
)
    requires
        start <= end <= bytes_of(b0.chars()).len(),
        boundary(bytes_of(b0.chars()), start as int),
        boundary(bytes_of(b0.chars()), end as int),
        b0.limit() != Some(0usize),
        deleted(b0, b1, start, end),
        undone(b1, b2, undo_res),
        redone(b2, b3, redo_res),
    ensures
        b1.undo_fits(),
        undo_res,
        b2.chars() == b0.chars(),
        b2.redo_fits(),
        redo_res,
        b3.chars() == b1.chars(),
{
    let s0 = b0.chars();
    let a = char_of_byte(s0, start as int);
    let z = char_of_byte(s0, end as int);
    lemma_keep_last_push(b0.undo_edits(), (false, start, s0.subrange(a, z)), b0.limit());
    lemma_delete_reverts(s0, start, end);
    lemma_char_of_byte_monotonic(s0, start as int, end as int);
    lemma_char_of_byte_bounds(s0, start as int);
    lemma_char_of_byte_bounds(s0, end as int);
    assert(s0.subrange(a, z).len() == z - a);
}

/// An insertion at a char boundary can be reverted within the text, and
/// reverting it gives back the text from before it.
proof fn lemma_insert_reverts(s0: Seq<char>, pos: usize, t: Seq<char>)
    requires
        pos <= bytes_of(s0).len(),
        boundary(bytes_of(s0), pos as int),
    ensures
        edit_fits(apply_edit(s0, (true, pos, t)), (true, pos, t), false),
        revert_edit(apply_edit(s0, (true, pos, t)), (true, pos, t)) == s0,
{
    let s1 = apply_edit(s0, (true, pos, t));
    let k = char_of_byte(s0, pos as int);
    lemma_char_of_byte_boundary(s0, pos as int);
    lemma_char_of_byte_bounds(s0, pos as int);
    assert(s1.take(k) =~= s0.take(k));
    lemma_char_of_byte_take(s1, k);
    assert(s1 =~= s1.take(k) + (t + s0.skip(k)));
    lemma_bytes_concat(s1.take(k), t + s0.skip(k));
    assert(cut(s1, k, k + t.len()) =~= s0);
}

/// A deletion between char boundaries can be reverted within the text, and
/// reverting it gives back the text from before it.
proof fn lemma_delete_reverts(s0: Seq<char>, start: usize, end: usize)
    requires
        start <= end <= bytes_of(s0).len(),
        boundary(bytes_of(s0), start as int),
        boundary(bytes_of(s0), end as int),
    ensures
        ({
            let a = char_of_byte(s0, start as int);
            let z = char_of_byte(s0, end as int);
            let e = (false, start, s0.subrange(a, z));
            &&& edit_fits(cut(s0, a, z), e, false)
            &&& revert_edit(cut(s0, a, z), e) == s0
        }),
{
    let a = char_of_byte(s0, start as int);
    let z = char_of_byte(s0, end as int);
    let s1 = cut(s0, a, z);
    let piece = s0.subrange(a, z);
    lemma_char_of_byte_boundary(s0, start as int);
    lemma_char_of_byte_monotonic(s0, start as int, end as int);
    lemma_char_of_byte_bounds(s0, start as int);
    lemma_char_of_byte_bounds(s0, end as int);
    assert(s1.take(a) =~= s0.take(a));
    lemma_char_of_byte_take(s1, a);
    assert(s1 =~= s1.take(a) + s0.skip(z));
    lemma_bytes_concat(s1.take(a), s0.skip(z));
    assert(splice(s1, a, piece) =~= s0);
}

/// `b1` is `b0` after one edit at char boundaries: with `st.0`, inserting
/// `st.3` at byte `st.1`; else deleting the bytes `st.1..st.2`.
#[verifier::opaque]
pub open spec fn edit_step(b0: TextBuffer, b1: TextBuffer, st: (bool, usize, usize, Seq<char>)) -> bool {
    let s = bytes_of(b0.chars());
    if st.0 {
        st.1 <= s.len() && boundary(s, st.1 as int) && inserted(b0, b1, st.1, st.3)
    } else {
        st.1 <= st.2 <= s.len() && boundary(s, st.1 as int) && boundary(s, st.2 as int) && deleted(
            b0,
            b1,
            st.1,
            st.2,
        )
    }
}

/// Without an undo limit, an edit step records one edit, which can be
/// undone and which undone gives back the text from before it.
proof fn lemma_step_undoes(b0: TextBuffer, b1: TextBuffer, st: (bool, usize, usize, Seq<char>))
    requires
        edit_step(b0, b1, st),
        b0.limit() is None,
    ensures
        b1.limit() is None,
        b1.undo_edits().len() == b0.undo_edits().len() + 1,
        b1.undo_edits().drop_last() == b0.undo_edits(),
        b1.undo_fits(),
        revert_edit(b1.chars(), b1.undo_edits().last()) == b0.chars(),
        edit_fits(b0.chars(), b1.undo_edits().last(), true),
        apply_edit(b0.chars(), b1.undo_edits().last()) == b1.chars(),
{
    reveal(edit_step);
    if st.0 {
        lemma_insert_reverts(b0.chars(), st.1, st.3);
        assert(b1.undo_edits().drop_last() =~= b0.undo_edits());
    } else {
        lemma_delete_reverts(b0.chars(), st.1, st.2);
        lemma_char_of_byte_monotonic(b0.chars(), st.1 as int, st.2 as int);
        lemma_char_of_byte_bounds(b0.chars(), st.2 as int);
        let a = char_of_byte(b0.chars(), st.1 as int);
        let z = char_of_byte(b0.chars(), st.2 as int);
        lemma_char_of_byte_bounds(b0.chars(), st.1 as int);
        assert(b0.chars().subrange(a, z).len() == z - a);
        assert(apply_edit(b0.chars(), (false, st.1, b0.chars().subrange(a, z))) == cut(b0.chars(), a, z));
        assert(b1.undo_edits().drop_last() =~= b0.undo_edits());
    }
}

/// The edit that step `i` of a run recorded.
pub open spec fn step_edit(bufs: Seq<TextBuffer>, i: int) -> (bool, usize, Seq<char>) {
    bufs[i + 1].undo_edits().last()
}

/// The edits of the last `j` of `n` steps, latest first: the redo history
/// that `j` undos after them add.
pub open spec fn undone_edits(bufs: Seq<TextBuffer>, n: int, j: int) -> Seq<(bool, usize, Seq<char>)> {
    Seq::new(j as nat, |m: int| step_edit(bufs, n - 1 - m))
}

proof fn lemma_steps_unlimited(
    bufs: Seq<TextBuffer>,
    steps: Seq<(bool, usize, usize, Seq<char>)>,
    i: int,
)
    requires
        bufs.len() == steps.len() + 1,
        bufs[0].limit() is None,
        forall|k: int| 0 <= k < steps.len() ==> edit_step(#[trigger] bufs[k], bufs[k + 1], steps[k]),
        0 <= i <= steps.len(),
    ensures
        bufs[i].limit() is None,
    decreases i,
{
    if i > 0 {
        lemma_steps_unlimited(bufs, steps, i - 1);
        lemma_step_undoes(bufs[i - 1], bufs[i], steps[i - 1]);
    }
}

/// `undos[k + 1]` is `undos[k]` after an undo that returned `results[k]`.
#[verifier::opaque]
spec fn undo_chain(undos: Seq<TextBuffer>, results: Seq<bool>, k: int) -> bool {
    undone(undos[k], undos[k + 1], results[k])
}

proof fn lemma_undo_back(
    bufs: Seq<TextBuffer>,
    steps: Seq<(bool, usize, usize, Seq<char>)>,
    undos: Seq<TextBuffer>,
    results: Seq<bool>,
    j: int,
)
    requires
        bufs.len() == steps.len() + 1,
        bufs[0].limit() is None,
        forall|k: int| 0 <= k < steps.len() ==> edit_step(#[trigger] bufs[k], bufs[k + 1], steps[k]),
        undos.len() == steps.len() + 2,
        results.len() == steps.len() + 1,
        undos[0] == bufs[steps.len() as int],
        forall|k: int| 0 <= k <= steps.len() ==> #[trigger] undo_chain(undos, results, k),
        0 <= j <= steps.len(),
    ensures
        undos[j].chars() == bufs[steps.len() - j].chars(),
        undos[j].undo_edits() == bufs[steps.len() - j].undo_edits(),
        undos[j].redo_edits() == bufs[steps.len() as int].redo_edits() + undone_edits(bufs, steps.len() as int, j),
        forall|k: int| 0 <= k < j ==> #[trigger] results[k] && undos[k].undo_fits(),
    decreases j,
{
    if j > 0 {
        lemma_undo_back(bufs, steps, undos, results, j - 1);
        let i = steps.len() - j;
        lemma_steps_unlimited(bufs, steps, i);
        lemma_step_undoes(bufs[i], bufs[i + 1], steps[i]);
        assert(undone(undos[j - 1], undos[j], results[j - 1])) by {
            reveal(undo_chain);
            assert(undo_chain(undos, results, j - 1));
        }
        let n = steps.len() as int;
        assert(undone_edits(bufs, n, j) =~= undone_edits(bufs, n, j - 1).push(step_edit(bufs, n - j)));
    } else {
        assert(undone_edits(bufs, steps.len() as int, 0) =~= Seq::<(bool, usize, Seq<char>)>::empty());
    }
}

/// `redos[k + 1]` is `redos[k]` after a redo that returned `results[k]`.
#[verifier::opaque]
spec fn redo_chain(redos: Seq<TextBuffer>, results: Seq<bool>, k: int) -> bool {
    redone(redos[k], redos[k + 1], results[k])
}

proof fn lemma_redo_forward(
    bufs: Seq<TextBuffer>,
    steps: Seq<(bool, usize, usize, Seq<char>)>,
    redos: Seq<TextBuffer>,
    redo_results: Seq<bool>,
    k: int,
)
    requires
        bufs.len() == steps.len() + 1,
        bufs[0].limit() is None,
        forall|i: int| 0 <= i < steps.len() ==> edit_step(#[trigger] bufs[i], bufs[i + 1], steps[i]),
        redos.len() == steps.len() + 1,
        redo_results.len() == steps.len(),
        redos[0].chars() == bufs[0].chars(),
        redos[0].redo_edits() == bufs[steps.len() as int].redo_edits() + undone_edits(
            bufs,
            steps.len() as int,
            steps.len() as int,
        ),
        forall|i: int| 0 <= i < steps.len() ==> #[trigger] redo_chain(redos, redo_results, i),
        0 <= k <= steps.len(),
    ensures
        redos[k].chars() == bufs[k].chars(),
        redos[k].redo_edits() == bufs[steps.len() as int].redo_edits() + undone_edits(
            bufs,
            steps.len() as int,
            steps.len() - k,
        ),
        forall|i: int| 0 <= i < k ==> #[trigger] redo_results[i] && redos[i].redo_fits(),
    decreases k,
{
    if k > 0 {
        let n = steps.len() as int;
        let i = k - 1;
        lemma_redo_forward(bufs, steps, redos, redo_results, i);
        lemma_steps_unlimited(bufs, steps, i);
        lemma_step_undoes(bufs[i], bufs[i + 1], steps[i]);
        assert(redone(redos[i], redos[k], redo_results[i])) by {
            reveal(redo_chain);
            assert(redo_chain(redos, redo_results, i));
        }
        let r0 = bufs[n].redo_edits();
        let before = undone_edits(bufs, n, n - i);
        assert(before.last() == step_edit(bufs, i));
        assert((r0 + before).last() == before.last());
        assert((r0 + before).drop_last() =~= r0 + undone_edits(bufs, n, n - k));
    }
}

/// Every undone edit can be redone: after the undos of `law_undo_all`, as
/// many redos in a row (`redos[k + 1]` is `redos[k]` after one) each
/// succeed and can be made, and the text after `k` of them is the text
/// after the first `k` edits; after all of them it is the text after all
/// the edits.
pub proof fn law_redo_all(
    bufs: Seq<TextBuffer>,
    steps: Seq<(bool, usize, usize, Seq<char>)>,
    undos: Seq<TextBuffer>,
    results: Seq<bool>,
    redos: Seq<TextBuffer>,
    redo_results: Seq<bool>,
)
    requires
        bufs.len() == steps.len() + 1,
        bufs[0].limit() is None,
        forall|i: int| 0 <= i < steps.len() ==> edit_step(#[trigger] bufs[i], bufs[i + 1], steps[i]),
        undos.len() == steps.len() + 2,
        results.len() == steps.len() + 1,
        undos[0] == bufs[steps.len() as int],
        forall|j: int| 0 <= j <= steps.len() ==> undone(#[trigger] undos[j], undos[j + 1], results[j]),
        redos.len() == steps.len() + 1,
        redo_results.len() == steps.len(),
        redos[0] == undos[steps.len() as int],
        forall|k: int| 0 <= k < steps.len() ==> redone(#[trigger] redos[k], redos[k + 1], redo_results[k]),
    ensures
        forall|k: int| 0 <= k < steps.len() ==> #[trigger] redo_results[k] && redos[k].redo_fits(),
        forall|k: int| 0 <= k <= steps.len() ==> #[trigger] redos[k].chars() == bufs[k].chars(),
{
    let n = steps.len() as int;
    assert forall|k: int| 0 <= k <= n implies #[trigger] undo_chain(undos, results, k) by {
        reveal(undo_chain);
    }
    assert forall|k: int| 0 <= k < n implies #[trigger] redo_chain(redos, redo_results, k) by {
        reveal(redo_chain);
    }
    lemma_undo_back(bufs, steps, undos, results, n);
    assert forall|k: int| 0 <= k <= n implies #[trigger] redos[k].chars() == bufs[k].chars() by {
        lemma_redo_forward(bufs, steps, redos, redo_results, k);
    }
    lemma_redo_forward(bufs, steps, redos, redo_results, n);
}

/// A redo right after any number `j` of the undos of `law_undo_all` (at
/// least one) succeeds, can be made, and gives back the text from before
/// the last of them.
pub proof fn law_redo_after_undos(
    bufs: Seq<TextBuffer>,
    steps: Seq<(bool, usize, usize, Seq<char>)>,
    undos: Seq<TextBuffer>,
    results: Seq<bool>,
    j: int,
    b: TextBuffer,
    res: bool,
)
    requires
        bufs.len() == steps.len() + 1,
        bufs[0].limit() is None,
        forall|i: int| 0 <= i < steps.len() ==> edit_step(#[trigger] bufs[i], bufs[i + 1], steps[i]),
        undos.len() == steps.len() + 2,
        results.len() == steps.len() + 1,
        undos[0] == bufs[steps.len() as int],
        forall|k: int| 0 <= k <= steps.len() ==> undone(#[trigger] undos[k], undos[k + 1], results[k]),
        1 <= j <= steps.len(),
        redone(undos[j], b, res),
    ensures
        undos[j].redo_fits(),
        res,
        b.chars() == undos[j - 1].chars(),
{
    let n = steps.len() as int;
    assert forall|k: int| 0 <= k <= n implies #[trigger] undo_chain(undos, results, k) by {
        reveal(undo_chain);
    }
    lemma_undo_back(bufs, steps, undos, results, j);
    lemma_undo_back(bufs, steps, undos, results, j - 1);
    let i = n - j;
    lemma_steps_unlimited(bufs, steps, i);
    lemma_step_undoes(bufs[i], bufs[i + 1], steps[i]);
    let r0 = bufs[n].redo_edits();
    let u = undone_edits(bufs, n, j);
    assert(u.last() == step_edit(bufs, i));
    assert((r0 + u).last() == u.last());
}

/// An insertion or a deletion clears the redo history: a redo right after
/// it fails and leaves the buffer as it is.
pub proof fn law_edit_clears_redo(
    b0: TextBuffer,
    b1: TextBuffer,
    b2: TextBuffer,
    st: (bool, usize, usize, Seq<char>),
    res: bool,
)
    requires
        (st.0 && inserted(b0, b1, st.1, st.3)) || (!st.0 && deleted(b0, b1, st.1, st.2)),
        redone(b1, b2, res),
    ensures
        !res,
        b2.chars() == b1.chars(),
        b2.undo_edits() == b1.undo_edits(),
        b2.redo_edits().len() == 0,
{
}

/// Every edit can be undone: on a buffer without an undo limit, after
/// insertions and deletions at char boundaries (`bufs[i + 1]` is `bufs[i]`
/// after `steps[i]`, see `edit_step`), as many undos in a row (`undos[j +
/// 1]` is `undos[j]` after one) each succeed and can be made, and give back
/// the text from before the first edit; from a buffer without history, one
/// more undo then fails and keeps that text.
pub proof fn law_undo_all(
    bufs: Seq<TextBuffer>,
    steps: Seq<(bool, usize, usize, Seq<char>)>,
    undos: Seq<TextBuffer>,
    results: Seq<bool>,
)
    requires
        bufs.len() == steps.len() + 1,
        bufs[0].limit() is None,
        forall|i: int| 0 <= i < steps.len() ==> edit_step(#[trigger] bufs[i], bufs[i + 1], steps[i]),
        undos.len() == steps.len() + 2,
        results.len() == steps.len() + 1,
        undos[0] == bufs[steps.len() as int],
        forall|j: int| 0 <= j <= steps.len() ==> undone(#[trigger] undos[j], undos[j + 1], results[j]),
    ensures
        forall|j: int| 0 <= j < steps.len() ==> #[trigger] results[j] && undos[j].undo_fits(),
        undos[steps.len() as int].chars() == bufs[0].chars(),
        bufs[0].undo_edits().len() == 0 ==> !results[steps.len() as int] && undos[steps.len() as int + 1].chars()
            == bufs[0].chars(),
{
    let n = steps.len() as int;
    assert forall|k: int| 0 <= k <= n implies #[trigger] undo_chain(undos, results, k) by {
        reveal(undo_chain);
    }
    lemma_undo_back(bufs, steps, undos, results, n);
    assert(undone(undos[n], undos[n + 1], results[n]));
}

// ---------------------------------------------------------------------------
// Byte offsets and char indices
// ---------------------------------------------------------------------------

proof fn lemma_one_char_width(c: char)
    ensures
        bytes_of(seq![c]).len() >= 1,
        bytes_of(seq![c]) == encode_scalar(c as u32),
{
    lemma_bytes_len(seq![c]);
    let one = seq![c];
    assert(one[0] == c);
    assert(one.drop_first() =~= Seq::<char>::empty());
    assert(bytes_of(one) == encode_scalar(c as u32) + bytes_of(one.drop_first()));
    assert(bytes_of(Seq::<char>::empty()) =~= Seq::<u8>::empty());
    assert(bytes_of(one) =~= encode_scalar(c as u32));
}

/// The char index of a byte offset lies within the text, and before its end
/// for an offset inside the text.
pub proof fn lemma_char_of_byte_bounds(s: Seq<char>, b: int)
    requires
        0 <= b,
    ensures
        0 <= char_of_byte(s, b) <= s.len(),
        b < bytes_of(s).len() ==> char_of_byte(s, b) < s.len(),
        b >= bytes_of(s).len() ==> char_of_byte(s, b) == s.len(),
    decreases s.len(),
{
    if s.len() > 0 {
        let w = bytes_of(seq![s[0]]).len() as int;
        lemma_one_char_width(s[0]);
        assert(s =~= seq![s[0]] + s.drop_first());
        lemma_bytes_concat(seq![s[0]], s.drop_first());
        if b >= w {
            lemma_char_of_byte_bounds(s.drop_first(), b - w);
        }
    } else {
        lemma_bytes_len(s);
    }
}

/// The bytes before char `k` are no more than all of them.
pub proof fn lemma_prefix_bytes(s: Seq<char>, k: int)
    requires
        0 <= k <= s.len(),
    ensures
        bytes_of(s.take(k)).len() <= bytes_of(s).len(),
{
    assert(s =~= s.take(k) + s.skip(k));
    lemma_bytes_concat(s.take(k), s.skip(k));
}

/// The char index grows with the byte offset.
pub proof fn lemma_char_of_byte_monotonic(s: Seq<char>, a: int, b: int)
    requires
        0 <= a <= b,
    ensures
        char_of_byte(s, a) <= char_of_byte(s, b),
    decreases s.len(),
{
    if s.len() > 0 {
        let w = bytes_of(seq![s[0]]).len() as int;
        if a >= w {
            lemma_char_of_byte_monotonic(s.drop_first(), a - w, b - w);
        } else if b >= w {
            lemma_char_of_byte_bounds(s.drop_first(), b - w);
        }
    }
}

/// The byte offset where char `k` starts belongs to char `k`.
pub proof fn lemma_char_of_byte_take(s: Seq<char>, k: int)
    requires
        0 <= k <= s.len(),
    ensures
        char_of_byte(s, bytes_of(s.take(k)).len() as int) == k,
    decreases s.len(),
{
    if s.len() > 0 {
        lemma_one_char_width(s[0]);
        let rest = s.drop_first();
        if k == 0 {
            assert(s.take(0) =~= Seq::<char>::empty());
            lemma_bytes_len(s.take(0));
        } else {
            lemma_char_of_byte_take(rest, k - 1);
            assert(s.take(k) =~= seq![s[0]] + rest.take(k - 1));
            lemma_bytes_concat(seq![s[0]], rest.take(k - 1));
        }
    } else {
        assert(s.take(k) =~= Seq::<char>::empty());
        lemma_bytes_len(s.take(k));
    }
}

/// At a char boundary, the chars before the offset's char take up exactly
/// the bytes before the offset.
pub proof fn lemma_char_of_byte_boundary(s: Seq<char>, i: int)
    requires
        0 <= i <= bytes_of(s).len(),
        boundary(bytes_of(s), i),
    ensures
        bytes_of(s.take(char_of_byte(s, i))).len() == i,
    decreases s.len(),
{
    lemma_boundary_iff(s, i);
    let b = bytes_of(s);
    encode_utf8_valid_utf8(s);
    if i == 0 {
        if s.len() > 0 {
            lemma_one_char_width(s[0]);
        }
        assert(s.take(char_of_byte(s, i)) =~= Seq::<char>::empty());
        lemma_bytes_len(s.take(char_of_byte(s, i)));
    } else {
        lemma_bytes_len(s);
        let rest = s.drop_first();
        let w = bytes_of(seq![s[0]]).len() as int;
        lemma_one_char_width(s[0]);
        encode_utf8_first_scalar(s);
        assert(s =~= seq![s[0]] + rest);
        lemma_bytes_concat(seq![s[0]], rest);
        assert(pop_first_scalar(b) =~= bytes_of(rest));
        assert(is_char_boundary(bytes_of(rest), i - w));
        encode_utf8_valid_utf8(rest);
        lemma_boundary_iff(rest, i - w);
        lemma_char_of_byte_boundary(rest, i - w);
        let k = char_of_byte(rest, i - w);
        lemma_char_of_byte_bounds(rest, i - w);
        assert(s.take(k + 1) =~= seq![s[0]] + rest.take(k));
        lemma_bytes_concat(seq![s[0]], rest.take(k));
    }
}

/// Cutting out the chars between two char boundaries leaves the bytes
/// outside them.
pub proof fn lemma_cut_bytes_len(s: Seq<char>, start: int, end: int)
    requires
        0 <= start <= end <= bytes_of(s).len(),
        boundary(bytes_of(s), start),
        boundary(bytes_of(s), end),
    ensures
        bytes_of(cut(s, char_of_byte(s, start), char_of_byte(s, end))).len() == bytes_of(s).len()
            - (end - start),
{
    let a = char_of_byte(s, start);
    let z = char_of_byte(s, end);
    lemma_char_of_byte_boundary(s, start);
    lemma_char_of_byte_boundary(s, end);
    lemma_char_of_byte_bounds(s, start);
    lemma_char_of_byte_bounds(s, end);
    assert(s =~= s.take(z) + s.skip(z));
    lemma_bytes_concat(s.take(z), s.skip(z));
    lemma_bytes_concat(s.take(a), s.skip(z));
}

/// The bytes between two char boundaries encode the chars between the
/// offsets' chars.
pub proof fn lemma_byte_range_chars(s: Seq<char>, start: int, end: int, t: Seq<char>)
    requires
        0 <= start <= end <= bytes_of(s).len(),
        boundary(bytes_of(s), start),
        boundary(bytes_of(s), end),
        bytes_of(t) == bytes_of(s).subrange(start, end),
    ensures
        t == s.subrange(char_of_byte(s, start), char_of_byte(s, end)),
{
    let a = char_of_byte(s, start);
    let z = char_of_byte(s, end);
    lemma_char_of_byte_boundary(s, start);
    lemma_char_of_byte_boundary(s, end);
    lemma_char_of_byte_monotonic(s, start, end);
    lemma_char_of_byte_bounds(s, start);
    lemma_char_of_byte_bounds(s, end);
    let mid = s.subrange(a, z);
    assert(s.take(z) =~= s.take(a) + mid);
    assert(s =~= s.take(z) + s.skip(z));
    lemma_bytes_concat(s.take(a), mid);
    lemma_bytes_concat(s.take(z), s.skip(z));
    assert(bytes_of(s).subrange(start, end) =~= bytes_of(mid));
    encode_utf8_decode_utf8(t);
    encode_utf8_decode_utf8(mid);
}

} // verus!
