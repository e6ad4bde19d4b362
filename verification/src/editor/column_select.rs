//! Column (rectangular) selection.
//!
//! A selection is a rectangle of rows and character columns, all 0-indexed,
//! spanned by an anchor (`start_*`) and a moving corner (`end_*`).
use vstd::prelude::*;
use crate::text::{join, join_chars, lines_of, push_range, seqs_of, split_lines, str_chars, string_from_chars};

verus! {

/// A rectangular selection between an anchor and a moving corner.
#[derive(Debug, Clone, Copy)]
pub struct ColumnSelection {
    pub active: bool,
    pub start_row: usize,
    pub start_col: usize,
    pub end_row: usize,
    pub end_col: usize,
}

/// The smaller of two numbers.
pub open spec fn min_of(a: int, b: int) -> int {
    if a <= b {
        a
    } else {
        b
    }
}

/// The larger of two numbers.
pub open spec fn max_of(a: int, b: int) -> int {
    if a >= b {
        a
    } else {
        b
    }
}

/// The characters of line `l` in columns `[c0, c1)`, both clamped to the
/// line's length.
pub open spec fn piece(l: Seq<char>, c0: int, c1: int) -> Seq<char> {
    l.subrange(min_of(c0, l.len() as int), min_of(c1, l.len() as int))
}

/// Line `l` without its columns `[c0, c1)`, both clamped to its length.
pub open spec fn cut(l: Seq<char>, c0: int, c1: int) -> Seq<char> {
    l.take(min_of(c0, l.len() as int)) + l.skip(min_of(c1, l.len() as int))
}

/// Line `l` with its columns `[c0, c1)` replaced by `ins`.
pub open spec fn splice(l: Seq<char>, c0: int, c1: int, ins: Seq<char>) -> Seq<char> {
    l.take(min_of(c0, l.len() as int)) + ins + l.skip(min_of(c1, l.len() as int))
}

/// `body` with a newline after it when `text` ends with one.
pub open spec fn keep_final_newline(text: Seq<char>, body: Seq<char>) -> Seq<char> {
    if text.len() > 0 && text.last() == '\n' {
        body.push('\n')
    } else {
        body
    }
}

/// The text to put on row `offset` of the selection, from the lines of the
/// inserted text: the one line when there is one, else the line at `offset`,
/// else nothing.
pub open spec fn insert_piece(ins: Seq<Seq<char>>, offset: int) -> Seq<char> {
    if ins.len() == 1 {
        ins[0]
    } else if offset < ins.len() {
        ins[offset]
    } else {
        seq![]
    }
}

impl ColumnSelection {
    /// The first and last selected row.
    pub open spec fn row_span(self) -> (int, int) {
        (
            min_of(self.start_row as int, self.end_row as int),
            max_of(self.start_row as int, self.end_row as int),
        )
    }

    /// The first selected column and the column just past the selection.
    pub open spec fn col_span(self) -> (int, int) {
        (
            min_of(self.start_col as int, self.end_col as int),
            max_of(self.start_col as int, self.end_col as int),
        )
    }

    /// The text `extract_text` gives for `text`.
    pub open spec fn extracted(self, text: Seq<char>) -> Seq<char> {
        if !self.active {
            seq![]
        } else {
            let ls = lines_of(text);
            let (r0, r1) = self.row_span();
            let (c0, c1) = self.col_span();
            join(
                Seq::new(
                    (r1 - r0 + 1) as nat,
                    |k: int|
                        if r0 + k < ls.len() {
                            piece(ls[r0 + k], c0, c1)
                        } else {
                            seq![]
                        },
                ),
                seq!['\n'],
            )
        }
    }

    /// The text `delete_selection` gives for `text`.
    pub open spec fn deleted(self, text: Seq<char>) -> Seq<char> {
        if !self.active {
            text
        } else {
            let ls = lines_of(text);
            let (r0, r1) = self.row_span();
            let (c0, c1) = self.col_span();
            keep_final_newline(
                text,
                join(
                    Seq::new(
                        ls.len(),
                        |i: int|
                            if r0 <= i <= r1 {
                                cut(ls[i], c0, c1)
                            } else {
                                ls[i]
                            },
                    ),
                    seq!['\n'],
                ),
            )
        }
    }

    /// The text `insert_at_selection` gives for `text` and `ins`.
    pub open spec fn inserted(self, text: Seq<char>, ins: Seq<char>) -> Seq<char> {
        if !self.active {
            text
        } else {
            let ls = lines_of(text);
            let il = lines_of(ins);
            let (r0, r1) = self.row_span();
            let (c0, c1) = self.col_span();
            keep_final_newline(
                text,
                join(
                    Seq::new(
                        ls.len(),
                        |i: int|
                            if r0 <= i <= r1 {
                                splice(ls[i], c0, c1, insert_piece(il, i - r0))
                            } else {
                                ls[i]
                            },
                    ),
                    seq!['\n'],
                ),
            )
        }
    }

    /// An inactive selection at the origin.
    pub fn new() -> (res: Self)
        ensures
            res == Self::new_spec(),
    {
        ColumnSelection { active: false, start_row: 0, start_col: 0, end_row: 0, end_col: 0 }
    }

    /// Begins a selection at the given row and column.
    pub fn start(&mut self, row: usize, col: usize)
        ensures
            final(self).active,
            final(self).start_row == row && final(self).end_row == row,
            final(self).start_col == col && final(self).end_col == col,
    {
        self.active = true;
        self.start_row = row;
        self.start_col = col;
        self.end_row = row;
        self.end_col = col;
    }

    /// Moves the selection's moving corner to the given row and column.
    pub fn extend(&mut self, row: usize, col: usize)
        ensures
            final(self).active == old(self).active,
            final(self).start_row == old(self).start_row,
            final(self).start_col == old(self).start_col,
            final(self).end_row == row && final(self).end_col == col,
    {
        self.end_row = row;
        self.end_col = col;
    }

    /// Ends the selection and moves it back to the origin.
    pub fn clear(&mut self)
        ensures
            *final(self) == Self::new_spec(),
    {
        self.active = false;
        self.start_row = 0;
        self.start_col = 0;
        self.end_row = 0;
        self.end_col = 0;
    }

    /// The value `new` and `clear` give.
    pub open spec fn new_spec() -> Self {
        ColumnSelection { active: false, start_row: 0, start_col: 0, end_row: 0, end_col: 0 }
    }

    /// The first and last selected row.
    pub fn rows(&self) -> (res: (usize, usize))
        ensures
            res.0 == self.row_span().0,
            res.1 == self.row_span().1,
    {
        if self.start_row <= self.end_row {
            (self.start_row, self.end_row)
        } else {
            (self.end_row, self.start_row)
        }
    }

    /// The first selected column and the column just past the selection.
    pub fn cols(&self) -> (res: (usize, usize))
        ensures
            res.0 == self.col_span().0,
            res.1 == self.col_span().1,
    {
        if self.start_col <= self.end_col {
            (self.start_col, self.end_col)
        } else {
            (self.end_col, self.start_col)
        }
    }

    /// The selected rectangle of `text`, one row per line, joined with
    /// newlines. Rows past the end of the text give empty lines.
    pub fn extract_text(&self, text: &str) -> (res: String)
        ensures
            res@ == self.extracted(text@),
    {
        if !self.active {
            return String::new();
        }
        let (min_row, max_row) = self.rows();
        let (min_col, max_col) = self.cols();
        let lines = split_lines(text);
        let ghost ls = lines_of(text@);
        let ghost f = |k: int|
            if min_row + k < ls.len() {
                piece(ls[min_row + k], min_col as int, max_col as int)
            } else {
                seq![]
            };
        let mut out: Vec<Vec<char>> = Vec::new();
        let mut row: usize = min_row;
        loop
            invariant_except_break
                seqs_of(out@) == Seq::new((row - min_row) as nat, f),
            invariant
                min_row <= row <= max_row,
                min_col <= max_col,
                seqs_of(lines@) == ls,
                f == (|k: int|
                    if min_row + k < ls.len() {
                        piece(ls[min_row + k], min_col as int, max_col as int)
                    } else {
                        seq![]
                    }),
            ensures
                seqs_of(out@) == Seq::new((max_row - min_row + 1) as nat, f),
            decreases max_row - row,
        {
            let mut sel: Vec<char> = Vec::new();
            if row < lines.len() {
                let l = lines[row].as_slice();
                let start = if min_col < l.len() {
                    min_col
                } else {
                    l.len()
                };
                let end = if max_col < l.len() {
                    max_col
                } else {
                    l.len()
                };
                push_range(&mut sel, l, start, end);
            }
            let ghost prev = out@;
            out.push(sel);
            proof {
                assert(sel@ == f(row - min_row));
                assert(seqs_of(out@) == seqs_of(prev).push(f(row - min_row)));
                assert(Seq::new((row - min_row + 1) as nat, f) == Seq::new(
                    (row - min_row) as nat,
                    f,
                ).push(f(row - min_row)));
            }
            if row == max_row {
                break;
            }
            row += 1;
        }
        let sep = vec!['\n'];
        let joined = join_chars(&out, sep.as_slice());
        proof {
            assert(sep@ == seq!['\n']);
        }
        string_from_chars(joined.as_slice())
    }

    /// `text` with the selected rectangle removed from every selected line.
    /// A final newline is kept.
    pub fn delete_selection(&self, text: &str) -> (res: String)
        ensures
            res@ == self.deleted(text@),
    {
        if !self.active {
            let mut out = String::new();
            out.append(text);
            return out;
        }
        let (min_row, max_row) = self.rows();
        let (min_col, max_col) = self.cols();
        let lines = split_lines(text);
        let ghost ls = lines_of(text@);
        let ghost f = |i: int|
            if min_row <= i <= max_row {
                cut(ls[i], min_col as int, max_col as int)
            } else {
                ls[i]
            };
        let mut out: Vec<Vec<char>> = Vec::new();
        let mut i: usize = 0;
        while i < lines.len()
            invariant
                i <= lines@.len(),
                seqs_of(lines@) == ls,
                seqs_of(out@) == Seq::new(i as nat, f),
                f == (|i: int|
                    if min_row <= i <= max_row {
                        cut(ls[i], min_col as int, max_col as int)
                    } else {
                        ls[i]
                    }),
            decreases lines.len() - i,
        {
            let l = lines[i].as_slice();
            let mut nl: Vec<char> = Vec::new();
            if i >= min_row && i <= max_row {
                let start = if min_col < l.len() {
                    min_col
                } else {
                    l.len()
                };
                let end = if max_col < l.len() {
                    max_col
                } else {
                    l.len()
                };
                push_range(&mut nl, l, 0, start);
                push_range(&mut nl, l, end, l.len());
                proof {
                    assert(l@.subrange(end as int, l@.len() as int) == l@.skip(end as int));
                    assert(l@.subrange(0, start as int) == l@.take(start as int));
                }
            } else {
                push_range(&mut nl, l, 0, l.len());
                proof {
                    assert(l@.subrange(0, l@.len() as int) == l@);
                }
            }
            let ghost prev = out@;
            out.push(nl);
            proof {
                assert(nl@ == f(i as int));
                assert(seqs_of(out@) == seqs_of(prev).push(f(i as int)));
                assert(Seq::new(i as nat + 1, f) == Seq::new(i as nat, f).push(f(i as int)));
            }
            i += 1;
        }
        let sep = vec!['\n'];
        let mut joined = join_chars(&out, sep.as_slice());
        proof {
            assert(sep@ == seq!['\n']);
        }
        let chars = str_chars(text);
        let n = chars.len();
        if n > 0 && chars[n - 1] == '\n' {
            joined.push('\n');
        }
        string_from_chars(joined.as_slice())
    }

    /// `text` with the selected rectangle of every selected line replaced by
    /// a line of `insert`: its only line when it has one, else the line at
    /// the same offset from the first selected row, else nothing. A final
    /// newline is kept.
    pub fn insert_at_selection(&self, text: &str, insert: &str) -> (res: String)
        ensures
            res@ == self.inserted(text@, insert@),
    {
        if !self.active {
            let mut out = String::new();
            out.append(text);
            return out;
        }
        let (min_row, max_row) = self.rows();
        let (min_col, max_col) = self.cols();
        let lines = split_lines(text);
        let ins_lines = split_lines(insert);
        let ghost ls = lines_of(text@);
        let ghost il = lines_of(insert@);
        let ghost f = |i: int|
            if min_row <= i <= max_row {
                splice(ls[i], min_col as int, max_col as int, insert_piece(il, i - min_row))
            } else {
                ls[i]
            };
        let mut out: Vec<Vec<char>> = Vec::new();
        let mut i: usize = 0;
        while i < lines.len()
            invariant
                i <= lines@.len(),
                seqs_of(lines@) == ls,
                seqs_of(ins_lines@) == il,
                seqs_of(out@) == Seq::new(i as nat, f),
                f == (|i: int|
                    if min_row <= i <= max_row {
                        splice(ls[i], min_col as int, max_col as int, insert_piece(il, i - min_row))
                    } else {
                        ls[i]
                    }),
            decreases lines.len() - i,
        {
            let l = lines[i].as_slice();
            let mut nl: Vec<char> = Vec::new();
            if i >= min_row && i <= max_row {
                let start = if min_col < l.len() {
                    min_col
                } else {
                    l.len()
                };
                let end = if max_col < l.len() {
                    max_col
                } else {
                    l.len()
                };
                let row_offset = i - min_row;
                push_range(&mut nl, l, 0, start);
                if ins_lines.len() == 1 {
                    push_range(&mut nl, ins_lines[0].as_slice(), 0, ins_lines[0].len());
                    proof {
                        assert(ins_lines[0]@.subrange(0, ins_lines[0]@.len() as int)
                            == ins_lines[0]@);
                    }
                } else if row_offset < ins_lines.len() {
                    push_range(
                        &mut nl,
                        ins_lines[row_offset].as_slice(),
                        0,
                        ins_lines[row_offset].len(),
                    );
                    proof {
                        assert(ins_lines[row_offset as int]@.subrange(
                            0,
                            ins_lines[row_offset as int]@.len() as int,
                        ) == ins_lines[row_offset as int]@);
                    }
                }
                push_range(&mut nl, l, end, l.len());
                proof {
                    assert(l@.subrange(end as int, l@.len() as int) == l@.skip(end as int));
                    assert(l@.subrange(0, start as int) == l@.take(start as int));
                }
            } else {
                push_range(&mut nl, l, 0, l.len());
                proof {
                    assert(l@.subrange(0, l@.len() as int) == l@);
                }
            }
            let ghost prev = out@;
            out.push(nl);
            proof {
                assert(nl@ == f(i as int));
                assert(seqs_of(out@) == seqs_of(prev).push(f(i as int)));
                assert(Seq::new(i as nat + 1, f) == Seq::new(i as nat, f).push(f(i as int)));
            }
            i += 1;
        }
        let sep = vec!['\n'];
        let mut joined = join_chars(&out, sep.as_slice());
        proof {
            assert(sep@ == seq!['\n']);
        }
        let chars = str_chars(text);
        let n = chars.len();
        if n > 0 && chars[n - 1] == '\n' {
            joined.push('\n');
        }
        string_from_chars(joined.as_slice())
    }
}

impl Default for ColumnSelection {
    fn default() -> (res: Self)
        ensures
            res == ColumnSelection::new_spec(),
    {
        ColumnSelection::new()
    }
}

} // verus!
