//! The caret of a document and its selection anchor, in lines and columns,
//! and how it moves over a text buffer.
use vstd::prelude::*;
use crate::bytes::bytes_of;
use crate::editor::buffer::{line_col_of, offset_of, TextBuffer};
use crate::editor::rope_calls::{rope_line, rope_line_count};

verus! {

/// A position in a document: a 0-based line and a 0-based column.
#[derive(Debug, Clone, Copy, PartialEq, Eq, Structural)]
pub struct Position {
    pub line: usize,
    pub col: usize,
}

/// `a` comes no later than `b`: by line, then by column.
pub open spec fn pos_le(a: Position, b: Position) -> bool {
    a.line < b.line || (a.line == b.line && a.col <= b.col)
}

impl Position {
    /// The position at `line`, `col`.
    pub fn new(line: usize, col: usize) -> (res: Self)
        ensures
            res.line == line && res.col == col,
    {
        Position { line, col }
    }

    /// The start of the document.
    pub fn zero() -> (res: Self)
        ensures
            res.line == 0 && res.col == 0,
    {
        Position { line: 0, col: 0 }
    }
}

/// The caret and, while a selection is being made, the fixed end of it.
#[derive(Debug, Clone, Copy)]
pub struct CursorState {
    pub position: Position,
    pub anchor: Option<Position>,
}

impl Default for CursorState {
    fn default() -> (res: Self)
        ensures
            res.position == Position::zero_spec() && res.anchor is None,
    {
        CursorState::new()
    }
}

impl Position {
    /// The start of the document.
    pub open spec fn zero_spec() -> Self {
        Position { line: 0, col: 0 }
    }
}

impl CursorState {
    /// A caret at the start of the document, with no selection.
    pub fn new() -> (res: Self)
        ensures
            res.position == Position::zero_spec(),
            res.anchor is None,
    {
        CursorState { position: Position::zero(), anchor: None }
    }

    /// Whether a selection anchor is set.
    pub fn has_selection(&self) -> (res: bool)
        ensures
            res == self.anchor is Some,
    {
        self.anchor.is_some()
    }

    /// The selection between the anchor and the caret, earlier end first;
    /// `None` without an anchor.
    pub fn selected_range(&self) -> (res: Option<(Position, Position)>)
        ensures
            match self.anchor {
                None => res is None,
                Some(a) => res == Some(
                    if pos_le(a, self.position) {
                        (a, self.position)
                    } else {
                        (self.position, a)
                    },
                ),
            },
    {
        match self.anchor {
            None => None,
            Some(anchor) => {
                let p = self.position;
                if anchor.line < p.line || (anchor.line == p.line && anchor.col <= p.col) {
                    Some((anchor, p))
                } else {
                    Some((p, anchor))
                }
            },
        }
    }

    /// Drops the selection anchor.
    pub fn clear_selection(&mut self)
        ensures
            final(self).position == old(self).position,
            final(self).anchor is None,
    {
        self.anchor = None;
    }

    /// Anchors a selection at the caret, unless one is anchored already.
    pub fn start_selection(&mut self)
        ensures
            final(self).position == old(self).position,
            final(self).anchor == if old(self).anchor is None {
                Some(old(self).position)
            } else {
                old(self).anchor
            },
    {
        if self.anchor.is_none() {
            self.anchor = Some(self.position);
        }
    }

    /// Moves the caret to the start of its line and drops the selection.
    pub fn move_home(&mut self)
        ensures
            final(self).position == Position::new_spec(old(self).position.line, 0),
            final(self).anchor is None,
    {
        self.anchor = None;
        self.position.col = 0;
    }

    /// Moves the caret to `line`, `col` and drops the selection.
    pub fn set_position(&mut self, line: usize, col: usize)
        ensures
            final(self).position == Position::new_spec(line, col),
            final(self).anchor is None,
    {
        self.position = Position::new(line, col);
        self.anchor = None;
    }
}

impl Position {
    /// The position at `line`, `col`.
    pub open spec fn new_spec(line: usize, col: usize) -> Self {
        Position { line, col }
    }
}

/// The number of line-break chars (`\n`, `\r`) that a line ends with.
pub open spec fn trailing_breaks(l: Seq<char>) -> nat
    decreases l.len(),
{
    if l.len() > 0 && (l.last() == '\n' || l.last() == '\r') {
        1 + trailing_breaks(l.drop_last())
    } else {
        0
    }
}

/// The number of chars of line `line` without its line break; 0 past the
/// last line.
pub open spec fn line_text_len(s: Seq<char>, line: usize) -> nat {
    if line < rope_line_count(s) {
        (rope_line(s, line as nat).len() - trailing_breaks(rope_line(s, line as nat))) as nat
    } else {
        0
    }
}

/// One char left; from a line start, the end of the previous line.
pub open spec fn left_of(s: Seq<char>, p: Position) -> Position {
    if p.col > 0 {
        Position { line: p.line, col: (p.col - 1) as usize }
    } else if p.line > 0 {
        let l = (p.line - 1) as usize;
        Position { line: l, col: line_text_len(s, l) as usize }
    } else {
        p
    }
}

/// One char right; from a line end, the start of the next line.
pub open spec fn right_of(s: Seq<char>, p: Position) -> Position {
    if p.col < line_text_len(s, p.line) {
        Position { line: p.line, col: (p.col + 1) as usize }
    } else if p.line + 1 < rope_line_count(s) {
        Position { line: (p.line + 1) as usize, col: 0 }
    } else {
        p
    }
}

/// Column `col` of line `l`, or its end where it is shorter.
pub open spec fn clamped(s: Seq<char>, l: usize, col: usize) -> Position {
    let len = line_text_len(s, l);
    Position {
        line: l,
        col: if col < len {
            col
        } else {
            len as usize
        },
    }
}

/// One line up.
pub open spec fn up_of(s: Seq<char>, p: Position) -> Position {
    if p.line > 0 {
        clamped(s, (p.line - 1) as usize, p.col)
    } else {
        p
    }
}

/// One line down.
pub open spec fn down_of(s: Seq<char>, p: Position) -> Position {
    if p.line + 1 < rope_line_count(s) {
        clamped(s, (p.line + 1) as usize, p.col)
    } else {
        p
    }
}

/// The end of the line, before its line break.
pub open spec fn end_of(s: Seq<char>, p: Position) -> Position {
    Position { line: p.line, col: line_text_len(s, p.line) as usize }
}

/// ASCII letters and digits and `_` make up words.
pub open spec fn is_word_byte(b: u8) -> bool {
    (0x30 <= b <= 0x39) || (0x41 <= b <= 0x5A) || (0x61 <= b <= 0x7A) || b == 0x5F
}

/// The first index from `i` on that is not inside a word.
pub open spec fn skip_word(b: Seq<u8>, i: int) -> int
    decreases b.len() - i,
{
    if 0 <= i < b.len() && is_word_byte(b[i]) {
        skip_word(b, i + 1)
    } else {
        i
    }
}

/// The first index from `i` on that starts a word, or the end.
pub open spec fn skip_other(b: Seq<u8>, i: int) -> int
    decreases b.len() - i,
{
    if 0 <= i < b.len() && !is_word_byte(b[i]) {
        skip_other(b, i + 1)
    } else {
        i
    }
}

/// Going back from `i` over word bytes: where the word ends start.
pub open spec fn back_word(b: Seq<u8>, i: int) -> int
    decreases i,
{
    if 0 < i <= b.len() && is_word_byte(b[i - 1]) {
        back_word(b, i - 1)
    } else {
        i
    }
}

/// Going back from `i` over bytes outside words.
pub open spec fn back_other(b: Seq<u8>, i: int) -> int
    decreases i,
{
    if 0 < i <= b.len() && !is_word_byte(b[i - 1]) {
        back_other(b, i - 1)
    } else {
        i
    }
}

/// The position of a byte offset of the text, or `fallback` past its end.
pub open spec fn position_at(s: Seq<char>, i: int, fallback: Position) -> Position {
    match line_col_of(s, i as usize) {
        Some((l, c)) => Position { line: l, col: c },
        None => fallback,
    }
}

/// Where a word-right move from `p` lands: past the rest of the word and the
/// gap after it.
pub open spec fn word_right_of(s: Seq<char>, p: Position) -> Position {
    match offset_of(s, p.line, p.col) {
        Some(o) => position_at(s, skip_other(bytes_of(s), skip_word(bytes_of(s), o as int)), p),
        None => p,
    }
}

/// Where a word-left move from `p` lands: back over the gap before it and
/// the word before that.
pub open spec fn word_left_of(s: Seq<char>, p: Position) -> Position {
    match offset_of(s, p.line, p.col) {
        Some(o) => if o == 0 {
            p
        } else {
            position_at(s, back_word(bytes_of(s), back_other(bytes_of(s), o as int)), p)
        },
        None => p,
    }
}

/// The selection `select_word` makes from `p`, as (anchor, caret): the word
/// the caret is on; `None` off a word.
pub open spec fn word_selection(s: Seq<char>, p: Position) -> Option<(Position, Position)> {
    let b = bytes_of(s);
    match offset_of(s, p.line, p.col) {
        Some(o) => if o >= b.len() || !is_word_byte(b[o as int]) {
            None
        } else {
            match (
                line_col_of(s, back_word(b, o as int) as usize),
                line_col_of(s, skip_word(b, o as int) as usize),
            ) {
                (Some((sl, sc)), Some((el, ec))) => Some(
                    (Position { line: sl, col: sc }, Position { line: el, col: ec }),
                ),
                _ => None,
            }
        },
        None => None,
    }
}

fn is_word_byte_exec(b: u8) -> (res: bool)
    ensures
        res == is_word_byte(b),
{
    (b >= 0x30 && b <= 0x39) || (b >= 0x41 && b <= 0x5A) || (b >= 0x61 && b <= 0x7A) || b == 0x5F
}

/// The number of chars of a line without its line break; 0 past the last
/// line.
pub fn line_char_len(buf: &TextBuffer, line: usize) -> (res: usize)
    ensures
        res == line_text_len(buf.chars(), line),
{
    let text = match buf.line(line) {
        Some(t) => t,
        None => return 0,
    };
    let chars = crate::text::str_chars(text.as_str());
    let mut n = chars.len();
    assert(chars@.take(n as int) =~= chars@);
    while n > 0 && (chars[n - 1] == '\n' || chars[n - 1] == '\r')
        invariant
            n <= chars@.len(),
            trailing_breaks(chars@) == (chars@.len() - n) + trailing_breaks(chars@.take(n as int)),
        decreases n,
    {
        assert(chars@.take(n as int).drop_last() =~= chars@.take(n - 1));
        n = n - 1;
    }
    assert(chars@.take(0) =~= Seq::<char>::empty());
    n
}

impl CursorState {
    /// One char left, to the end of the previous line from a line start;
    /// drops the selection.
    pub fn move_left(&mut self, buf: &TextBuffer)
        ensures
            final(self).anchor is None,
            final(self).position == left_of(buf.chars(), old(self).position),
    {
        self.anchor = None;
        if self.position.col > 0 {
            self.position.col = self.position.col - 1;
        } else if self.position.line > 0 {
            self.position.line = self.position.line - 1;
            self.position.col = line_char_len(buf, self.position.line);
        }
    }

    /// One char right, to the start of the next line from a line end; drops
    /// the selection.
    pub fn move_right(&mut self, buf: &TextBuffer)
        ensures
            final(self).anchor is None,
            final(self).position == right_of(buf.chars(), old(self).position),
    {
        self.anchor = None;
        let line_len = line_char_len(buf, self.position.line);
        if self.position.col < line_len {
            self.position.col = self.position.col + 1;
        } else if self.position.line < buf.line_count() - 1 {
            self.position.line = self.position.line + 1;
            self.position.col = 0;
        }
    }

    /// One line up, keeping the column where the line is long enough;
    /// drops the selection.
    pub fn move_up(&mut self, buf: &TextBuffer)
        ensures
            final(self).anchor is None,
            final(self).position == up_of(buf.chars(), old(self).position),
    {
        self.anchor = None;
        if self.position.line > 0 {
            self.position.line = self.position.line - 1;
            let line_len = line_char_len(buf, self.position.line);
            if line_len < self.position.col {
                self.position.col = line_len;
            }
        }
    }

    /// One line down, keeping the column where the line is long enough;
    /// drops the selection.
    pub fn move_down(&mut self, buf: &TextBuffer)
        ensures
            final(self).anchor is None,
            final(self).position == down_of(buf.chars(), old(self).position),
    {
        self.anchor = None;
        if self.position.line < buf.line_count() - 1 {
            self.position.line = self.position.line + 1;
            let line_len = line_char_len(buf, self.position.line);
            if line_len < self.position.col {
                self.position.col = line_len;
            }
        }
    }

    /// To the end of the line, before its line break; drops the selection.
    pub fn move_end(&mut self, buf: &TextBuffer)
        ensures
            final(self).anchor is None,
            final(self).position == end_of(buf.chars(), old(self).position),
    {
        self.anchor = None;
        self.position.col = line_char_len(buf, self.position.line);
    }

    /// To the start of the next word, or the end of the text; drops the
    /// selection.
    pub fn move_word_right(&mut self, buf: &TextBuffer)
        ensures
            final(self).anchor is None,
            final(self).position == word_right_of(buf.chars(), old(self).position),
    {
        self.anchor = None;
        let text = buf.text();
        let byte_off = match buf.byte_offset(self.position.line, self.position.col) {
            Some(o) => o,
            None => return ,
        };
        let bytes = text.as_str().as_bytes();
        let len = bytes.len();
        let mut i = byte_off;
        while i < len && is_word_byte_exec(bytes[i])
            invariant
                bytes@ == bytes_of(buf.chars()),
                len == bytes@.len(),
                byte_off <= i,
                skip_word(bytes@, i as int) == skip_word(bytes@, byte_off as int),
            decreases len - i,
        {
            i = i + 1;
        }
        let ghost mid = i;
        while i < len && !is_word_byte_exec(bytes[i])
            invariant
                bytes@ == bytes_of(buf.chars()),
                len == bytes@.len(),
                mid <= i,
                skip_other(bytes@, i as int) == skip_other(bytes@, mid as int),
            decreases len - i,
        {
            i = i + 1;
        }
        if let Some((l, c)) = buf.line_col(i) {
            self.position.line = l;
            self.position.col = c;
        }
    }

    /// To the start of the previous word, or the start of the text; drops
    /// the selection.
    pub fn move_word_left(&mut self, buf: &TextBuffer)
        ensures
            final(self).anchor is None,
            final(self).position == word_left_of(buf.chars(), old(self).position),
    {
        self.anchor = None;
        let text = buf.text();
        let byte_off = match buf.byte_offset(self.position.line, self.position.col) {
            Some(o) => o,
            None => return ,
        };
        let bytes = text.as_str().as_bytes();
        if byte_off == 0 {
            return ;
        }
        let len = bytes.len();
        let mut i = byte_off;
        while i > 0 && i <= len && !is_word_byte_exec(bytes[i - 1])
            invariant
                bytes@ == bytes_of(buf.chars()),
                len == bytes@.len(),
                i <= byte_off,
                back_other(bytes@, i as int) == back_other(bytes@, byte_off as int),
            decreases i,
        {
            i = i - 1;
        }
        let ghost mid = i;
        while i > 0 && i <= len && is_word_byte_exec(bytes[i - 1])
            invariant
                bytes@ == bytes_of(buf.chars()),
                len == bytes@.len(),
                i <= mid,
                back_word(bytes@, i as int) == back_word(bytes@, mid as int),
            decreases i,
        {
            i = i - 1;
        }
        if let Some((l, c)) = buf.line_col(i) {
            self.position.line = l;
            self.position.col = c;
        }
    }

    /// Selects the word the caret is on: the anchor at its start, the caret
    /// at its end. Off a word nothing changes.
    pub fn select_word(&mut self, buf: &TextBuffer)
        ensures
            match word_selection(buf.chars(), old(self).position) {
                Some((a, c)) => final(self).anchor == Some(a) && final(self).position == c,
                None => *final(self) == *old(self),
            },
    {
        let text = buf.text();
        let byte_off = match buf.byte_offset(self.position.line, self.position.col) {
            Some(o) => o,
            None => return ,
        };
        let bytes = text.as_str().as_bytes();
        let len = bytes.len();
        if byte_off >= len || !is_word_byte_exec(bytes[byte_off]) {
            return ;
        }
        let mut start = byte_off;
        while start > 0 && is_word_byte_exec(bytes[start - 1])
            invariant
                bytes@ == bytes_of(buf.chars()),
                len == bytes@.len(),
                start <= byte_off < len,
                back_word(bytes@, start as int) == back_word(bytes@, byte_off as int),
            decreases start,
        {
            start = start - 1;
        }
        let mut end = byte_off;
        while end < len && is_word_byte_exec(bytes[end])
            invariant
                bytes@ == bytes_of(buf.chars()),
                len == bytes@.len(),
                byte_off <= end,
                skip_word(bytes@, end as int) == skip_word(bytes@, byte_off as int),
            decreases len - end,
        {
            end = end + 1;
        }
        if let (Some((sl, sc)), Some((el, ec))) = (buf.line_col(start), buf.line_col(end)) {
            self.anchor = Some(Position::new(sl, sc));
            self.position = Position::new(el, ec);
        }
    }

    /// Selects the caret's line: the anchor at its start, the caret after
    /// its line break.
    pub fn select_line(&mut self, buf: &TextBuffer)
        ensures
            final(self).anchor == Some(Position { line: old(self).position.line, col: 0 }),
            final(self).position == (Position {
                line: old(self).position.line,
                col: (if old(self).position.line < rope_line_count(buf.chars()) {
                    rope_line(buf.chars(), old(self).position.line as nat).len()
                } else {
                    0
                }) as usize,
            }),
    {
        let line = self.position.line;
        self.anchor = Some(Position::new(line, 0));
        let line_len = buf.line_len_chars(line);
        self.position = Position::new(line, line_len);
    }

    /// Selects the whole text: the anchor at its start, the caret at the end
    /// of the last line.
    pub fn select_all(&mut self, buf: &TextBuffer)
        ensures
            final(self).anchor == Some(Position::zero_spec()),
            final(self).position == (Position {
                line: (rope_line_count(buf.chars()) - 1) as usize,
                col: line_text_len(buf.chars(), (rope_line_count(buf.chars()) - 1) as usize) as usize,
            }),
    {
        self.anchor = Some(Position::zero());
        let last_line = buf.line_count() - 1;
        let col = line_char_len(buf, last_line);
        self.position = Position::new(last_line, col);
    }
}

} // verus!
