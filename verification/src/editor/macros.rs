//! Recording editing actions into named macros, and playing them back on a
//! document.
use vstd::prelude::*;
use crate::bytes::bytes_of;
use crate::editor::buffer::{
    apply_edit, cut, keep_last, lemma_char_of_byte_take, lemma_prefix_bytes, line_col_of,
    offset_char, offset_of, revert_edit, edit_fits,
};
use crate::editor::cursor::{
    down_of, end_of, left_of, position_at, right_of, up_of, word_left_of, word_right_of,
    CursorState, Position,
};
use crate::editor::document::Document;
use crate::editor::rope_calls::{rope_line, rope_line_count};

verus! {

/// A caret movement, with a repeat count where one applies.
#[derive(Clone, Copy, Debug, PartialEq, Eq, Structural)]
pub enum CursorMove {
    Left(usize),
    Right(usize),
    Up(usize),
    Down(usize),
    Home,
    End,
    DocumentStart,
    DocumentEnd,
    WordLeft,
    WordRight,
}

/// One recorded editing action.
#[derive(Debug)]
pub enum MacroAction {
    InsertText(String),
    DeleteForward(usize),
    DeleteBackward(usize),
    MoveCursor(CursorMove),
    SelectText(CursorMove),
    Cut,
    Copy,
    Paste(String),
    Undo,
    Redo,
    FindNext(String),
    Replace(String, String),
}

impl Clone for MacroAction {
    fn clone(&self) -> (res: Self)
        ensures
            res == *self,
    {
        match self {
            MacroAction::InsertText(s) => MacroAction::InsertText(s.clone()),
            MacroAction::DeleteForward(n) => MacroAction::DeleteForward(*n),
            MacroAction::DeleteBackward(n) => MacroAction::DeleteBackward(*n),
            MacroAction::MoveCursor(m) => MacroAction::MoveCursor(*m),
            MacroAction::SelectText(m) => MacroAction::SelectText(*m),
            MacroAction::Cut => MacroAction::Cut,
            MacroAction::Copy => MacroAction::Copy,
            MacroAction::Paste(s) => MacroAction::Paste(s.clone()),
            MacroAction::Undo => MacroAction::Undo,
            MacroAction::Redo => MacroAction::Redo,
            MacroAction::FindNext(s) => MacroAction::FindNext(s.clone()),
            MacroAction::Replace(a, b) => MacroAction::Replace(a.clone(), b.clone()),
        }
    }
}

/// A named sequence of actions.
#[derive(Debug)]
pub struct Macro {
    pub name: String,
    pub actions: Vec<MacroAction>,
}

fn clone_actions(v: &Vec<MacroAction>) -> (res: Vec<MacroAction>)
    ensures
        res@ == v@,
{
    let mut out: Vec<MacroAction> = Vec::new();
    let mut i: usize = 0;
    while i < v.len()
        invariant
            i <= v@.len(),
            out@ == v@.take(i as int),
        decreases v.len() - i,
    {
        out.push(v[i].clone());
        assert(v@.take(i as int + 1) == v@.take(i as int).push(v@[i as int]));
        i += 1;
    }
    assert(v@.take(v@.len() as int) == v@);
    out
}

impl Clone for Macro {
    fn clone(&self) -> (res: Self)
        ensures
            res.name == self.name,
            res.actions@ == self.actions@,
    {
        Macro { name: self.name.clone(), actions: clone_actions(&self.actions) }
    }
}

/// Records actions while recording is on and keeps the macros recorded.
#[derive(Debug)]
pub struct MacroRecorder {
    recording: bool,
    current_recording: Vec<MacroAction>,
    saved_macros: Vec<Macro>,
}

impl Default for MacroRecorder {
    fn default() -> (res: Self)
        ensures
            !res.recording_spec(),
            res.current_spec() == Seq::<MacroAction>::empty(),
            res.saved_spec().len() == 0,
    {
        MacroRecorder::new()
    }
}

impl MacroRecorder {
    /// Whether actions are being recorded.
    pub closed spec fn recording_spec(self) -> bool {
        self.recording
    }

    /// The actions recorded since recording started.
    pub closed spec fn current_spec(self) -> Seq<MacroAction> {
        self.current_recording@
    }

    /// The macros saved so far, oldest first.
    pub closed spec fn saved_spec(self) -> Seq<Macro> {
        self.saved_macros@
    }

    /// Not recording, with nothing recorded or saved.
    pub fn new() -> (res: Self)
        ensures
            !res.recording_spec(),
            res.current_spec() == Seq::<MacroAction>::empty(),
            res.saved_spec().len() == 0,
    {
        MacroRecorder { recording: false, current_recording: Vec::new(), saved_macros: Vec::new() }
    }

    /// Starts recording afresh.
    pub fn start_recording(&mut self)
        ensures
            final(self).recording_spec(),
            final(self).current_spec() == Seq::<MacroAction>::empty(),
            final(self).saved_spec() == old(self).saved_spec(),
    {
        self.recording = true;
        self.current_recording.clear();
    }

    /// Stops recording and saves what was recorded as a macro named `name`,
    /// which is also returned.
    pub fn stop_recording(&mut self, name: &str) -> (res: Macro)
        ensures
            !final(self).recording_spec(),
            final(self).current_spec() == Seq::<MacroAction>::empty(),
            res.name@ == name@,
            res.actions@ == old(self).current_spec(),
            final(self).saved_spec().len() == old(self).saved_spec().len() + 1,
            final(self).saved_spec().take(old(self).saved_spec().len() as int) == old(
                self,
            ).saved_spec(),
            final(self).saved_spec().last().name@ == name@,
            final(self).saved_spec().last().actions@ == old(self).current_spec(),
    {
        self.recording = false;
        let mut actions: Vec<MacroAction> = Vec::new();
        std::mem::swap(&mut actions, &mut self.current_recording);
        let macro_def = Macro { name: String::from_str(name), actions };
        let ghost prev = self.saved_macros@;
        self.saved_macros.push(macro_def.clone());
        assert(self.saved_macros@.take(prev.len() as int) == prev);
        macro_def
    }

    /// Whether actions are being recorded.
    pub fn is_recording(&self) -> (res: bool)
        ensures
            res == self.recording_spec(),
    {
        self.recording
    }

    /// Appends `action` to the recording, if recording is on.
    pub fn record_action(&mut self, action: MacroAction)
        ensures
            final(self).recording_spec() == old(self).recording_spec(),
            final(self).saved_spec() == old(self).saved_spec(),
            final(self).current_spec() == if old(self).recording_spec() {
                old(self).current_spec().push(action)
            } else {
                old(self).current_spec()
            },
    {
        if self.recording {
            self.current_recording.push(action);
        }
    }

    /// Replaces the saved macros by those loaded from a file.
    pub fn load_macros(&mut self, macros: Vec<Macro>)
        ensures
            final(self).saved_spec() == macros@,
            final(self).recording_spec() == old(self).recording_spec(),
            final(self).current_spec() == old(self).current_spec(),
    {
        self.saved_macros = macros;
    }

    /// The saved macros, oldest first.
    pub fn saved_macros(&self) -> (res: &[Macro])
        ensures
            res@ == self.saved_spec(),
    {
        self.saved_macros.as_slice()
    }

    /// Deletes the saved macro at `index`, if there is one.
    pub fn delete_macro(&mut self, index: usize)
        ensures
            final(self).recording_spec() == old(self).recording_spec(),
            final(self).current_spec() == old(self).current_spec(),
            final(self).saved_spec() == if index < old(self).saved_spec().len() {
                old(self).saved_spec().remove(index as int)
            } else {
                old(self).saved_spec()
            },
    {
        if index < self.saved_macros.len() {
            self.saved_macros.remove(index);
        }
    }
}

// ---------------------------------------------------------------------------
// Playback
// ---------------------------------------------------------------------------

/// What playback reads and changes of a document: its text, undo and redo
/// histories, modified flag, history limit and caret.
#[verifier::ext_equal]
pub struct DocState {
    pub text: Seq<char>,
    pub undo: Seq<(bool, usize, Seq<char>)>,
    pub redo: Seq<(bool, usize, Seq<char>)>,
    pub modified: bool,
    pub limit: Option<usize>,
    pub cursor: CursorState,
}

pub open spec fn doc_state(d: Document) -> DocState {
    DocState {
        text: d.buffer.chars(),
        undo: d.buffer.undo_edits(),
        redo: d.buffer.redo_edits(),
        modified: d.buffer.modified(),
        limit: d.buffer.limit(),
        cursor: d.cursor,
    }
}

/// Everything playback leaves alone.
pub open spec fn same_meta(d0: Document, d1: Document) -> bool {
    &&& d1.path == d0.path
    &&& d1.encoding == d0.encoding
    &&& d1.line_ending == d0.line_ending
    &&& d1.language == d0.language
    &&& d1.read_only == d0.read_only
    &&& d1.bookmarks == d0.bookmarks
    &&& d1.large_file_info == d0.large_file_info
    &&& d1.fold_manager == d0.fold_manager
}

/// The number of `\n` in a text.
pub open spec fn count_newlines(t: Seq<char>) -> nat
    decreases t.len(),
{
    if t.len() == 0 {
        0
    } else {
        count_newlines(t.drop_last()) + if t.last() == '\n' {
            1nat
        } else {
            0nat
        }
    }
}

/// The number of chars after the last `\n` of a text (all of them without
/// one).
pub open spec fn after_last_newline(t: Seq<char>) -> nat
    decreases t.len(),
{
    if t.len() == 0 || t.last() == '\n' {
        0
    } else {
        1 + after_last_newline(t.drop_last())
    }
}

/// Where the caret goes after typing `t`: down by its line breaks and to the
/// column after its last line, or right by its length without a break.
pub open spec fn caret_after_insert(p: Position, t: Seq<char>) -> Position {
    if count_newlines(t) > 0 {
        Position { line: (p.line + count_newlines(t)) as usize, col: after_last_newline(t) as usize }
    } else {
        Position { line: p.line, col: (p.col + t.len()) as usize }
    }
}

/// A caret move made `n` times.
pub open spec fn repeat_step(s: Seq<char>, p: Position, mv: CursorMove, n: nat) -> Position
    decreases n,
{
    if n == 0 {
        p
    } else {
        let q = repeat_step(s, p, mv, (n - 1) as nat);
        match mv {
            CursorMove::Left(_) => left_of(s, q),
            CursorMove::Right(_) => right_of(s, q),
            CursorMove::Up(_) => up_of(s, q),
            CursorMove::Down(_) => down_of(s, q),
            _ => q,
        }
    }
}

/// A caret that moved to `p`, without a selection.
pub open spec fn moved_to(p: Position) -> CursorState {
    CursorState { position: p, anchor: None }
}

/// The caret after a move; with `select`, a selection is anchored first
/// where none is (every move but a zero-times one then drops it again).
pub open spec fn cursor_after_move(s: Seq<char>, c: CursorState, mv: CursorMove, select: bool) -> CursorState {
    let c1 = if select && c.anchor is None {
        CursorState { position: c.position, anchor: Some(c.position) }
    } else {
        c
    };
    let p = c1.position;
    match mv {
        CursorMove::Left(n) => if n == 0 {
            c1
        } else {
            moved_to(repeat_step(s, p, mv, n as nat))
        },
        CursorMove::Right(n) => if n == 0 {
            c1
        } else {
            moved_to(repeat_step(s, p, mv, n as nat))
        },
        CursorMove::Up(n) => if n == 0 {
            c1
        } else {
            moved_to(repeat_step(s, p, mv, n as nat))
        },
        CursorMove::Down(n) => if n == 0 {
            c1
        } else {
            moved_to(repeat_step(s, p, mv, n as nat))
        },
        CursorMove::Home => moved_to(Position { line: p.line, col: 0 }),
        CursorMove::End => moved_to(end_of(s, p)),
        CursorMove::DocumentStart => moved_to(Position { line: 0, col: 0 }),
        CursorMove::DocumentEnd => {
            let count = rope_line_count(s);
            let last = if count > 0 {
                (count - 1) as usize
            } else {
                0usize
            };
            let len = if last < count {
                rope_line(s, last as nat).len()
            } else {
                0
            };
            moved_to(Position { line: last, col: len as usize })
        },
        CursorMove::WordLeft => moved_to(word_left_of(s, p)),
        CursorMove::WordRight => moved_to(word_right_of(s, p)),
    }
}

/// The document with an edit recorded on top of its history.
pub open spec fn with_edit(d: DocState, text: Seq<char>, e: (bool, usize, Seq<char>), caret: CursorState) -> DocState {
    DocState {
        text,
        undo: keep_last(d.undo.push(e), d.limit),
        redo: Seq::empty(),
        modified: true,
        limit: d.limit,
        cursor: caret,
    }
}

/// The document after one action. Typing inserts at the caret and moves it
/// past the text; a forward delete removes up to `n` chars after the caret,
/// a backward one up to `n` chars before it and moves the caret there; moves
/// and selections move the caret; undo and redo act on the histories; the
/// clipboard and search actions do nothing on their own.
pub open spec fn after_action(d: DocState, a: MacroAction) -> DocState {
    let s = d.text;
    let p = d.cursor.position;
    match a {
        MacroAction::InsertText(t) => match offset_of(s, p.line, p.col) {
            Some(o) => with_edit(
                d,
                apply_edit(s, (true, o, t@)),
                (true, o, t@),
                CursorState { position: caret_after_insert(p, t@), anchor: d.cursor.anchor },
            ),
            None => d,
        },
        MacroAction::DeleteForward(n) => match offset_of(s, p.line, p.col) {
            Some(o) => {
                let k = offset_char(s, p.line, p.col);
                let m = if n < s.len() - k {
                    n as int
                } else {
                    s.len() - k
                };
                if m > 0 {
                    with_edit(d, cut(s, k, k + m), (false, o, s.subrange(k, k + m)), d.cursor)
                } else {
                    d
                }
            },
            None => d,
        },
        MacroAction::DeleteBackward(n) => match offset_of(s, p.line, p.col) {
            Some(o) => {
                let k = offset_char(s, p.line, p.col);
                let m = if n < k {
                    n as int
                } else {
                    k
                };
                if m > 0 {
                    let start = bytes_of(s.take(k - m)).len() as usize;
                    let t2 = cut(s, k - m, k);
                    with_edit(
                        d,
                        t2,
                        (false, start, s.subrange(k - m, k)),
                        CursorState { position: position_at(t2, start as int, p), anchor: d.cursor.anchor },
                    )
                } else {
                    d
                }
            },
            None => d,
        },
        MacroAction::MoveCursor(mv) => DocState { cursor: cursor_after_move(s, d.cursor, mv, false), ..d },
        MacroAction::SelectText(mv) => DocState { cursor: cursor_after_move(s, d.cursor, mv, true), ..d },
        MacroAction::Undo => if d.undo.len() == 0 {
            d
        } else {
            let e = d.undo.last();
            DocState {
                text: revert_edit(s, e),
                undo: d.undo.drop_last(),
                redo: d.redo.push(e),
                modified: true,
                ..d
            }
        },
        MacroAction::Redo => if d.redo.len() == 0 {
            d
        } else {
            let e = d.redo.last();
            DocState {
                text: apply_edit(s, e),
                undo: d.undo.push(e),
                redo: d.redo.drop_last(),
                modified: true,
                ..d
            }
        },
        _ => d,
    }
}

/// Whether an action can be played without a panic: typing must not push
/// the caret past the largest index, and undo and redo must fit the text.
pub open spec fn action_ok(d: DocState, a: MacroAction) -> bool {
    let p = d.cursor.position;
    match a {
        MacroAction::InsertText(t) => offset_of(d.text, p.line, p.col) is Some ==> if count_newlines(t@) > 0 {
            p.line + count_newlines(t@) <= usize::MAX
        } else {
            p.col + t@.len() <= usize::MAX
        },
        MacroAction::Undo => d.undo.len() > 0 ==> edit_fits(d.text, d.undo.last(), false),
        MacroAction::Redo => d.redo.len() > 0 ==> edit_fits(d.text, d.redo.last(), true),
        _ => true,
    }
}

/// The document after a sequence of actions.
pub open spec fn after_actions(d: DocState, acts: Seq<MacroAction>) -> DocState
    decreases acts.len(),
{
    if acts.len() == 0 {
        d
    } else {
        after_action(after_actions(d, acts.drop_last()), acts.last())
    }
}

/// Whether each action of a sequence can be played in turn.
pub open spec fn actions_ok(d: DocState, acts: Seq<MacroAction>) -> bool
    decreases acts.len(),
{
    if acts.len() == 0 {
        true
    } else {
        actions_ok(d, acts.drop_last()) && action_ok(after_actions(d, acts.drop_last()), acts.last())
    }
}

/// The document after a sequence of actions played `n` times.
pub open spec fn after_times(d: DocState, acts: Seq<MacroAction>, n: nat) -> DocState
    decreases n,
{
    if n == 0 {
        d
    } else {
        after_actions(after_times(d, acts, (n - 1) as nat), acts)
    }
}

/// Whether a sequence can be played `n` times in turn.
pub open spec fn times_ok(d: DocState, acts: Seq<MacroAction>, n: nat) -> bool
    decreases n,
{
    if n == 0 {
        true
    } else {
        times_ok(d, acts, (n - 1) as nat) && actions_ok(after_times(d, acts, (n - 1) as nat), acts)
    }
}

/// Playing two action sequences one after the other is playing their
/// concatenation.
pub proof fn law_play_concat(d: DocState, a: Seq<MacroAction>, b: Seq<MacroAction>)
    ensures
        after_actions(d, a + b) == after_actions(after_actions(d, a), b),
        actions_ok(d, a + b) == (actions_ok(d, a) && actions_ok(after_actions(d, a), b)),
    decreases b.len(),
{
    if b.len() == 0 {
        assert(a + b =~= a);
    } else {
        law_play_concat(d, a, b.drop_last());
        assert((a + b).drop_last() =~= a + b.drop_last());
        assert((a + b).last() == b.last());
    }
}

proof fn lemma_actions_ok_prefix(d: DocState, acts: Seq<MacroAction>, i: int)
    requires
        actions_ok(d, acts),
        0 <= i <= acts.len(),
    ensures
        actions_ok(d, acts.take(i)),
    decreases acts.len(),
{
    if i < acts.len() {
        assert(acts.drop_last() =~= acts.take(acts.len() - 1));
        lemma_actions_ok_prefix(d, acts.drop_last(), i);
        assert(acts.drop_last().take(i) =~= acts.take(i));
    } else {
        assert(acts.take(i) =~= acts);
    }
}

proof fn lemma_times_ok_prefix(d: DocState, acts: Seq<MacroAction>, n: nat, i: nat)
    requires
        times_ok(d, acts, n),
        i <= n,
    ensures
        times_ok(d, acts, i),
    decreases n,
{
    if i < n {
        lemma_times_ok_prefix(d, acts, (n - 1) as nat, i);
    }
}

/// The number of `\n` in a text and the number of chars after the last one.
fn newline_counts(t: &[char]) -> (res: (usize, usize))
    ensures
        res.0 == count_newlines(t@),
        res.1 == after_last_newline(t@),
{
    let mut i: usize = 0;
    let mut lines: usize = 0;
    let mut tail: usize = 0;
    while i < t.len()
        invariant
            i <= t@.len(),
            lines == count_newlines(t@.take(i as int)),
            tail == after_last_newline(t@.take(i as int)),
            lines <= i,
            tail <= i,
        decreases t.len() - i,
    {
        assert(t@.take(i as int + 1).drop_last() =~= t@.take(i as int));
        if t[i] == '\n' {
            lines = lines + 1;
            tail = 0;
        } else {
            tail = tail + 1;
        }
        i = i + 1;
    }
    assert(t@.take(t@.len() as int) =~= t@);
    (lines, tail)
}

/// Makes the step of `mv` (left, right, up or down) `n` times.
fn repeat_move(mv: &CursorMove, n: usize, document: &mut Document)
    requires
        mv is Left || mv is Right || mv is Up || mv is Down,
    ensures
        final(document).buffer == old(document).buffer,
        same_meta(*old(document), *final(document)),
        n == 0 ==> final(document).cursor == old(document).cursor,
        n > 0 ==> final(document).cursor == moved_to(
            repeat_step(old(document).buffer.chars(), old(document).cursor.position, *mv, n as nat),
        ),
{
    let mut i: usize = 0;
    let ghost p0 = document.cursor.position;
    while i < n
        invariant
            i <= n,
            document.buffer == old(document).buffer,
            same_meta(*old(document), *document),
            p0 == old(document).cursor.position,
            mv is Left || mv is Right || mv is Up || mv is Down,
            document.cursor.position == repeat_step(document.buffer.chars(), p0, *mv, i as nat),
            i == 0 ==> document.cursor == old(document).cursor,
            i > 0 ==> document.cursor.anchor is None,
        decreases n - i,
    {
        match mv {
            CursorMove::Left(_) => document.cursor.move_left(&document.buffer),
            CursorMove::Right(_) => document.cursor.move_right(&document.buffer),
            CursorMove::Up(_) => document.cursor.move_up(&document.buffer),
            CursorMove::Down(_) => document.cursor.move_down(&document.buffer),
            _ => {},
        }
        i = i + 1;
    }
}

/// Moves the caret as `mv` says; with `select`, anchors a selection first.
fn apply_cursor_move(mv: &CursorMove, document: &mut Document, select: bool)
    ensures
        doc_state(*final(document)) == (DocState {
            cursor: cursor_after_move(
                old(document).buffer.chars(),
                old(document).cursor,
                *mv,
                select,
            ),
            ..doc_state(*old(document))
        }),
        final(document).buffer == old(document).buffer,
        same_meta(*old(document), *final(document)),
{
    if select {
        document.cursor.start_selection();
    }
    match mv {
        CursorMove::Left(n) => repeat_move(mv, *n, document),
        CursorMove::Right(n) => repeat_move(mv, *n, document),
        CursorMove::Up(n) => repeat_move(mv, *n, document),
        CursorMove::Down(n) => repeat_move(mv, *n, document),
        CursorMove::Home => document.cursor.move_home(),
        CursorMove::End => document.cursor.move_end(&document.buffer),
        CursorMove::DocumentStart => document.cursor.set_position(0, 0),
        CursorMove::DocumentEnd => {
            let count = document.buffer.line_count();
            let last_line = if count > 0 {
                count - 1
            } else {
                0
            };
            let col = document.buffer.line_len_chars(last_line);
            document.cursor.set_position(last_line, col);
        },
        CursorMove::WordLeft => document.cursor.move_word_left(&document.buffer),
        CursorMove::WordRight => document.cursor.move_word_right(&document.buffer),
    }
}

/// Plays one action on the document.
fn apply_action(action: &MacroAction, document: &mut Document)
    requires
        action_ok(doc_state(*old(document)), *action),
    ensures
        doc_state(*final(document)) == after_action(doc_state(*old(document)), *action),
        same_meta(*old(document), *final(document)),
{
    let ghost d0 = doc_state(*document);
    let ghost s = document.buffer.chars();
    match action {
        MacroAction::InsertText(text) => {
            if let Some(offset) = document.buffer.byte_offset(
                document.cursor.position.line,
                document.cursor.position.col,
            ) {
                proof {
                    lemma_prefix_bytes(
                        s,
                        offset_char(s, document.cursor.position.line, document.cursor.position.col),
                    );
                }
                document.buffer.insert(offset, text.as_str());
                let chars = crate::text::str_chars(text.as_str());
                let added_chars = chars.len();
                let (newlines, last_line_len) = newline_counts(chars.as_slice());
                if newlines > 0 {
                    document.cursor.position.line = document.cursor.position.line + newlines;
                    document.cursor.position.col = last_line_len;
                } else {
                    document.cursor.position.col = document.cursor.position.col + added_chars;
                }
            }
        },
        MacroAction::DeleteForward(n) => {
            if let Some(start) = document.buffer.byte_offset(
                document.cursor.position.line,
                document.cursor.position.col,
            ) {
                let ghost k = offset_char(s, document.cursor.position.line, document.cursor.position.col);
                proof {
                    lemma_prefix_bytes(s, k);
                    lemma_char_of_byte_take(s, k);
                }
                let kk = document.buffer.char_index(start);
                let total = document.buffer.len_chars();
                let m = if *n < total - kk {
                    *n
                } else {
                    total - kk
                };
                if m > 0 {
                    let end = document.buffer.byte_index(kk + m);
                    proof {
                        lemma_prefix_bytes(s, k + m);
                        lemma_char_of_byte_take(s, k + m);
                    }
                    document.buffer.delete(start, end);
                }
            }
        },
        MacroAction::DeleteBackward(n) => {
            if let Some(end) = document.buffer.byte_offset(
                document.cursor.position.line,
                document.cursor.position.col,
            ) {
                let ghost k = offset_char(s, document.cursor.position.line, document.cursor.position.col);
                proof {
                    lemma_prefix_bytes(s, k);
                    lemma_char_of_byte_take(s, k);
                }
                let kk = document.buffer.char_index(end);
                let m = if *n < kk {
                    *n
                } else {
                    kk
                };
                if m > 0 {
                    let start = document.buffer.byte_index(kk - m);
                    proof {
                        lemma_prefix_bytes(s, k - m);
                        lemma_char_of_byte_take(s, k - m);
                    }
                    document.buffer.delete(start, end);
                    if let Some((line, col)) = document.buffer.line_col(start) {
                        document.cursor.position.line = line;
                        document.cursor.position.col = col;
                    }
                }
            }
        },
        MacroAction::MoveCursor(mv) => {
            apply_cursor_move(mv, document, false);
        },
        MacroAction::SelectText(mv) => {
            apply_cursor_move(mv, document, true);
        },
        MacroAction::Undo => {
            document.buffer.undo();
        },
        MacroAction::Redo => {
            document.buffer.redo();
        },
        MacroAction::Cut | MacroAction::Copy | MacroAction::Paste(_) | MacroAction::FindNext(_)
        | MacroAction::Replace(_, _) => {},
    }
}

impl MacroRecorder {
    /// Plays a macro's actions on the document, in order.
    pub fn play_macro(macro_def: &Macro, document: &mut Document)
        requires
            actions_ok(doc_state(*old(document)), macro_def.actions@),
        ensures
            doc_state(*final(document)) == after_actions(
                doc_state(*old(document)),
                macro_def.actions@,
            ),
            same_meta(*old(document), *final(document)),
    {
        let ghost d0 = doc_state(*document);
        let ghost acts = macro_def.actions@;
        let mut i: usize = 0;
        while i < macro_def.actions.len()
            invariant
                i <= acts.len(),
                acts == macro_def.actions@,
                actions_ok(d0, acts),
                d0 == doc_state(*old(document)),
                doc_state(*document) == after_actions(d0, acts.take(i as int)),
                same_meta(*old(document), *document),
            decreases acts.len() - i,
        {
            proof {
                lemma_actions_ok_prefix(d0, acts, i + 1);
                assert(acts.take(i + 1).drop_last() =~= acts.take(i as int));
            }
            apply_action(&macro_def.actions[i], document);
            i = i + 1;
        }
        assert(acts.take(acts.len() as int) =~= acts);
    }

    /// Plays a macro `n` times in a row.
    pub fn play_macro_n_times(macro_def: &Macro, document: &mut Document, n: usize)
        requires
            times_ok(doc_state(*old(document)), macro_def.actions@, n as nat),
        ensures
            doc_state(*final(document)) == after_times(
                doc_state(*old(document)),
                macro_def.actions@,
                n as nat,
            ),
            same_meta(*old(document), *final(document)),
    {
        let ghost d0 = doc_state(*document);
        let mut i: usize = 0;
        while i < n
            invariant
                i <= n,
                times_ok(d0, macro_def.actions@, n as nat),
                d0 == doc_state(*old(document)),
                doc_state(*document) == after_times(d0, macro_def.actions@, i as nat),
                same_meta(*old(document), *document),
            decreases n - i,
        {
            proof {
                lemma_times_ok_prefix(d0, macro_def.actions@, n as nat, (i + 1) as nat);
            }
            Self::play_macro(macro_def, document);
            i = i + 1;
        }
    }
}

} // verus!
