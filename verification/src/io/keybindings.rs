//! Keyboard shortcuts: the bindings of actions to keys, their display, and
//! matching a key press against them.
use vstd::prelude::*;
use crate::editor::line_ops::{lex_less, lex_lt};
use crate::native::scintilla::{ascii_lowercase, to_ascii_lowercase};
use crate::text::{str_chars, str_eq};

verus! {

/// A key with its modifiers.
#[derive(Debug)]
pub struct KeyBinding {
    pub key: String,
    pub ctrl: bool,
    pub shift: bool,
    pub alt: bool,
}

impl Clone for KeyBinding {
    fn clone(&self) -> (res: Self)
        ensures
            res.key@ == self.key@,
            res.ctrl == self.ctrl,
            res.shift == self.shift,
            res.alt == self.alt,
    {
        KeyBinding { key: self.key.clone(), ctrl: self.ctrl, shift: self.shift, alt: self.alt }
    }
}

/// A binding as plain values: key, Ctrl, Shift, Alt.
pub type BindingView = (Seq<char>, bool, bool, bool);

impl KeyBinding {
    /// The binding as plain values.
    pub open spec fn as_view(&self) -> BindingView {
        (self.key@, self.ctrl, self.shift, self.alt)
    }

    /// A binding of `key` with the given modifiers.
    pub fn new(key: &str, ctrl: bool, shift: bool, alt: bool) -> (res: Self)
        ensures
            res.key@ == key@,
            res.ctrl == ctrl,
            res.shift == shift,
            res.alt == alt,
    {
        KeyBinding { key: String::from_str(key), ctrl, shift, alt }
    }

    /// The shortcut as people write it, such as `Ctrl+Shift+S`.
    pub fn display(&self) -> (res: String)
        ensures
            res@ == shortcut_text(self.as_view()),
    {
        let mut out = String::new();
        if self.ctrl {
            out.append("Ctrl+");
        }
        if self.shift {
            out.append("Shift+");
        }
        if self.alt {
            out.append("Alt+");
        }
        out.append(self.key.as_str());
        proof {
            assert(out@ == shortcut_text(self.as_view()));
        }
        out
    }
}

/// The shortcut text of a binding: the held modifiers, each followed by
/// `+`, then the key.
pub open spec fn shortcut_text(b: BindingView) -> Seq<char> {
    (if b.1 {
        "Ctrl+"@
    } else {
        seq![]
    }) + (if b.2 {
        "Shift+"@
    } else {
        seq![]
    }) + (if b.3 {
        "Alt+"@
    } else {
        seq![]
    }) + b.0
}

/// The action bindings, in the order they were made, at most one for each
/// action.
#[derive(Debug)]
pub struct KeyBindings {
    bindings: Vec<(String, KeyBinding)>,
}

/// Whether no two entries are for the same action.
pub open spec fn names_distinct(v: Seq<(Seq<char>, BindingView)>) -> bool {
    forall|i: int, j: int| 0 <= i < j < v.len() ==> (#[trigger] v[i]).0 != (#[trigger] v[j]).0
}

/// The entries with `e` made: it replaces the entry for its action where
/// there is one, else it comes last.
pub open spec fn with_binding(v: Seq<(Seq<char>, BindingView)>, e: (Seq<char>, BindingView)) -> Seq<
    (Seq<char>, BindingView),
> {
    if exists|i: int| 0 <= i < v.len() && (#[trigger] v[i]).0 == e.0 {
        v.update(choose|i: int| 0 <= i < v.len() && (#[trigger] v[i]).0 == e.0, e)
    } else {
        v.push(e)
    }
}

/// The entries that the pairs make, one after another (see `with_binding`).
pub open spec fn table_of(p: Seq<(Seq<char>, BindingView)>) -> Seq<(Seq<char>, BindingView)>
    decreases p.len(),
{
    if p.len() == 0 {
        seq![]
    } else {
        with_binding(table_of(p.drop_last()), p.last())
    }
}

/// The bindings as plain values.
pub open spec fn bindings_view(v: Seq<(String, KeyBinding)>) -> Seq<(Seq<char>, BindingView)> {
    v.map_values(|e: (String, KeyBinding)| (e.0@, e.1.as_view()))
}

/// The binding of an action: the first one made for it.
pub open spec fn binding_for(v: Seq<(Seq<char>, BindingView)>, action: Seq<char>) -> Option<BindingView>
    decreases v.len(),
{
    if v.len() == 0 {
        None
    } else if v[0].0 == action {
        Some(v[0].1)
    } else {
        binding_for(v.skip(1), action)
    }
}

/// The default bindings: action, key, Ctrl, Shift, Alt.
pub open spec fn default_table() -> Seq<(Seq<char>, Seq<char>, bool, bool, bool)> {
    seq![
        ("new_file"@, "N"@, true, false, false),
        ("open_file"@, "O"@, true, false, false),
        ("save"@, "S"@, true, false, false),
        ("save_as"@, "S"@, true, true, false),
        ("close_tab"@, "W"@, true, false, false),
        ("undo"@, "Z"@, true, false, false),
        ("redo"@, "Y"@, true, false, false),
        ("zoom_in"@, "="@, true, false, false),
        ("zoom_out"@, "-"@, true, false, false),
        ("zoom_reset"@, "0"@, true, false, false),
        ("find"@, "F"@, true, false, false),
        ("replace"@, "H"@, true, false, false),
        ("find_next"@, "F3"@, false, false, false),
        ("find_prev"@, "F3"@, false, true, false),
        ("goto_line"@, "G"@, true, false, false),
        ("command_palette"@, "P"@, true, false, false),
        ("bracket_jump"@, "]"@, true, false, false),
        ("toggle_bookmark"@, "F2"@, true, false, false),
        ("next_bookmark"@, "F2"@, false, false, false),
        ("prev_bookmark"@, "F2"@, false, true, false),
        ("format_json"@, "J"@, true, true, false),
        ("toggle_macro_recording"@, "R"@, true, true, false),
        ("play_last_macro"@, "P"@, true, true, false),
        ("select_next"@, "D"@, true, false, false),
        ("toggle_hex_view"@, "H"@, true, true, false),
        ("escape"@, "Escape"@, false, false, false),
        ("delete_line"@, "K"@, true, true, false),
        ("join_lines"@, "J"@, true, false, false),
        ("case_upper"@, "U"@, true, true, false),
        ("case_lower"@, "U"@, true, false, false),
        ("toggle_comment"@, "/"@, true, false, false),
        ("select_all_occurrences"@, "L"@, true, true, false),
        ("toggle_fold"@, "["@, true, true, false)
    ]
}


/// No two default bindings are for the same action.
#[verifier::rlimit(100)]
proof fn lemma_default_names_distinct()
    ensures
        forall|i: int, j: int|
            0 <= i < j < default_table().len() ==> default_table()[i].0 != default_table()[j].0,
{
    reveal_strlit("new_file");
    reveal_strlit("open_file");
    reveal_strlit("save");
    reveal_strlit("save_as");
    reveal_strlit("close_tab");
    reveal_strlit("undo");
    reveal_strlit("redo");
    reveal_strlit("zoom_in");
    reveal_strlit("zoom_out");
    reveal_strlit("zoom_reset");
    reveal_strlit("find");
    reveal_strlit("replace");
    reveal_strlit("find_next");
    reveal_strlit("find_prev");
    reveal_strlit("goto_line");
    reveal_strlit("command_palette");
    reveal_strlit("bracket_jump");
    reveal_strlit("toggle_bookmark");
    reveal_strlit("next_bookmark");
    reveal_strlit("prev_bookmark");
    reveal_strlit("format_json");
    reveal_strlit("toggle_macro_recording");
    reveal_strlit("play_last_macro");
    reveal_strlit("select_next");
    reveal_strlit("toggle_hex_view");
    reveal_strlit("escape");
    reveal_strlit("delete_line");
    reveal_strlit("join_lines");
    reveal_strlit("case_upper");
    reveal_strlit("case_lower");
    reveal_strlit("toggle_comment");
    reveal_strlit("select_all_occurrences");
    reveal_strlit("toggle_fold");
    assert forall|i: int, j: int| 0 <= i < j < default_table().len() implies default_table()[i].0 != default_table()[j].0 by {
        let a = default_table()[i].0;
        let b = default_table()[j].0;
        if a.len() == b.len() {
            assert(a[0] != b[0] || a[1] != b[1] || a[2] != b[2] || a[a.len() - 1] != b[b.len() - 1] || a[3] != b[3] || a[5] != b[5] || a[a.len() - 2] != b[b.len() - 2]);
        }
    }
}

/// The name shown for a known action.
pub open spec fn action_title(a: Seq<char>) -> Option<Seq<char>> {
    if a == "new_file"@ {
        Some("New File"@)
    } else if a == "open_file"@ {
        Some("Open File"@)
    } else if a == "save"@ {
        Some("Save"@)
    } else if a == "save_as"@ {
        Some("Save As"@)
    } else if a == "close_tab"@ {
        Some("Close Tab"@)
    } else if a == "undo"@ {
        Some("Undo"@)
    } else if a == "redo"@ {
        Some("Redo"@)
    } else if a == "zoom_in"@ {
        Some("Zoom In"@)
    } else if a == "zoom_out"@ {
        Some("Zoom Out"@)
    } else if a == "zoom_reset"@ {
        Some("Reset Zoom"@)
    } else if a == "find"@ {
        Some("Find"@)
    } else if a == "replace"@ {
        Some("Replace"@)
    } else if a == "find_next"@ {
        Some("Find Next"@)
    } else if a == "find_prev"@ {
        Some("Find Previous"@)
    } else if a == "goto_line"@ {
        Some("Go to Line"@)
    } else if a == "command_palette"@ {
        Some("Command Palette"@)
    } else if a == "bracket_jump"@ {
        Some("Jump to Matching Bracket"@)
    } else if a == "toggle_bookmark"@ {
        Some("Toggle Bookmark"@)
    } else if a == "next_bookmark"@ {
        Some("Next Bookmark"@)
    } else if a == "prev_bookmark"@ {
        Some("Previous Bookmark"@)
    } else if a == "format_json"@ {
        Some("Format JSON"@)
    } else if a == "toggle_macro_recording"@ {
        Some("Start/Stop Macro Recording"@)
    } else if a == "play_last_macro"@ {
        Some("Play Last Macro"@)
    } else if a == "select_next"@ {
        Some("Select Next Occurrence"@)
    } else if a == "select_all_occurrences"@ {
        Some("Select All Occurrences"@)
    } else if a == "toggle_comment"@ {
        Some("Toggle Comment"@)
    } else if a == "toggle_hex_view"@ {
        Some("Toggle Hex View"@)
    } else if a == "toggle_fold"@ {
        Some("Toggle Fold"@)
    } else if a == "escape"@ {
        Some("Escape / Close"@)
    } else {
        None
    }
}

fn action_title_exec(a: &str) -> (res: Option<&'static str>)
    ensures
        match res {
            Some(t) => action_title(a@) == Some(t@),
            None => action_title(a@) is None,
        },
{
    if str_eq(a, "new_file") {
        Some("New File")
    } else if str_eq(a, "open_file") {
        Some("Open File")
    } else if str_eq(a, "save") {
        Some("Save")
    } else if str_eq(a, "save_as") {
        Some("Save As")
    } else if str_eq(a, "close_tab") {
        Some("Close Tab")
    } else if str_eq(a, "undo") {
        Some("Undo")
    } else if str_eq(a, "redo") {
        Some("Redo")
    } else if str_eq(a, "zoom_in") {
        Some("Zoom In")
    } else if str_eq(a, "zoom_out") {
        Some("Zoom Out")
    } else if str_eq(a, "zoom_reset") {
        Some("Reset Zoom")
    } else if str_eq(a, "find") {
        Some("Find")
    } else if str_eq(a, "replace") {
        Some("Replace")
    } else if str_eq(a, "find_next") {
        Some("Find Next")
    } else if str_eq(a, "find_prev") {
        Some("Find Previous")
    } else if str_eq(a, "goto_line") {
        Some("Go to Line")
    } else if str_eq(a, "command_palette") {
        Some("Command Palette")
    } else if str_eq(a, "bracket_jump") {
        Some("Jump to Matching Bracket")
    } else if str_eq(a, "toggle_bookmark") {
        Some("Toggle Bookmark")
    } else if str_eq(a, "next_bookmark") {
        Some("Next Bookmark")
    } else if str_eq(a, "prev_bookmark") {
        Some("Previous Bookmark")
    } else if str_eq(a, "format_json") {
        Some("Format JSON")
    } else if str_eq(a, "toggle_macro_recording") {
        Some("Start/Stop Macro Recording")
    } else if str_eq(a, "play_last_macro") {
        Some("Play Last Macro")
    } else if str_eq(a, "select_next") {
        Some("Select Next Occurrence")
    } else if str_eq(a, "select_all_occurrences") {
        Some("Select All Occurrences")
    } else if str_eq(a, "toggle_comment") {
        Some("Toggle Comment")
    } else if str_eq(a, "toggle_hex_view") {
        Some("Toggle Hex View")
    } else if str_eq(a, "toggle_fold") {
        Some("Toggle Fold")
    } else if str_eq(a, "escape") {
        Some("Escape / Close")
    } else {
        None
    }
}

/// One line of the action list: the action, the name shown for it (the
/// action itself when it has none), and its shortcut.
pub open spec fn action_row(e: (Seq<char>, BindingView)) -> (Seq<char>, Seq<char>, Seq<char>) {
    (
        e.0,
        match action_title(e.0) {
            Some(t) => t,
            None => e.0,
        },
        shortcut_text(e.1),
    )
}

/// `rs` with `r` placed after every row whose shown name does not sort
/// after its own.
pub open spec fn insert_row(rs: Seq<(Seq<char>, Seq<char>, Seq<char>)>, r: (Seq<char>, Seq<char>, Seq<char>)) -> Seq<
    (Seq<char>, Seq<char>, Seq<char>),
>
    decreases rs.len(),
{
    if rs.len() == 0 {
        seq![r]
    } else if lex_lt(r.1, rs[0].1) {
        seq![r] + rs
    } else {
        seq![rs[0]] + insert_row(rs.drop_first(), r)
    }
}

/// The rows stably sorted by shown name.
pub open spec fn sort_rows(rs: Seq<(Seq<char>, Seq<char>, Seq<char>)>) -> Seq<(Seq<char>, Seq<char>, Seq<char>)>
    decreases rs.len(),
{
    if rs.len() == 0 {
        seq![]
    } else {
        insert_row(sort_rows(rs.drop_last()), rs.last())
    }
}

/// The rows of all bindings, in binding order.
pub open spec fn action_rows(v: Seq<(Seq<char>, BindingView)>) -> Seq<(Seq<char>, Seq<char>, Seq<char>)> {
    Seq::new(v.len(), |i: int| action_row(v[i]))
}

/// The view of rows of strings.
pub open spec fn rows_view(v: Seq<(String, String, String)>) -> Seq<(Seq<char>, Seq<char>, Seq<char>)> {
    v.map_values(|r: (String, String, String)| (r.0@, r.1@, r.2@))
}

proof fn lemma_insert_row_at(
    rs: Seq<(Seq<char>, Seq<char>, Seq<char>)>,
    r: (Seq<char>, Seq<char>, Seq<char>),
    p: int,
)
    requires
        0 <= p <= rs.len(),
        forall|j: int| 0 <= j < p ==> !lex_lt(r.1, (#[trigger] rs[j]).1),
        p < rs.len() ==> lex_lt(r.1, rs[p].1),
    ensures
        insert_row(rs, r) == rs.take(p).push(r) + rs.skip(p),
    decreases rs.len(),
{
    if rs.len() == 0 {
        assert(rs.take(p).push(r) + rs.skip(p) == seq![r]);
    } else if p == 0 {
        assert(rs.take(0).push(r) + rs.skip(0) == seq![r] + rs);
    } else {
        let t = rs.drop_first();
        assert forall|j: int| 0 <= j < p - 1 implies !lex_lt(r.1, (#[trigger] t[j]).1) by {
            assert(t[j] == rs[j + 1]);
        }
        assert(!lex_lt(r.1, rs[0].1));
        if p - 1 < t.len() {
            assert(t[p - 1] == rs[p]);
        }
        lemma_insert_row_at(t, r, p - 1);
        assert(seq![rs[0]] + (t.take(p - 1).push(r) + t.skip(p - 1)) == rs.take(p).push(r)
            + rs.skip(p));
    }
}

/// Placing a row is inserting it at some position.
proof fn lemma_insert_row_is_insert(
    rs: Seq<(Seq<char>, Seq<char>, Seq<char>)>,
    r: (Seq<char>, Seq<char>, Seq<char>),
) -> (p: int)
    ensures
        0 <= p <= rs.len(),
        insert_row(rs, r) == rs.insert(p, r),
    decreases rs.len(),
{
    if rs.len() == 0 {
        assert(rs.insert(0, r) =~= seq![r]);
        0
    } else if lex_lt(r.1, rs[0].1) {
        assert(rs.insert(0, r) =~= seq![r] + rs);
        0
    } else {
        let q = lemma_insert_row_is_insert(rs.drop_first(), r);
        assert(seq![rs[0]] + rs.drop_first().insert(q, r) =~= rs.insert(q + 1, r));
        q + 1
    }
}

/// Sorting the rows keeps each of them, as often as it occurs.
proof fn lemma_sort_rows_multiset(rs: Seq<(Seq<char>, Seq<char>, Seq<char>)>)
    ensures
        sort_rows(rs).to_multiset() == rs.to_multiset(),
    decreases rs.len(),
{
    broadcast use vstd::seq_lib::group_to_multiset_ensures;

    if rs.len() > 0 {
        let init = rs.drop_last();
        lemma_sort_rows_multiset(init);
        let p = lemma_insert_row_is_insert(sort_rows(init), rs.last());
        assert(rs =~= init.push(rs.last()));
    }
}

impl Default for KeyBindings {
    fn default() -> (res: Self)
        ensures
            res.view_entries() == Seq::new(
                default_table().len(),
                |i: int|
                    (
                        default_table()[i].0,
                        (
                            default_table()[i].1,
                            default_table()[i].2,
                            default_table()[i].3,
                            default_table()[i].4,
                        ),
                    ),
            ),
    {
        KeyBindings::defaults()
    }
}

impl KeyBindings {
    #[verifier::type_invariant]
    spec fn wf(self) -> bool {
        names_distinct(bindings_view(self.bindings@))
    }

    /// The bindings as plain values.
    pub closed spec fn view_entries(&self) -> Seq<(Seq<char>, BindingView)> {
        bindings_view(self.bindings@)
    }

    /// The bindings, in the order they were made.
    pub fn bindings(&self) -> (res: &[(String, KeyBinding)])
        ensures
            bindings_view(res@) == self.view_entries(),
            names_distinct(self.view_entries()),
    {
        proof {
            use_type_invariant(self);
        }
        self.bindings.as_slice()
    }

    /// Makes a binding for an action, replacing the one it had.
    fn put(&mut self, action: String, binding: KeyBinding)
        ensures
            final(self).view_entries() == with_binding(old(self).view_entries(), (action@, binding.as_view())),
    {
        proof {
            use_type_invariant(&*self);
        }
        let ghost e = (action@, binding.as_view());
        let mut v: Vec<(String, KeyBinding)> = Vec::new();
        std::mem::swap(&mut v, &mut self.bindings);
        let ghost bv = bindings_view(v@);
        let mut i: usize = 0;
        while i < v.len()
            invariant
                i <= v@.len(),
                bv == bindings_view(v@),
                e == (action@, binding.as_view()),
                bv == old(self).view_entries(),
                names_distinct(bv),
                forall|k: int| 0 <= k < i ==> (#[trigger] bv[k]).0 != e.0,
            decreases v.len() - i,
        {
            assert(bv[i as int] == (v@[i as int].0@, v@[i as int].1.as_view()));
            if str_eq(v[i].0.as_str(), action.as_str()) {
                assert(bv[i as int].0 == e.0);
                let ghost c = choose|k: int| 0 <= k < bv.len() && (#[trigger] bv[k]).0 == e.0;
                assert(c == i) by {
                    if c < i {
                        assert(bv[c].0 != bv[i as int].0);
                    } else if c > i {
                        assert(bv[i as int].0 != bv[c].0);
                    }
                }
                let ghost old_v = v@;
                let ghost ev = (action, binding);
                v.set(i, (action, binding));
                assert(v@ == old_v.update(i as int, ev));
                assert forall|k: int| 0 <= k < v@.len() implies #[trigger] bindings_view(v@)[k] == bv.update(i as int, e)[k] by {
                    if k != i {
                        assert(v@[k] == old_v[k]);
                    }
                }
                assert(bindings_view(v@) =~= bv.update(i as int, e));
                self.bindings = v;
                return;
            }
            i += 1;
        }
        v.push((action, binding));
        assert(bindings_view(v@) =~= bv.push(e));
        self.bindings = v;
    }

    /// Bindings made from (action, binding) pairs in turn, a later one for
    /// an action replacing an earlier one.
    pub fn from_pairs(pairs: Vec<(String, KeyBinding)>) -> (res: Self)
        ensures
            res.view_entries() == table_of(bindings_view(pairs@)),
    {
        let ghost all = bindings_view(pairs@);
        let mut kb = KeyBindings { bindings: Vec::new() };
        assert(kb.view_entries() =~= table_of(all.take(0)));
        let mut rest = pairs;
        let ghost mut k: int = 0;
        while rest.len() > 0
            invariant
                0 <= k <= all.len(),
                bindings_view(rest@) == all.skip(k),
                kb.view_entries() == table_of(all.take(k)),
            decreases rest.len(),
        {
            let ghost before = rest@;
            let (action, binding) = rest.remove(0);
            assert(bindings_view(rest@) =~= bindings_view(before).skip(1));
            assert(all.skip(k)[0] == (action@, binding.as_view()));
            assert(all.take(k + 1).drop_last() =~= all.take(k));
            kb.put(action, binding);
            proof {
                k = k + 1;
            }
            assert(all.skip(k) =~= all.skip(k - 1).skip(1));
        }
        assert(all.take(k) =~= all);
        kb
    }

    /// The default bindings (see `default_table`).
    #[verifier::rlimit(60)]
    pub fn defaults() -> (res: Self)
        ensures
            res.view_entries() == Seq::new(
                default_table().len(),
                |i: int|
                    (
                        default_table()[i].0,
                        (
                            default_table()[i].1,
                            default_table()[i].2,
                            default_table()[i].3,
                            default_table()[i].4,
                        ),
                    ),
            ),
    {
        let mut v: Vec<(String, KeyBinding)> = Vec::new();
    v.push((String::from_str("new_file"), KeyBinding::new("N", true, false, false)));
    v.push((String::from_str("open_file"), KeyBinding::new("O", true, false, false)));
    v.push((String::from_str("save"), KeyBinding::new("S", true, false, false)));
    v.push((String::from_str("save_as"), KeyBinding::new("S", true, true, false)));
    v.push((String::from_str("close_tab"), KeyBinding::new("W", true, false, false)));
    v.push((String::from_str("undo"), KeyBinding::new("Z", true, false, false)));
    v.push((String::from_str("redo"), KeyBinding::new("Y", true, false, false)));
    v.push((String::from_str("zoom_in"), KeyBinding::new("=", true, false, false)));
    v.push((String::from_str("zoom_out"), KeyBinding::new("-", true, false, false)));
    v.push((String::from_str("zoom_reset"), KeyBinding::new("0", true, false, false)));
    v.push((String::from_str("find"), KeyBinding::new("F", true, false, false)));
    v.push((String::from_str("replace"), KeyBinding::new("H", true, false, false)));
    v.push((String::from_str("find_next"), KeyBinding::new("F3", false, false, false)));
    v.push((String::from_str("find_prev"), KeyBinding::new("F3", false, true, false)));
    v.push((String::from_str("goto_line"), KeyBinding::new("G", true, false, false)));
    v.push((String::from_str("command_palette"), KeyBinding::new("P", true, false, false)));
    v.push((String::from_str("bracket_jump"), KeyBinding::new("]", true, false, false)));
    v.push((String::from_str("toggle_bookmark"), KeyBinding::new("F2", true, false, false)));
    v.push((String::from_str("next_bookmark"), KeyBinding::new("F2", false, false, false)));
    v.push((String::from_str("prev_bookmark"), KeyBinding::new("F2", false, true, false)));
    v.push((String::from_str("format_json"), KeyBinding::new("J", true, true, false)));
    v.push((String::from_str("toggle_macro_recording"), KeyBinding::new("R", true, true, false)));
    v.push((String::from_str("play_last_macro"), KeyBinding::new("P", true, true, false)));
    v.push((String::from_str("select_next"), KeyBinding::new("D", true, false, false)));
    v.push((String::from_str("toggle_hex_view"), KeyBinding::new("H", true, true, false)));
    v.push((String::from_str("escape"), KeyBinding::new("Escape", false, false, false)));
    v.push((String::from_str("delete_line"), KeyBinding::new("K", true, true, false)));
    v.push((String::from_str("join_lines"), KeyBinding::new("J", true, false, false)));
    v.push((String::from_str("case_upper"), KeyBinding::new("U", true, true, false)));
    v.push((String::from_str("case_lower"), KeyBinding::new("U", true, false, false)));
    v.push((String::from_str("toggle_comment"), KeyBinding::new("/", true, false, false)));
    v.push((String::from_str("select_all_occurrences"), KeyBinding::new("L", true, true, false)));
    v.push((String::from_str("toggle_fold"), KeyBinding::new("[", true, true, false)));
        proof {
            assert(bindings_view(v@) =~= Seq::new(
                default_table().len(),
                |i: int|
                    (
                        default_table()[i].0,
                        (
                            default_table()[i].1,
                            default_table()[i].2,
                            default_table()[i].3,
                            default_table()[i].4,
                        ),
                    ),
            ));
            lemma_default_names_distinct();
        }
        let res = KeyBindings { bindings: v };
        res
    }

    fn find(&self, action: &str) -> (res: Option<usize>)
        ensures
            match res {
                Some(i) => i < self.bindings@.len() && binding_for(self.view_entries(), action@)
                    == Some(self.view_entries()[i as int].1),
                None => binding_for(self.view_entries(), action@) is None,
            },
    {
        let ghost v = self.view_entries();
        let mut i: usize = 0;
        proof {
            assert(v.skip(0) == v);
        }
        while i < self.bindings.len()
            invariant
                i <= self.bindings@.len(),
                v == self.view_entries(),
                binding_for(v, action@) == binding_for(v.skip(i as int), action@),
            decreases self.bindings.len() - i,
        {
            proof {
                assert(v.skip(i as int)[0] == v[i as int]);
                assert(v.skip(i as int).skip(1) == v.skip(i as int + 1));
            }
            if str_eq(self.bindings[i].0.as_str(), action) {
                return Some(i);
            }
            i += 1;
        }
        None
    }

    /// Whether the key press (key name and modifiers) is the binding of
    /// `action`: the same modifiers, and the same key up to ASCII case.
    pub fn matches(&self, action: &str, key: &str, ctrl: bool, shift: bool, alt: bool) -> (res: bool)
        ensures
            res == match binding_for(self.view_entries(), action@) {
                Some(b) => b.1 == ctrl && b.2 == shift && b.3 == alt && ascii_lowercase(b.0)
                    == ascii_lowercase(key@),
                None => false,
            },
    {
        match self.find(action) {
            Some(i) => {
                let b = &self.bindings[i].1;
                if b.ctrl == ctrl && b.shift == shift && b.alt == alt {
                    let x = to_ascii_lowercase(b.key.as_str());
                    let y = to_ascii_lowercase(key);
                    str_eq(x.as_str(), y.as_str())
                } else {
                    false
                }
            },
            None => false,
        }
    }

    /// The shortcut text of `action`'s binding; empty when it has none.
    pub fn display_shortcut(&self, action: &str) -> (res: String)
        ensures
            res@ == match binding_for(self.view_entries(), action@) {
                Some(b) => shortcut_text(b),
                None => seq![],
            },
    {
        match self.find(action) {
            Some(i) => self.bindings[i].1.display(),
            None => String::new(),
        }
    }

    /// Every binding as (action, shown name, shortcut), stably sorted by
    /// shown name (see `action_row`).
    pub fn all_actions_sorted(&self) -> (res: Vec<(String, String, String)>)
        ensures
            rows_view(res@) == sort_rows(action_rows(self.view_entries())),
            rows_view(res@).to_multiset() == action_rows(self.view_entries()).to_multiset(),
            names_distinct(self.view_entries()),
    {
        proof {
            use_type_invariant(self);
            lemma_sort_rows_multiset(action_rows(self.view_entries()));
        }
        let ghost rows = action_rows(self.view_entries());
        let mut out: Vec<(String, String, String)> = Vec::new();
        let mut keys: Vec<Vec<char>> = Vec::new();
        let mut i: usize = 0;
        while i < self.bindings.len()
            invariant
                i <= self.bindings@.len(),
                rows == action_rows(self.view_entries()),
                rows_view(out@) == sort_rows(rows.take(i as int)),
                keys@.len() == out@.len(),
                forall|k: int| 0 <= k < out@.len() ==> #[trigger] keys@[k]@ == out@[k].1@,
            decreases self.bindings.len() - i,
        {
            let (action, binding) = (&self.bindings[i].0, &self.bindings[i].1);
            let shown = match action_title_exec(action.as_str()) {
                Some(t) => String::from_str(t),
                None => action.clone(),
            };
            let row = (action.clone(), shown, binding.display());
            let kx = str_chars(row.1.as_str());
            proof {
                assert(rows[i as int] == (row.0@, row.1@, row.2@));
            }
            let mut p: usize = 0;
            while p < out.len() && !lex_less(kx.as_slice(), keys[p].as_slice())
                invariant
                    p <= out@.len(),
                    keys@.len() == out@.len(),
                    kx@ == row.1@,
                    forall|k: int| 0 <= k < out@.len() ==> #[trigger] keys@[k]@ == out@[k].1@,
                    forall|j: int| 0 <= j < p ==> !lex_lt(row.1@, (#[trigger] rows_view(out@)[j]).1),
                decreases out.len() - p,
            {
                proof {
                    assert(rows_view(out@)[p as int].1 == out@[p as int].1@);
                }
                p += 1;
            }
            proof {
                let rv = rows_view(out@);
                if p < out@.len() {
                    assert(rv[p as int].1 == out@[p as int].1@);
                }
                lemma_insert_row_at(rv, (row.0@, row.1@, row.2@), p as int);
                assert(rows.take(i as int + 1).drop_last() == rows.take(i as int));
                assert(rows.take(i as int + 1).last() == rows[i as int]);
            }
            let ghost old_out = out@;
            let ghost old_keys = keys@;
            out.insert(p, row);
            keys.insert(p, kx);
            proof {
                assert(rows_view(out@) == rows_view(old_out).take(p as int).push(rows[i as int])
                    + rows_view(old_out).skip(p as int));
                assert forall|k: int| 0 <= k < out@.len() implies #[trigger] keys@[k]@ == out@[k].1@ by {
                    if k < p {
                        assert(out@[k] == old_out[k]);
                        assert(keys@[k] == old_keys[k]);
                    } else if k > p {
                        assert(out@[k] == old_out[k - 1]);
                        assert(keys@[k] == old_keys[k - 1]);
                    }
                }
            }
            i += 1;
        }
        proof {
            assert(rows.take(self.bindings@.len() as int) == rows);
        }
        out
    }
}

} // verus!
