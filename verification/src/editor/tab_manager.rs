//! The open documents as tabs: which one is active, and the "Untitled N"
//! names of those without a file.
//!
//! Reading and writing files is left to the caller: opening takes the text
//! that was read, and saving under a new path records the path once the
//! file is written.
use vstd::prelude::*;
use crate::editor::document::{path_file_name, Document, Encoding, LineEnding};
use crate::num::{decimal, push_decimal};

verus! {

/// The open documents, the active one, and the number of untitled tabs
/// made so far.
#[derive(Debug)]
pub struct TabManager {
    tabs: Vec<Document>,
    active_tab: usize,
    untitled_counter: usize,
    untitled_names: Vec<Option<String>>,
}

/// A name as plain chars.
pub open spec fn name_view(n: Option<String>) -> Option<Seq<char>> {
    match n {
        Some(s) => Some(s@),
        None => None,
    }
}

/// "Untitled N".
pub open spec fn untitled_name(n: nat) -> Seq<char> {
    "Untitled "@ + decimal(n)
}

impl TabManager {
    pub closed spec fn docs(self) -> Seq<Document> {
        self.tabs@
    }

    pub closed spec fn active(self) -> usize {
        self.active_tab
    }

    pub closed spec fn counter(self) -> usize {
        self.untitled_counter
    }

    /// The untitled name of each tab (`None` for a tab with a file).
    pub closed spec fn names(self) -> Seq<Option<Seq<char>>> {
        self.untitled_names@.map_values(|n: Option<String>| name_view(n))
    }

    /// At least one tab, the active one among them, and a name slot per tab.
    pub open spec fn wf(self) -> bool {
        &&& self.docs().len() >= 1
        &&& self.active() < self.docs().len()
        &&& self.names().len() == self.docs().len()
    }

    /// One untitled tab, "Untitled 1", active.
    pub fn new() -> (res: Self)
        ensures
            res.wf(),
            res.docs().len() == 1,
            res.docs()[0].fresh(Seq::<char>::empty()),
            res.names() == seq![Some(untitled_name(1))],
            res.active() == 0,
            res.counter() == 1,
    {
        let mut mgr = TabManager {
            tabs: Vec::new(),
            active_tab: 0,
            untitled_counter: 0,
            untitled_names: Vec::new(),
        };
        assert(mgr.names() =~= Seq::<Option<Seq<char>>>::empty());
        mgr.new_tab();
        assert(mgr.names() =~= seq![Some(untitled_name(1))]);
        mgr
    }

    /// Adds an untitled tab named after the next count and makes it active;
    /// returns its index.
    pub fn new_tab(&mut self) -> (res: usize)
        requires
            old(self).counter() < usize::MAX,
            old(self).names().len() == old(self).docs().len(),
        ensures
            res == old(self).docs().len(),
            final(self).docs().len() == old(self).docs().len() + 1,
            final(self).docs().drop_last() == old(self).docs(),
            final(self).docs().last().fresh(Seq::<char>::empty()),
            final(self).counter() == old(self).counter() + 1,
            final(self).names() == old(self).names().push(
                Some(untitled_name(final(self).counter() as nat)),
            ),
            final(self).active() == res,
            final(self).wf(),
    {
        self.untitled_counter = self.untitled_counter + 1;
        let mut name = String::from_str("Untitled ");
        push_decimal(&mut name, self.untitled_counter as u64);
        let doc = Document::new();
        let ghost before_names = self.untitled_names@;
        self.tabs.push(doc);
        self.untitled_names.push(Some(name));
        proof {
            reveal_strlit("Untitled ");
        }
        assert(self.untitled_names@.map_values(|n: Option<String>| name_view(n)) =~= before_names.map_values(
            |n: Option<String>| name_view(n),
        ).push(Some(untitled_name(self.untitled_counter as nat))));
        assert(self.tabs@.drop_last() =~= old(self).tabs@);
        let idx = self.tabs.len() - 1;
        self.active_tab = idx;
        idx
    }

    /// Adds a tab holding a file's text that was read, with its path,
    /// encoding and line ending, and makes it active; returns its index.
    pub fn open_file(&mut self, path: String, content: &str, encoding: Encoding, line_ending: LineEnding) -> (res: usize)
        requires
            old(self).names().len() == old(self).docs().len(),
        ensures
            res == old(self).docs().len(),
            final(self).docs().len() == old(self).docs().len() + 1,
            final(self).docs().drop_last() == old(self).docs(),
            final(self).docs().last().buffer.chars() == content@,
            final(self).docs().last().path == Some(path),
            final(self).docs().last().encoding == encoding,
            final(self).docs().last().line_ending == line_ending,
            final(self).docs().last().cursor.position == crate::editor::cursor::Position::zero_spec(),
            final(self).docs().last().cursor.anchor is None,
            !final(self).docs().last().buffer.modified(),
            final(self).names() == old(self).names().push(None),
            final(self).counter() == old(self).counter(),
            final(self).active() == res,
            final(self).wf(),
    {
        let doc = Document::from_str(content).with_path(path).with_encoding(encoding).with_line_ending(
            line_ending,
        );
        let ghost before_names = self.untitled_names@;
        self.tabs.push(doc);
        self.untitled_names.push(None);
        assert(self.untitled_names@.map_values(|n: Option<String>| name_view(n)) =~= before_names.map_values(
            |n: Option<String>| name_view(n),
        ).push(None));
        assert(self.tabs@.drop_last() =~= old(self).tabs@);
        let idx = self.tabs.len() - 1;
        self.active_tab = idx;
        idx
    }

    /// Closes tab `index`, keeping the same document active where it stays
    /// open; the last tab closed leaves a new untitled one. Returns the
    /// closed document if it had unsaved changes.
    pub fn close_tab(&mut self, index: usize) -> (res: Option<Document>)
        requires
            old(self).wf(),
            index < old(self).docs().len() && old(self).docs().len() == 1 ==> old(self).counter()
                < usize::MAX,
        ensures
            final(self).wf(),
            index >= old(self).docs().len() ==> res is None && final(self).docs() == old(
                self,
            ).docs() && final(self).names() == old(self).names() && final(self).active() == old(
                self,
            ).active() && final(self).counter() == old(self).counter(),
            index < old(self).docs().len() ==> {
                let d = old(self).docs()[index as int];
                let n = old(self).docs().len();
                &&& (if d.buffer.modified() {
                    res == Some(d)
                } else {
                    res is None
                })
                &&& n == 1 ==> {
                    &&& final(self).docs().len() == 1
                    &&& final(self).docs()[0].fresh(Seq::<char>::empty())
                    &&& final(self).counter() == old(self).counter() + 1
                    &&& final(self).names() == seq![Some(untitled_name(final(self).counter() as nat))]
                    &&& final(self).active() == 0
                }
                &&& n > 1 ==> {
                    &&& final(self).docs() == old(self).docs().remove(index as int)
                    &&& final(self).names() == old(self).names().remove(index as int)
                    &&& final(self).counter() == old(self).counter()
                    &&& final(self).active() == (if old(self).active() >= n - 1 {
                        (n - 2) as usize
                    } else if old(self).active() > index {
                        (old(self).active() - 1) as usize
                    } else {
                        old(self).active()
                    })
                }
            },
    {
        if index >= self.tabs.len() {
            return None;
        }
        let ghost before_names = self.untitled_names@;
        let doc = self.tabs.remove(index);
        self.untitled_names.remove(index);
        assert(self.untitled_names@.map_values(|n: Option<String>| name_view(n)) =~= before_names.map_values(
            |n: Option<String>| name_view(n),
        ).remove(index as int));
        if self.tabs.len() == 0 {
            assert(self.names() =~= Seq::<Option<Seq<char>>>::empty());
            self.new_tab();
            assert(self.names() =~= seq![Some(untitled_name(self.counter() as nat))]);
        } else if self.active_tab >= self.tabs.len() {
            self.active_tab = self.tabs.len() - 1;
        } else if self.active_tab > index {
            self.active_tab = self.active_tab - 1;
        }
        if doc.is_modified() {
            Some(doc)
        } else {
            None
        }
    }

    /// Closes every tab, leaving one new untitled tab.
    pub fn close_all(&mut self)
        requires
            old(self).counter() < usize::MAX,
        ensures
            final(self).wf(),
            final(self).docs().len() == 1,
            final(self).docs()[0].fresh(Seq::<char>::empty()),
            final(self).counter() == old(self).counter() + 1,
            final(self).names() == seq![Some(untitled_name(final(self).counter() as nat))],
            final(self).active() == 0,
    {
        self.tabs.clear();
        self.untitled_names.clear();
        self.active_tab = 0;
        assert(self.names() =~= Seq::<Option<Seq<char>>>::empty());
        self.new_tab();
        assert(self.names() =~= seq![Some(untitled_name(self.counter() as nat))]);
    }

    /// Records that tab `index` was written to `path`: it now has that path,
    /// no unsaved changes, and no untitled name.
    pub fn record_saved_as(&mut self, index: usize, path: String)
        requires
            old(self).wf(),
            index < old(self).docs().len(),
        ensures
            final(self).wf(),
            final(self).docs().len() == old(self).docs().len(),
            forall|j: int|
                0 <= j < final(self).docs().len() && j != index ==> final(self).docs()[j] == old(
                    self,
                ).docs()[j],
            final(self).docs()[index as int].path == Some(path),
            !final(self).docs()[index as int].buffer.modified(),
            crate::editor::buffer::same_but_flag(
                old(self).docs()[index as int].buffer,
                final(self).docs()[index as int].buffer,
            ),
            final(self).names() == old(self).names().update(index as int, None),
            final(self).active() == old(self).active(),
            final(self).counter() == old(self).counter(),
    {
        let mut doc = self.tabs.remove(index);
        doc.path = Some(path);
        doc.buffer.set_modified(false);
        self.tabs.insert(index, doc);
        let ghost before_names = self.untitled_names@;
        self.untitled_names.set(index, None);
        assert(self.untitled_names@.map_values(|n: Option<String>| name_view(n)) =~= before_names.map_values(
            |n: Option<String>| name_view(n),
        ).update(index as int, None));
    }

    pub fn active_document(&self) -> (res: &Document)
        requires
            self.wf(),
        ensures
            *res == self.docs()[self.active() as int],
    {
        &self.tabs[self.active_tab]
    }

    pub fn active_document_mut(&mut self) -> (res: &mut Document)
        requires
            old(self).wf(),
        ensures
            *res == old(self).docs()[old(self).active() as int],
            final(self).docs() == old(self).docs().update(old(self).active() as int, *final(res)),
            final(self).names() == old(self).names(),
            final(self).active() == old(self).active(),
            final(self).counter() == old(self).counter(),
    {
        &mut self.tabs[self.active_tab]
    }

    /// The document of tab `index` for changing, if there is one.
    pub fn get_document_mut(&mut self, index: usize) -> (res: Option<&mut Document>)
        ensures
            index >= old(self).docs().len() ==> res is None && final(self).docs() == old(self).docs(),
            index < old(self).docs().len() ==> (res matches Some(r) && *r == old(self).docs()[index as int]
                && final(self).docs() == old(self).docs().update(index as int, *final(r))),
            final(self).names() == old(self).names(),
            final(self).active() == old(self).active(),
            final(self).counter() == old(self).counter(),
    {
        if index < self.tabs.len() {
            Some(&mut self.tabs[index])
        } else {
            None
        }
    }

    pub fn set_active(&mut self, index: usize)
        ensures
            final(self).active() == if index < old(self).docs().len() {
                index
            } else {
                old(self).active()
            },
            final(self).docs() == old(self).docs(),
            final(self).names() == old(self).names(),
            final(self).counter() == old(self).counter(),
            old(self).wf() ==> final(self).wf(),
    {
        if index < self.tabs.len() {
            self.active_tab = index;
        }
    }

    pub fn active_index(&self) -> (res: usize)
        ensures
            res == self.active(),
    {
        self.active_tab
    }

    pub fn tab_count(&self) -> (res: usize)
        ensures
            res == self.docs().len(),
    {
        self.tabs.len()
    }

    /// A tab's title: the file name of its path (or "Untitled" where the path
    /// has none), else its untitled name, else "Untitled"; empty past the
    /// last tab.
    pub fn get_tab_title(&self, index: usize) -> (res: String)
        requires
            self.wf(),
        ensures
            index >= self.docs().len() ==> res@ == Seq::<char>::empty(),
            index < self.docs().len() ==> match self.docs()[index as int].path {
                Some(p) => res@ == "Untitled"@ || (res@.len() > 0 && crate::text::contains(
                    p@,
                    res@,
                )),
                None => match self.names()[index as int] {
                    Some(n) => res@ == n,
                    None => res@ == "Untitled"@,
                },
            },
    {
        if index >= self.tabs.len() {
            return String::new();
        }
        match &self.tabs[index].path {
            Some(p) => match path_file_name(p.as_str()) {
                Some(n) => n,
                None => String::from_str("Untitled"),
            },
            None => {
                assert(self.names()[index as int] == name_view(self.untitled_names@[index as int]));
                match &self.untitled_names[index] {
                    Some(name) => name.clone(),
                    None => String::from_str("Untitled"),
                }
            },
        }
    }

    /// Moves tab `from` to position `to`; the active tab stays the same
    /// document. Out-of-range or equal positions change nothing.
    pub fn move_tab(&mut self, from: usize, to: usize)
        requires
            old(self).wf(),
        ensures
            final(self).wf(),
            final(self).counter() == old(self).counter(),
            if from >= old(self).docs().len() || to >= old(self).docs().len() || from == to {
                &&& final(self).docs() == old(self).docs()
                &&& final(self).names() == old(self).names()
                &&& final(self).active() == old(self).active()
            } else {
                &&& final(self).docs() == old(self).docs().remove(from as int).insert(
                    to as int,
                    old(self).docs()[from as int],
                )
                &&& final(self).names() == old(self).names().remove(from as int).insert(
                    to as int,
                    old(self).names()[from as int],
                )
                &&& final(self).active() == (if old(self).active() == from {
                    to
                } else if from < to && from < old(self).active() <= to {
                    (old(self).active() - 1) as usize
                } else if to < from && to <= old(self).active() < from {
                    (old(self).active() + 1) as usize
                } else {
                    old(self).active()
                })
            },
    {
        if from >= self.tabs.len() || to >= self.tabs.len() || from == to {
            return ;
        }
        let ghost before_names = self.untitled_names@;
        let doc = self.tabs.remove(from);
        let name = self.untitled_names.remove(from);
        self.tabs.insert(to, doc);
        self.untitled_names.insert(to, name);
        assert(self.untitled_names@.map_values(|n: Option<String>| name_view(n)) =~= before_names.map_values(
            |n: Option<String>| name_view(n),
        ).remove(from as int).insert(to as int, name_view(before_names[from as int])));
        if self.active_tab == from {
            self.active_tab = to;
        } else if from < to {
            if self.active_tab > from && self.active_tab <= to {
                self.active_tab = self.active_tab - 1;
            }
        } else if self.active_tab >= to && self.active_tab < from {
            self.active_tab = self.active_tab + 1;
        }
    }

    /// Whether some tab has unsaved changes.
    pub fn is_any_modified(&self) -> (res: bool)
        ensures
            res == exists|j: int|
                0 <= j < self.docs().len() && (#[trigger] self.docs()[j]).buffer.modified(),
    {
        let mut i: usize = 0;
        while i < self.tabs.len()
            invariant
                i <= self.tabs@.len(),
                forall|j: int| 0 <= j < i ==> !(#[trigger] self.tabs@[j]).buffer.modified(),
            decreases self.tabs.len() - i,
        {
            if self.tabs[i].is_modified() {
                return true;
            }
            i = i + 1;
        }
        false
    }

    /// The document of tab `index`, if there is one.
    pub fn get_document(&self, index: usize) -> (res: Option<&Document>)
        ensures
            index < self.docs().len() ==> res == Some(&self.docs()[index as int]),
            index >= self.docs().len() ==> res is None,
    {
        if index < self.tabs.len() {
            Some(&self.tabs[index])
        } else {
            None
        }
    }

    /// Replaces the text of tab `index` with a file's text that was read
    /// again: everything is deleted, the new text inserted (both recorded in
    /// the history), the changes marked saved, and the encoding and line
    /// ending taken over. Fails for a missing tab or one without a path.
    pub fn reload_tab(&mut self, index: usize, content: &str, encoding: Encoding, line_ending: LineEnding) -> (res: Result<(), String>)
        requires
            old(self).wf(),
        ensures
            final(self).wf(),
            final(self).names() == old(self).names(),
            final(self).active() == old(self).active(),
            final(self).counter() == old(self).counter(),
            final(self).docs().len() == old(self).docs().len(),
            index >= old(self).docs().len() ==> (res matches Err(e) && e@ == "Invalid tab index"@
                && final(self).docs() == old(self).docs()),
            index < old(self).docs().len() && old(self).docs()[index as int].path is None ==> (res
                matches Err(e) && e@ == "Tab has no file path"@ && final(self).docs() == old(
                self,
            ).docs()),
            index < old(self).docs().len() && old(self).docs()[index as int].path is Some ==> {
                &&& res is Ok
                &&& forall|j: int|
                    0 <= j < final(self).docs().len() && j != index ==> final(self).docs()[j]
                        == old(self).docs()[j]
                &&& final(self).docs()[index as int].buffer.chars() == content@
                &&& !final(self).docs()[index as int].buffer.modified()
                &&& final(self).docs()[index as int].encoding == encoding
                &&& final(self).docs()[index as int].line_ending == line_ending
                &&& final(self).docs()[index as int].path == old(self).docs()[index as int].path
                &&& final(self).docs()[index as int].cursor == old(self).docs()[index as int].cursor
            },
    {
        if index >= self.tabs.len() {
            return Err(String::from_str("Invalid tab index"));
        }
        if self.tabs[index].path.is_none() {
            return Err(String::from_str("Tab has no file path"));
        }
        let mut doc = self.tabs.remove(index);
        let len = doc.buffer.len_bytes();
        if len > 0 {
            proof {
                crate::editor::buffer::lemma_char_of_byte_bounds(doc.buffer.chars(), 0);
                crate::editor::buffer::lemma_char_of_byte_bounds(doc.buffer.chars(), len as int);
            }
            doc.buffer.delete(0, len);
            assert(doc.buffer.chars() =~= Seq::<char>::empty());
        } else {
            proof {
                crate::bytes::lemma_bytes_len(doc.buffer.chars());
            }
        }
        let clen = content.as_bytes().len();
        assert(clen == crate::bytes::bytes_of(content@).len());
        if clen > 0 {
            proof {
                crate::bytes::lemma_empty_str_bytes();
            }
            doc.buffer.insert(0, content);
            proof {
                crate::editor::buffer::lemma_char_of_byte_bounds(Seq::<char>::empty(), 0);
            }
            assert(doc.buffer.chars() =~= content@);
        } else {
            assert(content@.len() == 0) by {
                crate::bytes::lemma_bytes_len(content@);
            }
            assert(content@ =~= Seq::<char>::empty());
        }
        doc.buffer.set_modified(false);
        doc.encoding = encoding;
        doc.line_ending = line_ending;
        self.tabs.insert(index, doc);
        Ok(())
    }
}

impl Default for TabManager {
    fn default() -> (res: Self)
        ensures
            res.wf(),
            res.docs().len() == 1,
            res.active() == 0,
            res.counter() == 1,
    {
        TabManager::new()
    }
}

} // verus!
