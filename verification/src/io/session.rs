//! Saved editor sessions: the files that were open and where their cursors
//! were, with the names under which encodings and line endings are saved.
use vstd::prelude::*;
use crate::editor::document::{Encoding, LineEnding};
use crate::editor::tab_manager::TabManager;
use crate::editor::cursor::Position;
use crate::text::str_eq;

verus! {

/// A saved session.
#[derive(Debug, Clone)]
pub struct Session {
    pub name: String,
    pub files: Vec<SessionFile>,
    pub active_tab: usize,
}

/// One file of a saved session.
#[derive(Debug, Clone)]
pub struct SessionFile {
    pub path: String,
    pub cursor_line: usize,
    pub cursor_col: usize,
    pub encoding: String,
    pub line_ending: String,
}

/// The name under which an encoding is saved.
pub open spec fn encoding_name(e: Encoding) -> Seq<char> {
    match e {
        Encoding::UTF8 => "UTF-8"@,
        Encoding::UTF8BOM => "UTF-8 BOM"@,
        Encoding::UTF16LE => "UTF-16 LE"@,
        Encoding::UTF16BE => "UTF-16 BE"@,
        Encoding::ASCII => "ASCII"@,
    }
}

/// The encoding a saved name stands for; UTF-8 for an unknown name.
pub open spec fn encoding_from_name(s: Seq<char>) -> Encoding {
    if s == "UTF-8"@ {
        Encoding::UTF8
    } else if s == "UTF-8 BOM"@ {
        Encoding::UTF8BOM
    } else if s == "UTF-16 LE"@ {
        Encoding::UTF16LE
    } else if s == "UTF-16 BE"@ {
        Encoding::UTF16BE
    } else if s == "ASCII"@ {
        Encoding::ASCII
    } else {
        Encoding::UTF8
    }
}

/// The name under which a line ending is saved.
pub open spec fn line_ending_name(le: LineEnding) -> Seq<char> {
    match le {
        LineEnding::CRLF => "CRLF"@,
        LineEnding::LF => "LF"@,
        LineEnding::CR => "CR"@,
    }
}

/// The line ending a saved name stands for; LF for an unknown name.
pub open spec fn line_ending_from_name(s: Seq<char>) -> LineEnding {
    if s == "CRLF"@ {
        LineEnding::CRLF
    } else if s == "LF"@ {
        LineEnding::LF
    } else if s == "CR"@ {
        LineEnding::CR
    } else {
        LineEnding::LF
    }
}

/// The name under which an encoding is saved.
pub fn encoding_to_string(enc: Encoding) -> (res: String)
    ensures
        res@ == encoding_name(enc),
{
    match enc {
        Encoding::UTF8 => String::from_str("UTF-8"),
        Encoding::UTF8BOM => String::from_str("UTF-8 BOM"),
        Encoding::UTF16LE => String::from_str("UTF-16 LE"),
        Encoding::UTF16BE => String::from_str("UTF-16 BE"),
        Encoding::ASCII => String::from_str("ASCII"),
    }
}

/// The name under which a line ending is saved.
pub fn line_ending_to_string(le: LineEnding) -> (res: String)
    ensures
        res@ == line_ending_name(le),
{
    match le {
        LineEnding::CRLF => String::from_str("CRLF"),
        LineEnding::LF => String::from_str("LF"),
        LineEnding::CR => String::from_str("CR"),
    }
}

/// The encoding a saved name stands for; UTF-8 for an unknown name.
pub fn parse_encoding(s: &str) -> (res: Encoding)
    ensures
        res == encoding_from_name(s@),
{
    if str_eq(s, "UTF-8") {
        Encoding::UTF8
    } else if str_eq(s, "UTF-8 BOM") {
        Encoding::UTF8BOM
    } else if str_eq(s, "UTF-16 LE") {
        Encoding::UTF16LE
    } else if str_eq(s, "UTF-16 BE") {
        Encoding::UTF16BE
    } else if str_eq(s, "ASCII") {
        Encoding::ASCII
    } else {
        Encoding::UTF8
    }
}

/// The line ending a saved name stands for; LF for an unknown name.
pub fn parse_line_ending(s: &str) -> (res: LineEnding)
    ensures
        res == line_ending_from_name(s@),
{
    if str_eq(s, "CRLF") {
        LineEnding::CRLF
    } else if str_eq(s, "LF") {
        LineEnding::LF
    } else if str_eq(s, "CR") {
        LineEnding::CR
    } else {
        LineEnding::LF
    }
}

/// Saving an encoding under its name and reading the name back gives the
/// same encoding.
pub proof fn law_encoding_name_round_trip(e: Encoding)
    ensures
        encoding_from_name(encoding_name(e)) == e,
{
    reveal_strlit("UTF-8");
    reveal_strlit("UTF-8 BOM");
    reveal_strlit("UTF-16 LE");
    reveal_strlit("UTF-16 BE");
    reveal_strlit("ASCII");
    assert("UTF-8"@.len() != "UTF-8 BOM"@.len());
    assert("UTF-8"@ != "UTF-8 BOM"@);
    assert("UTF-8"@.len() != "UTF-16 LE"@.len());
    assert("UTF-8"@ != "UTF-16 LE"@);
    assert("UTF-8"@.len() != "UTF-16 BE"@.len());
    assert("UTF-8"@ != "UTF-16 BE"@);
    assert("UTF-8"@[0] != "ASCII"@[0]);
    assert("UTF-8"@ != "ASCII"@);
    assert("UTF-8 BOM"@[4] != "UTF-16 LE"@[4]);
    assert("UTF-8 BOM"@ != "UTF-16 LE"@);
    assert("UTF-8 BOM"@[4] != "UTF-16 BE"@[4]);
    assert("UTF-8 BOM"@ != "UTF-16 BE"@);
    assert("UTF-8 BOM"@.len() != "ASCII"@.len());
    assert("UTF-8 BOM"@ != "ASCII"@);
    assert("UTF-16 LE"@[7] != "UTF-16 BE"@[7]);
    assert("UTF-16 LE"@ != "UTF-16 BE"@);
    assert("UTF-16 LE"@.len() != "ASCII"@.len());
    assert("UTF-16 LE"@ != "ASCII"@);
    assert("UTF-16 BE"@.len() != "ASCII"@.len());
    assert("UTF-16 BE"@ != "ASCII"@);
}

/// Saving a line ending under its name and reading the name back gives the
/// same line ending.
pub proof fn law_line_ending_name_round_trip(le: LineEnding)
    ensures
        line_ending_from_name(line_ending_name(le)) == le,
{
    reveal_strlit("CRLF");
    reveal_strlit("LF");
    reveal_strlit("CR");
    assert("CRLF"@.len() != "LF"@.len());
    assert("CRLF"@ != "LF"@);
    assert("CRLF"@.len() != "CR"@.len());
    assert("CRLF"@ != "CR"@);
    assert("LF"@[0] != "CR"@[0]);
    assert("LF"@ != "CR"@);
}

// ---------------------------------------------------------------------------
// Capturing and restoring
// ---------------------------------------------------------------------------

/// A session file as plain values: path, cursor line and column, encoding
/// and line ending names.
pub open spec fn file_view(f: SessionFile) -> (Seq<char>, usize, usize, Seq<char>, Seq<char>) {
    (f.path@, f.cursor_line, f.cursor_col, f.encoding@, f.line_ending@)
}

/// The session entries of the first `n` tabs: one per tab with a path, with
/// its caret and the names of its encoding and line ending.
pub open spec fn captured_files(tm: TabManager, n: int) -> Seq<(Seq<char>, usize, usize, Seq<char>, Seq<char>)>
    decreases n,
{
    if n <= 0 {
        seq![]
    } else {
        let prev = captured_files(tm, n - 1);
        let d = tm.docs()[n - 1];
        match d.path {
            Some(p) => prev.push(
                (
                    p@,
                    d.cursor.position.line,
                    d.cursor.position.col,
                    encoding_name(d.encoding),
                    line_ending_name(d.line_ending),
                ),
            ),
            None => prev,
        }
    }
}

/// The session of the open tabs: the files of those with a path, in tab
/// order, and the active tab's index.
pub fn capture_session(tab_manager: &TabManager, name: &str) -> (res: Session)
    ensures
        res.name@ == name@,
        res.files@.map_values(|f: SessionFile| file_view(f)) == captured_files(
            *tab_manager,
            tab_manager.docs().len() as int,
        ),
        res.active_tab == tab_manager.active(),
{
    let count = tab_manager.tab_count();
    let mut files: Vec<SessionFile> = Vec::new();
    let mut i: usize = 0;
    while i < count
        invariant
            i <= count,
            count == tab_manager.docs().len(),
            files@.map_values(|f: SessionFile| file_view(f)) == captured_files(
                *tab_manager,
                i as int,
            ),
        decreases count - i,
    {
        if let Some(doc) = tab_manager.get_document(i) {
            if let Some(path) = &doc.path {
                let ghost before = files@;
                files.push(
                    SessionFile {
                        path: path.clone(),
                        cursor_line: doc.cursor.position.line,
                        cursor_col: doc.cursor.position.col,
                        encoding: encoding_to_string(doc.encoding),
                        line_ending: line_ending_to_string(doc.line_ending),
                    },
                );
                assert(files@.map_values(|f: SessionFile| file_view(f)) =~= before.map_values(
                    |f: SessionFile| file_view(f),
                ).push(file_view(files@.last())));
            }
        }
        i = i + 1;
    }
    Session { name: String::from_str(name), files, active_tab: tab_manager.active_index() }
}

/// The indices of the session files among the first `n` that could be read.
pub open spec fn read_files(contents: Seq<Option<(String, Encoding, LineEnding)>>, n: int) -> Seq<int>
    decreases n,
{
    if n <= 0 {
        seq![]
    } else if contents[n - 1] is Some {
        read_files(contents, n - 1).push(n - 1)
    } else {
        read_files(contents, n - 1)
    }
}

/// Reopens a session's files in place of all tabs: `contents` holds, for
/// each session file, the text, encoding and line ending read from it, or
/// `None` where it is missing or could not be read. Each file read gets a
/// tab in order; all but the first also get their saved caret, encoding and
/// line ending (the first keeps what was read). Without any, one untitled
/// tab is left. The saved active tab is made active where it exists; else
/// the last tab opened stays active.
pub fn restore_session(
    session: &Session,
    tab_manager: &mut TabManager,
    contents: &Vec<Option<(String, Encoding, LineEnding)>>,
) -> (res: Result<(), String>)
    requires
        old(tab_manager).counter() < usize::MAX,
        contents@.len() == session.files@.len(),
    ensures
        res is Ok,
        final(tab_manager).wf(),
        ({
            let opened = read_files(contents@, contents@.len() as int);
            let k = opened.len();
            let docs = final(tab_manager).docs();
            &&& k == 0 ==> docs.len() == 1 && docs[0].fresh(Seq::<char>::empty())
            &&& k > 0 ==> docs.len() == k && forall|j: int|
                0 <= j < k ==> {
                    let f = session.files@[opened[j]];
                    let c = contents@[opened[j]]->0;
                    &&& (#[trigger] docs[j]).path == Some(f.path)
                    &&& docs[j].buffer.chars() == c.0@
                    &&& !docs[j].buffer.modified()
                    &&& docs[j].cursor.anchor is None
                    &&& j == 0 ==> docs[j].cursor.position == Position::zero_spec()
                        && docs[j].encoding == c.1 && docs[j].line_ending == c.2
                    &&& j > 0 ==> docs[j].cursor.position == Position::new_spec(
                        f.cursor_line,
                        f.cursor_col,
                    ) && docs[j].encoding == encoding_from_name(f.encoding@)
                        && docs[j].line_ending == line_ending_from_name(f.line_ending@)
                }
            &&& final(tab_manager).active() == if session.active_tab < docs.len() {
                session.active_tab
            } else {
                (docs.len() - 1) as usize
            }
        }),
{
    tab_manager.close_all();
    let mut first = true;
    let mut i: usize = 0;
    while i < session.files.len()
        invariant
            i <= session.files@.len(),
            contents@.len() == session.files@.len(),
            tab_manager.wf(),
            first == (read_files(contents@, i as int).len() == 0),
            ({
                let opened = read_files(contents@, i as int);
                let k = opened.len();
                let docs = tab_manager.docs();
                &&& k == 0 ==> docs.len() == 1 && docs[0].fresh(Seq::<char>::empty())
                    && tab_manager.active() == 0
                &&& k > 0 ==> docs.len() == k && tab_manager.active() == k - 1 && forall|j: int|
                    0 <= j < k ==> {
                        let f = session.files@[opened[j]];
                        let c = contents@[opened[j]]->0;
                        &&& (#[trigger] docs[j]).path == Some(f.path)
                        &&& docs[j].buffer.chars() == c.0@
                        &&& !docs[j].buffer.modified()
                        &&& docs[j].cursor.anchor is None
                        &&& j == 0 ==> docs[j].cursor.position == Position::zero_spec()
                            && docs[j].encoding == c.1 && docs[j].line_ending == c.2
                        &&& j > 0 ==> docs[j].cursor.position == Position::new_spec(
                            f.cursor_line,
                            f.cursor_col,
                        ) && docs[j].encoding == encoding_from_name(f.encoding@)
                            && docs[j].line_ending == line_ending_from_name(f.line_ending@)
                    }
            }),
        decreases session.files.len() - i,
    {
        let file = &session.files[i];
        proof {
            assert(read_files(contents@, i + 1) == if contents@[i as int] is Some {
                read_files(contents@, i as int).push(i as int)
            } else {
                read_files(contents@, i as int)
            });
        }
        match &contents[i] {
            Some((text, encoding, line_ending)) => {
                let idx = tab_manager.open_file(
                    file.path.clone(),
                    text.as_str(),
                    *encoding,
                    *line_ending,
                );
                if first {
                    if tab_manager.tab_count() > 1 {
                        tab_manager.close_tab(0);
                    }
                    first = false;
                }
                if let Some(doc) = tab_manager.get_document_mut(idx) {
                    doc.cursor.set_position(file.cursor_line, file.cursor_col);
                    doc.encoding = parse_encoding(file.encoding.as_str());
                    doc.line_ending = parse_line_ending(file.line_ending.as_str());
                }
            },
            None => {},
        }
        i = i + 1;
    }
    let tab_count = tab_manager.tab_count();
    if session.active_tab < tab_count {
        tab_manager.set_active(session.active_tab);
    }
    proof {
        assert(read_files(contents@, contents@.len() as int) == read_files(
            contents@,
            session.files@.len() as int,
        ));
    }
    Ok(())
}

} // verus!
