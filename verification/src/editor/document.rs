//! A document: a text buffer with its caret, file metadata, bookmarks and
//! folds, and the encodings and line endings it can be saved with.
use vstd::prelude::*;
use crate::editor::bookmarks::BookmarkManager;
use crate::editor::buffer::TextBuffer;
use crate::editor::cursor::{CursorState, Position};
use crate::editor::folding::FoldManager;
use crate::io::large_file::LargeFileInfo;
use crate::text::{replace_char, replace_char_exec, str_eq};
use crate::unicode::{lowercase, to_lowercase};

verus! {

/// A text encoding.
#[derive(Debug, Clone, Copy, PartialEq, Eq, Structural)]
pub enum Encoding {
    UTF8,
    UTF8BOM,
    UTF16LE,
    UTF16BE,
    ASCII,
}

/// A name as `Encoding::from_name` compares it: lower case, without hyphens.
pub open spec fn normalized_name(s: Seq<char>) -> Seq<char> {
    replace_char(lowercase(s), '-', ""@)
}

/// The encoding a normalized name stands for.
pub open spec fn encoding_named(n: Seq<char>) -> Option<Encoding> {
    if n == "utf8"@ {
        Some(Encoding::UTF8)
    } else if n == "utf8bom"@ {
        Some(Encoding::UTF8BOM)
    } else if n == "utf16le"@ {
        Some(Encoding::UTF16LE)
    } else if n == "utf16be"@ {
        Some(Encoding::UTF16BE)
    } else if n == "ascii"@ || n == "latin1"@ {
        Some(Encoding::ASCII)
    } else {
        None
    }
}

impl Encoding {
    /// The encoding named by `s`, ignoring case and hyphens: `utf8`,
    /// `utf8bom`, `utf16le`, `utf16be`, and `ascii` or `latin1`.
    pub fn from_name(s: &str) -> (res: Option<Self>)
        ensures
            res == encoding_named(normalized_name(s@)),
    {
        let lower = to_lowercase(s);
        let n = replace_char_exec(lower.as_str(), '-', "");
        let n = n.as_str();
        if str_eq(n, "utf8") {
            Some(Encoding::UTF8)
        } else if str_eq(n, "utf8bom") {
            Some(Encoding::UTF8BOM)
        } else if str_eq(n, "utf16le") {
            Some(Encoding::UTF16LE)
        } else if str_eq(n, "utf16be") {
            Some(Encoding::UTF16BE)
        } else if str_eq(n, "ascii") || str_eq(n, "latin1") {
            Some(Encoding::ASCII)
        } else {
            None
        }
    }
}

/// A line terminator.
#[derive(Debug, Clone, Copy, PartialEq, Eq, Structural)]
pub enum LineEnding {
    CRLF,
    LF,
    CR,
}

impl LineEnding {
    /// The characters of the terminator.
    pub open spec fn chars(self) -> Seq<char> {
        match self {
            LineEnding::CRLF => seq!['\r', '\n'],
            LineEnding::LF => seq!['\n'],
            LineEnding::CR => seq!['\r'],
        }
    }

    /// The terminator as text.
    pub fn as_str(&self) -> (res: &'static str)
        ensures
            res@ == self.chars(),
    {
        match self {
            LineEnding::CRLF => {
                let r = "\r\n";
                proof {
                    reveal_strlit("\r\n");
                }
                r
            },
            LineEnding::LF => {
                let r = "\n";
                proof {
                    reveal_strlit("\n");
                }
                r
            },
            LineEnding::CR => {
                let r = "\r";
                proof {
                    reveal_strlit("\r");
                }
                r
            },
        }
    }
}

/// Whether a path is one plain name on every platform: not empty, not `.`
/// or `..`, and without `/`, `\\` or `:`.
pub open spec fn plain_name(p: Seq<char>) -> bool {
    &&& p.len() > 0
    &&& p != "."@
    &&& p != ".."@
    &&& forall|i: int| 0 <= i < p.len() ==> p[i] != '/' && p[i] != '\\' && p[i] != ':'
}

/// `Path::file_name` of a path, as a string: its last component, unless
/// that is `.` or `..` or there is none. Which chars separate components
/// depends on the platform, so in general the component is not stated;
/// what is stated is that it is a non-empty part of the path, and that a
/// plain name is its own file name.
#[verifier::external_body]
pub(crate) fn path_file_name(path: &str) -> (res: Option<String>)
    ensures
        res matches Some(n) ==> n@.len() > 0 && crate::text::contains(path@, n@),
        res is Some || !plain_name(path@),
        plain_name(path@) ==> res->0@ == path@,
{
    match std::path::Path::new(path).file_name() {
        Some(n) => Some(n.to_string_lossy().to_string()),
        None => None,
    }
}

/// A text buffer with its caret and file metadata.
#[derive(Debug)]
pub struct Document {
    pub path: Option<String>,
    pub buffer: TextBuffer,
    pub cursor: CursorState,
    pub encoding: Encoding,
    pub line_ending: LineEnding,
    pub language: String,
    pub read_only: bool,
    pub bookmarks: BookmarkManager,
    pub large_file_info: LargeFileInfo,
    pub fold_manager: FoldManager,
}

impl Document {
    /// A fresh document holding `text`: no path, caret at the start, UTF-8
    /// with LF line endings, plain text, nothing bookmarked or folded.
    pub open spec fn fresh(self, text: Seq<char>) -> bool {
        &&& self.path is None
        &&& self.buffer.chars() == text
        &&& self.buffer.undo_edits().len() == 0
        &&& self.buffer.redo_edits().len() == 0
        &&& !self.buffer.modified()
        &&& self.buffer.limit() is None
        &&& self.cursor.position == Position::zero_spec()
        &&& self.cursor.anchor is None
        &&& self.encoding == Encoding::UTF8
        &&& self.line_ending == LineEnding::LF
        &&& self.language@ == "Plain Text"@
        &&& !self.read_only
        &&& self.bookmarks@ == Set::<usize>::empty()
        &&& self.large_file_info == LargeFileInfo::for_size(0)
        &&& self.fold_manager.folded() == Set::<usize>::empty()
        &&& self.fold_manager.regions_seq().len() == 0
    }

    /// An empty document.
    pub fn new() -> (res: Self)
        ensures
            res.fresh(Seq::<char>::empty()),
    {
        proof {
            crate::bytes::lemma_empty_str_bytes();
        }
        Document::from_str("")
    }

    /// A document holding `text`.
    pub fn from_str(text: &str) -> (res: Self)
        ensures
            res.fresh(text@),
    {
        Document {
            path: None,
            buffer: TextBuffer::from_str(text),
            cursor: CursorState::new(),
            encoding: Encoding::UTF8,
            line_ending: LineEnding::LF,
            language: String::from_str("Plain Text"),
            read_only: false,
            bookmarks: BookmarkManager::default(),
            large_file_info: LargeFileInfo::default(),
            fold_manager: FoldManager::new(),
        }
    }

    pub fn with_path(self, path: String) -> (res: Self)
        ensures
            res.path == Some(path),
            res.buffer == self.buffer,
            res.cursor == self.cursor,
            res.encoding == self.encoding,
            res.line_ending == self.line_ending,
            res.language == self.language,
            res.read_only == self.read_only,
            res.large_file_info == self.large_file_info,
    {
        let mut d = self;
        d.path = Some(path);
        d
    }

    pub fn with_encoding(self, enc: Encoding) -> (res: Self)
        ensures
            res.encoding == enc,
            res.path == self.path,
            res.buffer == self.buffer,
            res.cursor == self.cursor,
            res.line_ending == self.line_ending,
            res.language == self.language,
    {
        let mut d = self;
        d.encoding = enc;
        d
    }

    pub fn with_line_ending(self, le: LineEnding) -> (res: Self)
        ensures
            res.line_ending == le,
            res.path == self.path,
            res.buffer == self.buffer,
            res.cursor == self.cursor,
            res.encoding == self.encoding,
            res.language == self.language,
    {
        let mut d = self;
        d.line_ending = le;
        d
    }

    pub fn with_language(self, lang: &str) -> (res: Self)
        ensures
            res.language@ == lang@,
            res.path == self.path,
            res.buffer == self.buffer,
            res.cursor == self.cursor,
            res.encoding == self.encoding,
            res.line_ending == self.line_ending,
    {
        let mut d = self;
        d.language = String::from_str(lang);
        d
    }

    /// Takes a file's size categories; a large file bounds the undo history.
    pub fn with_large_file_info(self, info: LargeFileInfo) -> (res: Self)
        ensures
            res.large_file_info == info,
            res.buffer.chars() == self.buffer.chars(),
            res.buffer.redo_edits() == self.buffer.redo_edits(),
            res.buffer.modified() == self.buffer.modified(),
            match info.undo_limit {
                Some(m) => {
                    &&& res.buffer.limit() == Some(m)
                    &&& res.buffer.undo_edits() == crate::editor::buffer::keep_last(
                        self.buffer.undo_edits(),
                        Some(m),
                    )
                },
                None => res.buffer == self.buffer,
            },
            res.path == self.path,
            res.cursor == self.cursor,
            res.encoding == self.encoding,
            res.line_ending == self.line_ending,
            res.language == self.language,
    {
        let mut d = self;
        if let Some(limit) = info.undo_limit {
            d.buffer.set_undo_limit(Some(limit));
        }
        d.large_file_info = info;
        d
    }

    pub fn is_modified(&self) -> (res: bool)
        ensures
            res == self.buffer.modified(),
    {
        self.buffer.is_modified()
    }

    /// The file name of the path, or "Untitled" without a path or a file
    /// name in it.
    pub fn title(&self) -> (res: String)
        ensures
            self.path is None ==> res@ == "Untitled"@,
            self.path matches Some(p) ==> (res@ == "Untitled"@ || (res@.len() > 0
                && crate::text::contains(p@, res@))),
            self.path is Some && plain_name(self.path->0@) ==> res@ == self.path->0@,
    {
        match &self.path {
            Some(p) => match path_file_name(p.as_str()) {
                Some(n) => n,
                None => String::from_str("Untitled"),
            },
            None => String::from_str("Untitled"),
        }
    }
}

impl Default for Document {
    fn default() -> (res: Self)
        ensures
            res.fresh(Seq::<char>::empty()),
    {
        Document::new()
    }
}

} // verus!
