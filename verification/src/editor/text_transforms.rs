//! Case conversions, line comments, and the small formatting and navigation
//! helpers of the editor window.
use vstd::prelude::*;
use crate::editor::document::{Encoding, LineEnding};
use crate::tools::diff_tool::{DiffEntry, DiffLine, DiffResult, entries_of};
use crate::num::{decimal, parse_usize, parse_usize_chars, push_decimal};
use crate::text::{
    is_whitespace, is_ws, leading_ws_len, push_char, starts_with, str_chars, string_from_range,
    trim, trim_end, trim_start, trimmed_end_len,
};
use crate::unicode::{
    alphabetic, char_to_lower, char_to_upper, is_alphabetic, is_uppercase, lower_char, upper_char,
    uppercase,
};

verus! {

// ---------------------------------------------------------------------------
// Case conversions
// ---------------------------------------------------------------------------

/// Title case, read left to right: the text so far and whether the next
/// character starts a word. Whitespace, `-` and `_` are kept and start a
/// word; the first character of a word is upper-cased, the others
/// lower-cased.
pub open spec fn title_state(s: Seq<char>) -> (Seq<char>, bool)
    decreases s.len(),
{
    if s.len() == 0 {
        (seq![], true)
    } else {
        let (out, cap) = title_state(s.drop_last());
        let c = s.last();
        if is_ws(c) || c == '-' || c == '_' {
            (out.push(c), true)
        } else if cap {
            (out + upper_char(c), false)
        } else {
            (out + lower_char(c), false)
        }
    }
}

/// Sentence case, read left to right: the text so far and whether the next
/// letter starts a sentence. `.`, `!` and `?` are kept and start a
/// sentence; the first alphabetic character of a sentence is upper-cased,
/// every other character lower-cased.
pub open spec fn sentence_state(s: Seq<char>) -> (Seq<char>, bool)
    decreases s.len(),
{
    if s.len() == 0 {
        (seq![], true)
    } else {
        let (out, cap) = sentence_state(s.drop_last());
        let c = s.last();
        if c == '.' || c == '!' || c == '?' {
            (out.push(c), true)
        } else if cap && alphabetic(c) {
            (out + upper_char(c), false)
        } else {
            (out + lower_char(c), cap)
        }
    }
}

/// Each character with its case inverted: upper case becomes lower case,
/// anything else is upper-cased.
pub open spec fn inverted(s: Seq<char>) -> Seq<char>
    decreases s.len(),
{
    if s.len() == 0 {
        seq![]
    } else {
        inverted(s.drop_last()) + if uppercase(s.last()) {
            lower_char(s.last())
        } else {
            upper_char(s.last())
        }
    }
}

/// Converts text to title case (see `title_state`).
pub fn title_case(s: &str) -> (res: String)
    ensures
        res@ == title_state(s@).0,
{
    let chars = str_chars(s);
    let mut out = String::new();
    let mut cap_next = true;
    let mut i: usize = 0;
    while i < chars.len()
        invariant
            i <= chars@.len(),
            chars@ == s@,
            (out@, cap_next) == title_state(chars@.take(i as int)),
        decreases chars.len() - i,
    {
        let c = chars[i];
        proof {
            assert(chars@.take(i as int + 1).drop_last() == chars@.take(i as int));
        }
        if is_whitespace(c) || c == '-' || c == '_' {
            cap_next = true;
            push_char(&mut out, c);
        } else if cap_next {
            let u = char_to_upper(c);
            out.append(u.as_str());
            cap_next = false;
        } else {
            let l = char_to_lower(c);
            out.append(l.as_str());
        }
        i += 1;
    }
    proof {
        assert(chars@.take(chars@.len() as int) == chars@);
    }
    out
}

/// Converts text to sentence case (see `sentence_state`).
pub fn sentence_case(s: &str) -> (res: String)
    ensures
        res@ == sentence_state(s@).0,
{
    let chars = str_chars(s);
    let mut out = String::new();
    let mut cap_next = true;
    let mut i: usize = 0;
    while i < chars.len()
        invariant
            i <= chars@.len(),
            chars@ == s@,
            (out@, cap_next) == sentence_state(chars@.take(i as int)),
        decreases chars.len() - i,
    {
        let c = chars[i];
        proof {
            assert(chars@.take(i as int + 1).drop_last() == chars@.take(i as int));
        }
        if c == '.' || c == '!' || c == '?' {
            cap_next = true;
            push_char(&mut out, c);
        } else if cap_next && is_alphabetic(c) {
            let u = char_to_upper(c);
            out.append(u.as_str());
            cap_next = false;
        } else {
            let l = char_to_lower(c);
            out.append(l.as_str());
        }
        i += 1;
    }
    proof {
        assert(chars@.take(chars@.len() as int) == chars@);
    }
    out
}

/// Inverts the case of each character (see `inverted`).
pub fn inverse_case(s: &str) -> (res: String)
    ensures
        res@ == inverted(s@),
{
    let chars = str_chars(s);
    let mut out = String::new();
    let mut i: usize = 0;
    while i < chars.len()
        invariant
            i <= chars@.len(),
            chars@ == s@,
            out@ == inverted(chars@.take(i as int)),
        decreases chars.len() - i,
    {
        let c = chars[i];
        proof {
            assert(chars@.take(i as int + 1).drop_last() == chars@.take(i as int));
        }
        if is_uppercase(c) {
            let l = char_to_lower(c);
            out.append(l.as_str());
        } else {
            let u = char_to_upper(c);
            out.append(u.as_str());
        }
        i += 1;
    }
    proof {
        assert(chars@.take(chars@.len() as int) == chars@);
    }
    out
}

// ---------------------------------------------------------------------------
// Line comments
// ---------------------------------------------------------------------------

/// A line with its line comment toggled: after the indent, a leading
/// `prefix` followed by a space, or else a leading `prefix`, is removed;
/// a line without one gets `prefix` and a space after its indent.
pub open spec fn toggled_comment(line: Seq<char>, prefix: Seq<char>) -> Seq<char> {
    let t = trim_start(line);
    let indent = line.take(line.len() - t.len());
    let ps = prefix.push(' ');
    if starts_with(t, ps) {
        indent + t.skip(ps.len() as int)
    } else if starts_with(t, prefix) {
        indent + t.skip(prefix.len() as int)
    } else {
        indent + prefix + seq![' '] + t
    }
}

fn chars_start_at(s: &[char], from: usize, p: &[char]) -> (res: bool)
    requires
        from <= s@.len(),
    ensures
        res == starts_with(s@.skip(from as int), p@),
{
    let slen = s.len();
    if p.len() > slen - from {
        return false;
    }
    let mut i: usize = 0;
    while i < p.len()
        invariant
            slen == s@.len(),
            from <= s@.len(),
            i <= p@.len() <= s@.len() - from,
            forall|k: int| 0 <= k < i ==> s@[from + k] == p@[k],
        decreases p.len() - i,
    {
        if s[from + i] != p[i] {
            assert(s@.skip(from as int).take(p@.len() as int)[i as int] != p@[i as int]);
            return false;
        }
        i += 1;
    }
    assert(s@.skip(from as int).take(p@.len() as int) == p@);
    true
}

/// Comments out a line, or uncomments it when it is commented already
/// (see `toggled_comment`).
pub fn toggle_line_comment(line: &str, comment_prefix: &str) -> (res: String)
    ensures
        res@ == toggled_comment(line@, comment_prefix@),
{
    let chars = str_chars(line);
    let prefix = str_chars(comment_prefix);
    let mut ps = prefix.clone();
    ps.push(' ');
    let clen = chars.len();
    let n = leading_ws_len(chars.as_slice());
    let mut out = string_from_range(chars.as_slice(), 0, n);
    proof {
        assert(chars@.subrange(0, n as int) == chars@.take(n as int));
        assert(ps@ == comment_prefix@.push(' '));
    }
    if chars_start_at(chars.as_slice(), n, ps.as_slice()) {
        let rest = string_from_range(chars.as_slice(), n + ps.len(), chars.len());
        proof {
            assert(chars@.subrange(n + ps@.len(), chars@.len() as int) == chars@.skip(
                n as int,
            ).skip(ps@.len() as int));
        }
        out.append(rest.as_str());
    } else if chars_start_at(chars.as_slice(), n, prefix.as_slice()) {
        let rest = string_from_range(chars.as_slice(), n + prefix.len(), chars.len());
        proof {
            assert(chars@.subrange(n + prefix@.len(), chars@.len() as int) == chars@.skip(
                n as int,
            ).skip(prefix@.len() as int));
        }
        out.append(rest.as_str());
    } else {
        out.append(comment_prefix);
        push_char(&mut out, ' ');
        let rest = string_from_range(chars.as_slice(), n, chars.len());
        proof {
            assert(chars@.subrange(n as int, chars@.len() as int) == chars@.skip(n as int));
        }
        out.append(rest.as_str());
    }
    out
}

// ---------------------------------------------------------------------------
// Diff output
// ---------------------------------------------------------------------------

/// The text of one diff entry: two spaces, `+ ` or `- ` before the line,
/// and a changed line as its removed and its added form.
pub open spec fn entry_text(e: DiffEntry) -> Seq<char> {
    match e {
        DiffEntry::Same(s) => "  "@ + s + "\n"@,
        DiffEntry::Added(s) => "+ "@ + s + "\n"@,
        DiffEntry::Removed(s) => "- "@ + s + "\n"@,
        DiffEntry::Changed(o, n) => "- "@ + o + "\n"@ + "+ "@ + n + "\n"@,
    }
}

/// The text of a whole diff, entry after entry.
pub open spec fn diff_text(t: Seq<DiffEntry>) -> Seq<char>
    decreases t.len(),
{
    if t.len() == 0 {
        seq![]
    } else {
        diff_text(t.drop_last()) + entry_text(t.last())
    }
}

/// The lines of a diff as text, each marked as same, added or removed.
pub fn format_diff_output(diff_result: &DiffResult) -> (res: String)
    ensures
        res@ == diff_text(entries_of(diff_result.lines@)),
{
    let ghost t = entries_of(diff_result.lines@);
    let mut out = String::new();
    let mut i: usize = 0;
    while i < diff_result.lines.len()
        invariant
            i <= diff_result.lines@.len(),
            t == entries_of(diff_result.lines@),
            out@ == diff_text(t.take(i as int)),
        decreases diff_result.lines.len() - i,
    {
        proof {
            assert(t.take(i as int + 1).drop_last() == t.take(i as int));
        }
        match &diff_result.lines[i] {
            DiffLine::Same(s) => {
                out.append("  ");
                out.append(s.as_str());
                out.append("\n");
            },
            DiffLine::Added(s) => {
                out.append("+ ");
                out.append(s.as_str());
                out.append("\n");
            },
            DiffLine::Removed(s) => {
                out.append("- ");
                out.append(s.as_str());
                out.append("\n");
            },
            DiffLine::Changed { old, new } => {
                out.append("- ");
                out.append(old.as_str());
                out.append("\n");
                out.append("+ ");
                out.append(new.as_str());
                out.append("\n");
            },
        }
        i += 1;
    }
    proof {
        assert(t.take(diff_result.lines@.len() as int) == t);
    }
    out
}

// ---------------------------------------------------------------------------
// Window helpers
// ---------------------------------------------------------------------------

/// The 0-based line a "go to line" entry asks for: the entry, trimmed, read
/// as a 1-based line number. `None` for anything else, and for 0.
pub fn parse_goto_line(input: &str) -> (res: Option<usize>)
    ensures
        res == match parse_usize(trim(input@)) {
            Some(n) => if n > 0 {
                Some((n - 1) as usize)
            } else {
                None
            },
            None => None,
        },
{
    let chars = str_chars(input);
    let s = leading_ws_len(chars.as_slice());
    let rest = string_from_range(chars.as_slice(), s, chars.len());
    let rc = str_chars(rest.as_str());
    let e = trimmed_end_len(rc.as_slice());
    proof {
        assert(chars@.subrange(s as int, chars@.len() as int) == chars@.skip(s as int));
        assert(rc@.subrange(0, e as int) == rc@.take(e as int));
    }
    match parse_usize_chars(rc.as_slice(), 0, e) {
        Some(n) => if n > 0 {
            Some(n - 1)
        } else {
            None
        },
        None => None,
    }
}

/// The window title: the tab title, a bullet when it has unsaved changes,
/// and the program's name.
pub fn format_title(tab_title: &str, is_modified: bool) -> (res: String)
    ensures
        res@ == tab_title@ + (if is_modified {
            " •"@
        } else {
            ""@
        }) + " — Notepad+++"@,
{
    let mut out = String::new();
    out.append(tab_title);
    if is_modified {
        out.append(" •");
    } else {
        out.append("");
    }
    out.append(" — Notepad+++");
    out
}

/// The name the status bar shows for an encoding.
pub fn encoding_display_name(encoding: &Encoding) -> (res: &'static str)
    ensures
        res@ == match encoding {
            Encoding::UTF8 => "UTF-8"@,
            Encoding::UTF8BOM => "UTF-8 BOM"@,
            Encoding::UTF16LE => "UTF-16 LE"@,
            Encoding::UTF16BE => "UTF-16 BE"@,
            Encoding::ASCII => "ASCII"@,
        },
{
    match encoding {
        Encoding::UTF8 => "UTF-8",
        Encoding::UTF8BOM => "UTF-8 BOM",
        Encoding::UTF16LE => "UTF-16 LE",
        Encoding::UTF16BE => "UTF-16 BE",
        Encoding::ASCII => "ASCII",
    }
}

/// The name the status bar shows for a line ending.
pub fn line_ending_display_name(le: &LineEnding) -> (res: &'static str)
    ensures
        res@ == match le {
            LineEnding::LF => "LF"@,
            LineEnding::CRLF => "CRLF"@,
            LineEnding::CR => "CR"@,
        },
{
    match le {
        LineEnding::LF => "LF",
        LineEnding::CRLF => "CRLF",
        LineEnding::CR => "CR",
    }
}

/// The status bar text: line, column, encoding, line ending, language, and
/// a whitespace marker when whitespace is shown.
pub fn format_status_bar(
    line: usize,
    col: usize,
    encoding: &str,
    line_ending: &str,
    language: &str,
    show_whitespace: bool,
) -> (res: String)
    ensures
        res@ == "  Ln "@ + decimal(line as nat) + ", Col "@ + decimal(col as nat) + "    "@
            + encoding@ + "    "@ + line_ending@ + "    "@ + language@ + (if show_whitespace {
            "    WS"@
        } else {
            ""@
        }),
{
    let mut out = String::new();
    out.append("  Ln ");
    push_decimal(&mut out, line as u64);
    out.append(", Col ");
    push_decimal(&mut out, col as u64);
    out.append("    ");
    out.append(encoding);
    out.append("    ");
    out.append(line_ending);
    out.append("    ");
    out.append(language);
    if show_whitespace {
        out.append("    WS");
    } else {
        out.append("");
    }
    out
}

/// The match after `current`, wrapping to the first; the first when there
/// is no current one; `None` when there are no matches.
pub fn next_match_index(current: Option<usize>, total: usize) -> (res: Option<usize>)
    requires
        current != Some(usize::MAX),
    ensures
        total == 0 ==> res is None,
        total > 0 ==> res == Some(
            match current {
                Some(i) => ((i + 1) % (total as int)) as usize,
                None => 0usize,
            },
        ),
{
    if total == 0 {
        return None;
    }
    match current {
        Some(i) => Some((i + 1) % total),
        None => Some(0),
    }
}

/// The match before `current`, wrapping to the last; the last when there is
/// no current one; `None` when there are no matches.
pub fn prev_match_index(current: Option<usize>, total: usize) -> (res: Option<usize>)
    ensures
        total == 0 ==> res is None,
        total > 0 ==> res == Some(
            match current {
                Some(i) => if i == 0 {
                    (total - 1) as usize
                } else {
                    (i - 1) as usize
                },
                None => (total - 1) as usize,
            },
        ),
{
    if total == 0 {
        return None;
    }
    match current {
        Some(0) | None => Some(total - 1),
        Some(i) => Some(i - 1),
    }
}

} // verus!
