//! Find and replace in a text: the query becomes a regular expression
//! (escaped unless the mode is `Regex`), and matches are reported with their
//! byte span, line number and line.
use vstd::prelude::*;
use crate::bytes::{bytes_of, boundary, lemma_boundary_iff, str_byte_range};
use crate::search::regex_calls::{
    CompiledRegex, escaped, regex_compiles, regex_escape, regex_find_at_span, regex_find_iter_spans,
    regex_first_expansion, regex_replace_all_expanded, splice_from, spans_ok,
};
use crate::text::{push_char, str_chars};
use vstd::utf8::{
    encode_utf8_valid_utf8, is_char_boundary, length_of_first_scalar, pop_first_scalar, valid_utf8,
};

verus! {

/// How the query is read.
#[derive(Debug, Clone, Copy, PartialEq, Eq, Structural)]
pub enum SearchMode {
    /// Literally.
    Normal,
    /// Literally, after `\n`, `\t`, `\r`, `\0` and `\\` escapes.
    Extended,
    /// As a regular expression.
    Regex,
}

/// A match: its byte span, the 0-based line it starts on, that line, and
/// the matched text.
#[derive(Debug, Clone)]
pub struct SearchMatch {
    pub start: usize,
    pub end: usize,
    pub line: usize,
    pub line_text: String,
    pub match_text: String,
}

/// The find and replace settings.
pub struct SearchEngine {
    pub query: String,
    pub replace_text: String,
    pub case_sensitive: bool,
    pub whole_word: bool,
    pub use_regex: bool,
    pub wrap_around: bool,
    pub search_mode: SearchMode,
}

// ---------------------------------------------------------------------------
// Specifications
// ---------------------------------------------------------------------------

/// The text with the escapes of extended mode replaced: `\n`, `\t`, `\r`,
/// `\0` and `\\` by the character they name; any other backslash is kept,
/// with the character after it.
pub open spec fn expanded(s: Seq<char>) -> Seq<char>
    decreases s.len(),
{
    if s.len() == 0 {
        seq![]
    } else if s[0] == '\\' {
        if s.len() == 1 {
            seq!['\\']
        } else {
            let c = s[1];
            let e = if c == 'n' {
                seq!['\n']
            } else if c == 't' {
                seq!['\t']
            } else if c == 'r' {
                seq!['\r']
            } else if c == '0' {
                seq!['\0']
            } else if c == '\\' {
                seq!['\\']
            } else {
                seq!['\\', c]
            };
            e + expanded(s.skip(2))
        }
    } else {
        seq![s[0]] + expanded(s.skip(1))
    }
}

/// The regular expression searched for: none for an empty query; else the
/// query (escaped, and expanded first in extended mode), between `\b`s for
/// whole words, and after `(?i)` when case does not matter.
pub open spec fn pattern_of(query: Seq<char>, mode: SearchMode, whole_word: bool, case_sensitive: bool) -> Option<
    Seq<char>,
> {
    if query.len() == 0 {
        None
    } else {
        let p = match mode {
            SearchMode::Normal => escaped(query),
            SearchMode::Extended => escaped(expanded(query)),
            SearchMode::Regex => query,
        };
        let p = if whole_word {
            "\\b"@ + p + "\\b"@
        } else {
            p
        };
        Some(
            if case_sensitive {
                p
            } else {
                "(?i)"@ + p
            },
        )
    }
}

/// The number of newline bytes in `b[..off]`.
pub open spec fn newlines_before(b: Seq<u8>, off: int) -> nat
    decreases off,
{
    if off <= 0 {
        0
    } else {
        newlines_before(b, off - 1) + if b[off - 1] == 0x0A {
            1nat
        } else {
            0nat
        }
    }
}

/// Where the line holding byte `off` begins: just after the last newline
/// before `off`, or at 0.
pub open spec fn line_start(b: Seq<u8>, off: int) -> int
    decreases off,
{
    if off <= 0 {
        0
    } else if b[off - 1] == 0x0A {
        off
    } else {
        line_start(b, off - 1)
    }
}

/// Where the line holding byte `off` ends: at the first newline at or
/// after `off`, or at the end.
pub open spec fn line_end(b: Seq<u8>, off: int) -> int
    decreases b.len() - off,
{
    if off >= b.len() {
        b.len() as int
    } else if b[off] == 0x0A {
        off
    } else {
        line_end(b, off + 1)
    }
}

/// `m` reports the match spanning `s..e` of the text with bytes `b`.
pub open spec fn reports(m: SearchMatch, b: Seq<u8>, s: usize, e: usize) -> bool {
    &&& m.start == s
    &&& m.end == e
    &&& s <= e <= b.len()
    &&& boundary(b, s as int)
    &&& boundary(b, e as int)
    &&& m.line == newlines_before(b, s as int)
    &&& bytes_of(m.line_text@) == b.subrange(line_start(b, s as int), line_end(b, s as int))
    &&& bytes_of(m.match_text@) == b.subrange(s as int, e as int)
}

/// `ms` reports the spans `spans`, one for one.
pub open spec fn reports_all(ms: Seq<SearchMatch>, b: Seq<u8>, spans: Seq<(usize, usize)>) -> bool {
    &&& ms.len() == spans.len()
    &&& forall|k: int| 0 <= k < ms.len() ==> reports(#[trigger] ms[k], b, spans[k].0, spans[k].1)
}

/// How many of the first spans start before `from`, counted up to the
/// first one that does not.
pub open spec fn count_before(spans: Seq<(usize, usize)>, from: usize) -> int
    decreases spans.len(),
{
    if spans.len() == 0 || spans[0].0 >= from {
        0
    } else {
        1 + count_before(spans.skip(1), from)
    }
}

/// What `find_prev` returns from `from_pos` in a searchable engine: the
/// last of the spans `find_iter` finds that start before `from_pos` (among
/// those leading ones that do), else with wrap-around the last span where
/// it starts at or after `from_pos`, else nothing.
pub open spec fn prev_pick(e: SearchEngine, text: Seq<char>, from_pos: usize, res: Option<SearchMatch>) -> bool {
    let spans = regex_find_iter_spans(e.pattern()->Some_0, text);
    let b = bytes_of(text);
    let k = count_before(spans, from_pos);
    if k > 0 {
        res matches Some(m) && reports(m, b, spans[k - 1].0, spans[k - 1].1)
    } else if e.wrap_around && spans.len() > 0 && spans.last().0 >= from_pos {
        res matches Some(m) && reports(m, b, spans.last().0, spans.last().1)
    } else {
        res is None
    }
}

proof fn lemma_count_before(spans: Seq<(usize, usize)>, from: usize)
    ensures
        0 <= count_before(spans, from) <= spans.len(),
        forall|i: int| 0 <= i < count_before(spans, from) ==> (#[trigger] spans[i]).0 < from,
        count_before(spans, from) < spans.len() ==> spans[count_before(spans, from)].0 >= from,
    decreases spans.len(),
{
    if spans.len() > 0 && spans[0].0 < from {
        let t = spans.skip(1);
        lemma_count_before(t, from);
        assert forall|i: int| 0 <= i < count_before(spans, from) implies (#[trigger] spans[i]).0 < from by {
            if i > 0 {
                assert(spans[i] == t[i - 1]);
            }
        }
        if count_before(spans, from) < spans.len() {
            assert(spans[count_before(spans, from)] == t[count_before(t, from)]);
        }
    }
}

proof fn lemma_spans_sorted(b: Seq<u8>, spans: Seq<(usize, usize)>, i: int, j: int)
    requires
        spans_ok(b, spans),
        0 <= i <= j < spans.len(),
    ensures
        spans[i].0 <= spans[j].0,
    decreases j - i,
{
    if i < j {
        lemma_spans_sorted(b, spans, i, j - 1);
        assert(spans[j - 1].0 <= spans[j - 1].1);
        assert(spans[j - 1].1 <= spans[j].0);
    }
}

/// `find_prev` picks from what `find_all` reports (`all`, found by
/// `find_iter`, in order): where some match starts before `from_pos`, the
/// one that starts last among them; else, with wrap-around, the last match
/// of all; else nothing.
pub proof fn law_find_prev_from_all(
    e: SearchEngine,
    text: Seq<char>,
    from_pos: usize,
    all: Seq<SearchMatch>,
    prev: Option<SearchMatch>,
)
    requires
        e.searchable(),
        spans_ok(bytes_of(text), regex_find_iter_spans(e.pattern()->Some_0, text)),
        reports_all(all, bytes_of(text), regex_find_iter_spans(e.pattern()->Some_0, text)),
        prev_pick(e, text, from_pos, prev),
    ensures
        (exists|i: int| 0 <= i < all.len() && (#[trigger] all[i]).start < from_pos) ==> (prev matches Some(
            m,
        ) && exists|i: int|
            0 <= i < all.len() && m.start == (#[trigger] all[i]).start && m.end == all[i].end && m.start
                < from_pos && forall|j: int| 0 <= j < all.len() && (#[trigger] all[j]).start < from_pos ==> all[j].start <= m.start),
        !(exists|i: int| 0 <= i < all.len() && (#[trigger] all[i]).start < from_pos) ==> (if e.wrap_around
            && all.len() > 0 {
            prev matches Some(m) && m.start == all.last().start && m.end == all.last().end
        } else {
            prev is None
        }),
{
    let spans = regex_find_iter_spans(e.pattern()->Some_0, text);
    let b = bytes_of(text);
    let k = count_before(spans, from_pos);
    lemma_count_before(spans, from_pos);
    assert forall|i: int| 0 <= i < all.len() implies (#[trigger] all[i]).start == spans[i].0 && all[i].end
        == spans[i].1 by {
        assert(reports(all[i], b, spans[i].0, spans[i].1));
    }
    if k > 0 {
        assert(all[k - 1].start < from_pos);
        assert forall|j: int| 0 <= j < all.len() && (#[trigger] all[j]).start < from_pos implies all[j].start
            <= all[k - 1].start by {
            if j >= k {
                lemma_spans_sorted(b, spans, k, j);
            } else {
                lemma_spans_sorted(b, spans, j, k - 1);
            }
        }
    } else {
        assert forall|i: int| 0 <= i < all.len() implies !((#[trigger] all[i]).start < from_pos) by {
            lemma_spans_sorted(b, spans, 0, i);
        }
        if all.len() > 0 {
            lemma_spans_sorted(b, spans, 0, all.len() - 1);
        }
    }
}

/// Text without a backslash is its own expansion, also in front of more.
proof fn lemma_expanded_plain_prefix(a: Seq<char>, b: Seq<char>)
    requires
        forall|i: int| 0 <= i < a.len() ==> a[i] != '\\',
    ensures
        expanded(a + b) == a + expanded(b),
    decreases a.len(),
{
    if a.len() > 0 {
        let t = a.skip(1);
        assert forall|i: int| 0 <= i < t.len() implies t[i] != '\\' by {
            assert(t[i] == a[i + 1]);
        }
        lemma_expanded_plain_prefix(t, b);
        assert((a + b)[0] == a[0]);
        assert((a + b).skip(1) =~= t + b);
        assert(a + expanded(b) =~= seq![a[0]] + (t + expanded(b)));
    }
}

/// In extended mode each escape stands for the one character it names:
/// after text without a backslash, `\n` is a line feed (U+000A), `\t` a
/// tab (U+0009), `\r` a carriage return (U+000D), `\0` a NUL (U+0000) and
/// `\\` one backslash; what follows is expanded in turn, and text without
/// a backslash stays as it is.
pub proof fn law_extended_escapes(a: Seq<char>, b: Seq<char>)
    requires
        forall|i: int| 0 <= i < a.len() ==> a[i] != '\\',
    ensures
        expanded(a) == a,
        expanded(a + seq!['\\', 'n'] + b) == a + seq!['\u{0A}'] + expanded(b),
        expanded(a + seq!['\\', 't'] + b) == a + seq!['\u{09}'] + expanded(b),
        expanded(a + seq!['\\', 'r'] + b) == a + seq!['\u{0D}'] + expanded(b),
        expanded(a + seq!['\\', '0'] + b) == a + seq!['\u{00}'] + expanded(b),
        expanded(a + seq!['\\', '\\'] + b) == a + seq!['\\'] + expanded(b),
{
    lemma_expanded_plain_prefix(a, seq![]);
    assert(a + Seq::<char>::empty() =~= a);
    assert(expanded(Seq::<char>::empty()) =~= Seq::<char>::empty());
    assert(a + Seq::<char>::empty() =~= a);
    let cs = seq!['n', 't', 'r', '0', '\\'];
    assert forall|k: int| 0 <= k < 5 implies {
        let e = seq!['\\', #[trigger] cs[k]] + b;
        &&& expanded(a + e) == a + expanded(e)
        &&& e[0] == '\\' && e.len() > 1 && e[1] == cs[k]
        &&& e.skip(2) =~= b
    } by {
        let e = seq!['\\', cs[k]] + b;
        lemma_expanded_plain_prefix(a, e);
        assert(e.skip(2) =~= b);
    }
    assert(cs[0] == 'n' && cs[1] == 't' && cs[2] == 'r' && cs[3] == '0' && cs[4] == '\\');
    assert(a + seq!['\\', 'n'] + b =~= a + (seq!['\\', 'n'] + b));
    assert(a + seq!['\\', 't'] + b =~= a + (seq!['\\', 't'] + b));
    assert(a + seq!['\\', 'r'] + b =~= a + (seq!['\\', 'r'] + b));
    assert(a + seq!['\\', '0'] + b =~= a + (seq!['\\', '0'] + b));
    assert(a + seq!['\\', '\\'] + b =~= a + (seq!['\\', '\\'] + b));
    assert(a + seq!['\u{0A}'] + expanded(b) =~= a + (seq!['\u{0A}'] + expanded(b)));
    assert(a + seq!['\u{09}'] + expanded(b) =~= a + (seq!['\u{09}'] + expanded(b)));
    assert(a + seq!['\u{0D}'] + expanded(b) =~= a + (seq!['\u{0D}'] + expanded(b)));
    assert(a + seq!['\u{00}'] + expanded(b) =~= a + (seq!['\u{00}'] + expanded(b)));
    assert(a + seq!['\\'] + expanded(b) =~= a + (seq!['\\'] + expanded(b)));
}

/// In extended mode a backslash before any other character stands for
/// itself, the character kept after it, and a backslash at the very end
/// stays a backslash.
pub proof fn law_extended_other_escapes(a: Seq<char>, c: char, b: Seq<char>)
    requires
        forall|i: int| 0 <= i < a.len() ==> a[i] != '\\',
        c != 'n' && c != 't' && c != 'r' && c != '0' && c != '\\',
    ensures
        expanded(a + seq!['\\', c] + b) == a + seq!['\\', c] + expanded(b),
        expanded(a + seq!['\\']) == a + seq!['\\'],
{
    let e = seq!['\\', c] + b;
    lemma_expanded_plain_prefix(a, e);
    assert(e.skip(2) =~= b);
    assert(a + seq!['\\', c] + b =~= a + e);
    assert(a + seq!['\\', c] + expanded(b) =~= a + (seq!['\\', c] + expanded(b)));
    lemma_expanded_plain_prefix(a, seq!['\\']);
}

// ---------------------------------------------------------------------------
// Byte-level helpers
// ---------------------------------------------------------------------------

/// After a one-byte character that begins at a boundary comes a boundary.
proof fn lemma_ascii_next_boundary(b: Seq<u8>, p: int)
    requires
        valid_utf8(b),
        0 <= p < b.len(),
        is_char_boundary(b, p),
        b[p] < 0x80,
    ensures
        is_char_boundary(b, p + 1),
    decreases b.len(),
{
    let t = pop_first_scalar(b);
    let l = length_of_first_scalar(b);
    assert(1 <= l <= b.len());
    if p == 0 {
        assert(l == 1);
        assert(is_char_boundary(t, 0));
    } else {
        assert(is_char_boundary(t, p - l));
        assert(p - l >= 0);
        assert(t[p - l] == b[p]);
        lemma_ascii_next_boundary(t, p - l);
    }
}

proof fn lemma_after_newline_boundary(s: Seq<char>, p: int)
    requires
        0 <= p < bytes_of(s).len(),
        bytes_of(s)[p] == 0x0A,
    ensures
        boundary(bytes_of(s), p + 1),
{
    let b = bytes_of(s);
    encode_utf8_valid_utf8(s);
    lemma_boundary_iff(s, p);
    lemma_ascii_next_boundary(b, p);
    lemma_boundary_iff(s, p + 1);
}

proof fn lemma_line_bounds(b: Seq<u8>, off: int)
    requires
        0 <= off <= b.len(),
    ensures
        0 <= line_start(b, off) <= off,
        line_start(b, off) > 0 ==> b[line_start(b, off) - 1] == 0x0A,
        off <= line_end(b, off) <= b.len(),
        line_end(b, off) < b.len() ==> b[line_end(b, off)] == 0x0A,
{
    lemma_line_start(b, off);
    lemma_line_end(b, off);
}

proof fn lemma_line_start(b: Seq<u8>, off: int)
    requires
        0 <= off <= b.len(),
    ensures
        0 <= line_start(b, off) <= off,
        line_start(b, off) > 0 ==> b[line_start(b, off) - 1] == 0x0A,
    decreases off,
{
    if off > 0 && b[off - 1] != 0x0A {
        lemma_line_start(b, off - 1);
    }
}

proof fn lemma_line_end(b: Seq<u8>, off: int)
    requires
        0 <= off <= b.len(),
    ensures
        off <= line_end(b, off) <= b.len(),
        line_end(b, off) < b.len() ==> b[line_end(b, off)] == 0x0A,
    decreases b.len() - off,
{
    if off < b.len() && b[off] != 0x0A {
        lemma_line_end(b, off + 1);
    }
}

/// The number of newlines before byte `byte_offset`, that is the 0-based
/// line it lies on.
fn line_number(text: &str, byte_offset: usize) -> (res: usize)
    requires
        byte_offset <= bytes_of(text@).len(),
    ensures
        res == newlines_before(bytes_of(text@), byte_offset as int),
{
    let b = text.as_bytes();
    let mut count: usize = 0;
    let mut i: usize = 0;
    while i < byte_offset
        invariant
            i <= byte_offset <= b@.len(),
            count <= i,
            count == newlines_before(b@, i as int),
        decreases byte_offset - i,
    {
        if b[i] == 0x0A {
            count += 1;
        }
        i += 1;
    }
    count
}

/// The line holding byte `byte_offset`, without its newline.
fn line_at(text: &str, byte_offset: usize) -> (res: String)
    requires
        byte_offset <= bytes_of(text@).len(),
    ensures
        bytes_of(res@) == bytes_of(text@).subrange(
            line_start(bytes_of(text@), byte_offset as int),
            line_end(bytes_of(text@), byte_offset as int),
        ),
{
    let b = text.as_bytes();
    let mut start = byte_offset;
    while start > 0 && b[start - 1] != 0x0A
        invariant
            start <= byte_offset <= b@.len(),
            line_start(b@, byte_offset as int) == line_start(b@, start as int),
        decreases start,
    {
        start -= 1;
    }
    let mut end = byte_offset;
    while end < b.len() && b[end] != 0x0A
        invariant
            byte_offset <= end <= b@.len(),
            line_end(b@, byte_offset as int) == line_end(b@, end as int),
        decreases b@.len() - end,
    {
        end += 1;
    }
    proof {
        lemma_line_bounds(b@, byte_offset as int);
        if start > 0 {
            lemma_after_newline_boundary(text@, start - 1);
        }
        if end < b@.len() {
            assert(!crate::bytes::is_cont(b@[end as int]));
        }
    }
    str_byte_range(text, start, end)
}

/// The report of the match spanning `s..e`.
fn make_match(text: &str, s: usize, e: usize) -> (res: SearchMatch)
    requires
        s <= e <= bytes_of(text@).len(),
        boundary(bytes_of(text@), s as int),
        boundary(bytes_of(text@), e as int),
    ensures
        reports(res, bytes_of(text@), s, e),
{
    SearchMatch {
        start: s,
        end: e,
        line: line_number(text, s),
        line_text: line_at(text, s),
        match_text: str_byte_range(text, s, e),
    }
}

impl SearchEngine {
    /// The pattern the settings give.
    pub open spec fn pattern(&self) -> Option<Seq<char>> {
        pattern_of(self.query@, self.search_mode, self.whole_word, self.case_sensitive)
    }

    /// Whether the settings give a pattern that compiles.
    pub open spec fn searchable(&self) -> bool {
        self.pattern() matches Some(p) && regex_compiles(p)
    }

    /// The replacement text: with escapes expanded in extended mode.
    pub open spec fn replacement(&self) -> Seq<char> {
        match self.search_mode {
            SearchMode::Extended => expanded(self.replace_text@),
            _ => self.replace_text@,
        }
    }

    /// An empty, case-sensitive, literal query that wraps around.
    pub fn new() -> (res: Self)
        ensures
            res.query@ == Seq::<char>::empty(),
            res.replace_text@ == Seq::<char>::empty(),
            res.case_sensitive,
            !res.whole_word,
            !res.use_regex,
            res.wrap_around,
            res.search_mode == SearchMode::Normal,
    {
        SearchEngine {
            query: String::new(),
            replace_text: String::new(),
            case_sensitive: true,
            whole_word: false,
            use_regex: false,
            wrap_around: true,
            search_mode: SearchMode::Normal,
        }
    }

    /// Replaces the escapes of extended mode (see `expanded`).
    fn expand_escapes(s: &str) -> (res: String)
        ensures
            res@ == expanded(s@),
    {
        let c = str_chars(s);
        let n = c.len();
        let mut out = String::new();
        let mut i: usize = 0;
        proof {
            assert(c@.skip(0) == c@);
        }
        while i < n
            invariant
                n == c@.len(),
                c@ == s@,
                i <= n,
                out@ + expanded(c@.skip(i as int)) == expanded(s@),
            decreases n - i,
        {
            let ghost rest = c@.skip(i as int);
            let ghost prev = out@;
            if c[i] == '\\' {
                if i + 1 < n {
                    let d = c[i + 1];
                    if d == 'n' {
                        push_char(&mut out, '\n');
                    } else if d == 't' {
                        push_char(&mut out, '\t');
                    } else if d == 'r' {
                        push_char(&mut out, '\r');
                    } else if d == '0' {
                        push_char(&mut out, '\0');
                    } else if d == '\\' {
                        push_char(&mut out, '\\');
                    } else {
                        push_char(&mut out, '\\');
                        push_char(&mut out, d);
                    }
                    proof {
                        assert(rest[1] == d);
                        assert(rest.skip(2) == c@.skip(i + 2));
                    }
                    i += 2;
                } else {
                    push_char(&mut out, '\\');
                    i += 1;
                }
            } else {
                push_char(&mut out, c[i]);
                proof {
                    assert(rest.skip(1) == c@.skip(i + 1));
                }
                i += 1;
            }
            proof {
                assert(out@ + expanded(c@.skip(i as int)) == prev + expanded(rest));
            }
        }
        proof {
            assert(c@.skip(n as int) == Seq::<char>::empty());
            assert(out@ + Seq::<char>::empty() == out@);
        }
        out
    }

    /// The pattern the settings give (see `pattern_of`).
    fn build_pattern(&self) -> (res: Option<String>)
        ensures
            match res {
                Some(p) => self.pattern() == Some(p@),
                None => self.pattern() is None,
            },
    {
        if self.query.as_str().as_bytes().len() == 0 {
            proof {
                crate::bytes::lemma_bytes_len(self.query@);
            }
            return None;
        }
        proof {
            crate::bytes::lemma_bytes_len(self.query@);
        }
        let p = match self.search_mode {
            SearchMode::Normal => regex_escape(self.query.as_str()),
            SearchMode::Extended => {
                let e = Self::expand_escapes(self.query.as_str());
                regex_escape(e.as_str())
            },
            SearchMode::Regex => self.query.clone(),
        };
        let p = if self.whole_word {
            let mut w = String::new();
            w.append("\\b");
            w.append(p.as_str());
            w.append("\\b");
            w
        } else {
            p
        };
        let p = if self.case_sensitive {
            p
        } else {
            let mut w = String::new();
            w.append("(?i)");
            w.append(p.as_str());
            w
        };
        Some(p)
    }

    /// The compiled pattern, if the settings give one that compiles.
    fn build_regex(&self) -> (res: Option<CompiledRegex>)
        ensures
            res is Some <==> self.searchable(),
            res matches Some(r) ==> self.pattern() == Some(r.pattern()),
    {
        match self.build_pattern() {
            Some(p) => CompiledRegex::compile(p.as_str()),
            None => None,
        }
    }

    /// Every match, in order; none when the settings give no pattern that
    /// compiles.
    pub fn find_all(&self, text: &str) -> (res: Vec<SearchMatch>)
        ensures
            !self.searchable() ==> res@.len() == 0,
            self.searchable() ==> reports_all(
                res@,
                bytes_of(text@),
                regex_find_iter_spans(self.pattern()->Some_0, text@),
            ),
    {
        let re = match self.build_regex() {
            Some(r) => r,
            None => return Vec::new(),
        };
        let spans = re.find_iter_spans(text);
        let mut out: Vec<SearchMatch> = Vec::new();
        let mut k: usize = 0;
        while k < spans.len()
            invariant
                k <= spans@.len(),
                spans_ok(bytes_of(text@), spans@),
                out@.len() == k,
                forall|j: int|
                    0 <= j < k ==> reports(#[trigger] out@[j], bytes_of(text@), spans@[j].0, spans@[j].1),
            decreases spans.len() - k,
        {
            let (s, e) = spans[k];
            proof {
                assert(spans@[k as int] == (s, e));
            }
            out.push(make_match(text, s, e));
            k += 1;
        }
        out
    }

    /// The first match at or after byte `from_pos`; with wrap-around, else
    /// the first match of the text if it starts before `from_pos`.
    pub fn find_next(&self, text: &str, from_pos: usize) -> (res: Option<SearchMatch>)
        requires
            from_pos <= bytes_of(text@).len(),
        ensures
            !self.searchable() ==> res is None,
            self.searchable() ==> {
                let p = self.pattern()->Some_0;
                let b = bytes_of(text@);
                match regex_find_at_span(p, text@, from_pos) {
                    Some(sp) => res matches Some(m) && reports(m, b, sp.0, sp.1),
                    None => match regex_find_at_span(p, text@, 0) {
                        Some(sp) => if self.wrap_around && sp.0 < from_pos {
                            res matches Some(m) && reports(m, b, sp.0, sp.1)
                        } else {
                            res is None
                        },
                        None => res is None,
                    },
                }
            },
    {
        let re = match self.build_regex() {
            Some(r) => r,
            None => return None,
        };
        if let Some((s, e)) = re.find_at_span(text, from_pos) {
            return Some(make_match(text, s, e));
        }
        if self.wrap_around {
            if let Some((s, e)) = re.find_at_span(text, 0) {
                if s < from_pos {
                    return Some(make_match(text, s, e));
                }
            }
        }
        None
    }

    /// The last match before byte `from_pos` (among the matches up to the
    /// first one that does not start before it); with wrap-around, else the
    /// last match of the text if it starts at or after `from_pos`.
    pub fn find_prev(&self, text: &str, from_pos: usize) -> (res: Option<SearchMatch>)
        ensures
            !self.searchable() ==> res is None,
            self.searchable() ==> prev_pick(*self, text@, from_pos, res),
    {
        let re = match self.build_regex() {
            Some(r) => r,
            None => return None,
        };
        let spans = re.find_iter_spans(text);
        let ghost all = spans@;
        let mut k: usize = 0;
        proof {
            assert(all.skip(0) == all);
        }
        while k < spans.len() && spans[k].0 < from_pos
            invariant
                k <= spans@.len(),
                all == spans@,
                count_before(all, from_pos) == k + count_before(all.skip(k as int), from_pos),
            decreases spans.len() - k,
        {
            proof {
                assert(all.skip(k as int).skip(1) == all.skip(k as int + 1));
            }
            k += 1;
        }
        proof {
            if k < spans@.len() {
                assert(all.skip(k as int)[0] == all[k as int]);
            }
            assert(count_before(all.skip(k as int), from_pos) == 0);
        }
        if k > 0 {
            let (s, e) = spans[k - 1];
            proof {
                assert(spans@[k - 1] == (s, e));
            }
            return Some(make_match(text, s, e));
        }
        if self.wrap_around && spans.len() > 0 {
            let (s, e) = spans[spans.len() - 1];
            proof {
                assert(spans@[spans@.len() - 1] == (s, e));
            }
            if s >= from_pos {
                return Some(make_match(text, s, e));
            }
        }
        None
    }

    /// Replaces the match `find_next` finds: in regex mode with `$`
    /// references expanded against the match, else by the replacement text
    /// (expanded in extended mode). Returns the new text and the match.
    pub fn replace_next(&self, text: &str, from_pos: usize) -> (res: Option<(String, SearchMatch)>)
        requires
            from_pos <= bytes_of(text@).len(),
        ensures
            match res {
                None => self.find_next_spec_none(text@, from_pos),
                Some((t, m)) => {
                    let b = bytes_of(text@);
                    let p = self.pattern()->Some_0;
                    &&& self.searchable()
                    &&& m.start <= m.end <= b.len()
                    &&& bytes_of(m.match_text@) == b.subrange(m.start as int, m.end as int)
                    &&& (m.start as int, m.end as int) == self.next_span(text@, from_pos)
                    &&& bytes_of(t@) == b.subrange(0, m.start as int) + bytes_of(
                        if self.search_mode == SearchMode::Regex {
                            match regex_first_expansion(
                                p,
                                crate::search::engine::chars_from(text@, m.start as int),
                                self.replacement(),
                            ) {
                                Some(x) => x,
                                None => self.replacement(),
                            }
                        } else {
                            self.replacement()
                        },
                    ) + b.subrange(m.end as int, b.len() as int)
                },
            },
    {
        let m = match self.find_next(text, from_pos) {
            Some(m) => m,
            None => return None,
        };
        let replacement = match self.search_mode {
            SearchMode::Extended => Self::expand_escapes(self.replace_text.as_str()),
            _ => self.replace_text.clone(),
        };
        let b = text.as_bytes();
        let len = b.len();
        let head = str_byte_range(text, 0, m.start);
        let tail = str_byte_range(text, m.end, len);
        let mid: String = if self.search_mode == SearchMode::Regex {
            let re = match self.build_regex() {
                Some(r) => r,
                None => return None,
            };
            let rest = str_byte_range(text, m.start, len);
            proof {
                lemma_chars_from(text@, m.start as int, rest@);
            }
            match re.first_expansion(rest.as_str(), replacement.as_str()) {
                Some(x) => x,
                None => replacement,
            }
        } else {
            replacement
        };
        let mut result = String::new();
        result.append(head.as_str());
        result.append(mid.as_str());
        result.append(tail.as_str());
        proof {
            crate::bytes::lemma_bytes_concat(head@ + mid@, tail@);
            crate::bytes::lemma_bytes_concat(head@, mid@);
            assert(result@ == head@ + mid@ + tail@);
        }
        Some((result, m))
    }

    /// Replaces every match: in regex mode with `$` references expanded,
    /// else literally by the replacement text (expanded in extended mode).
    /// Returns the new text and the number of matches; the text unchanged
    /// and 0 when the settings give no pattern that compiles.
    pub fn replace_all(&self, text: &str) -> (res: (String, usize))
        ensures
            !self.searchable() ==> res.0@ == text@ && res.1 == 0,
            self.searchable() ==> {
                let p = self.pattern()->Some_0;
                &&& res.1 == regex_find_iter_spans(p, text@).len()
                &&& self.search_mode == SearchMode::Regex ==> res.0@ == regex_replace_all_expanded(
                    p,
                    text@,
                    self.replacement(),
                )
                &&& self.search_mode != SearchMode::Regex ==> bytes_of(res.0@) == splice_from(
                    bytes_of(text@),
                    regex_find_iter_spans(p, text@),
                    bytes_of(self.replacement()),
                    0,
                    0,
                )
            },
    {
        let re = match self.build_regex() {
            Some(r) => r,
            None => {
                let mut t = String::new();
                t.append(text);
                return (t, 0);
            },
        };
        let replacement = match self.search_mode {
            SearchMode::Extended => Self::expand_escapes(self.replace_text.as_str()),
            _ => self.replace_text.clone(),
        };
        let count = re.find_iter_spans(text).len();
        let new_text = if self.search_mode == SearchMode::Regex {
            re.replace_all_expanded(text, replacement.as_str())
        } else {
            re.replace_all_literal(text, replacement.as_str())
        };
        (new_text, count)
    }

    /// The number of matches; 0 when the settings give no pattern that
    /// compiles.
    pub fn count(&self, text: &str) -> (res: usize)
        ensures
            !self.searchable() ==> res == 0,
            self.searchable() ==> res == regex_find_iter_spans(self.pattern()->Some_0, text@).len(),
    {
        match self.build_regex() {
            Some(re) => re.find_iter_spans(text).len(),
            None => 0,
        }
    }

    /// `find_next` finds nothing.
    pub open spec fn find_next_spec_none(&self, text: Seq<char>, from: usize) -> bool {
        !self.searchable() || {
            let p = self.pattern()->Some_0;
            regex_find_at_span(p, text, from) is None && match regex_find_at_span(p, text, 0) {
                Some(sp) => !(self.wrap_around && sp.0 < from),
                None => true,
            }
        }
    }

    /// The span `find_next` reports, where it reports one.
    pub open spec fn next_span(&self, text: Seq<char>, from: usize) -> (int, int) {
        let p = self.pattern()->Some_0;
        match regex_find_at_span(p, text, from) {
            Some(sp) => (sp.0 as int, sp.1 as int),
            None => match regex_find_at_span(p, text, 0) {
                Some(sp) => (sp.0 as int, sp.1 as int),
                None => (0, 0),
            },
        }
    }
}

/// The characters of a text from byte `start` on.
pub open spec fn chars_from(text: Seq<char>, start: int) -> Seq<char> {
    choose|t: Seq<char>| bytes_of(t) == bytes_of(text).subrange(start, bytes_of(text).len() as int)
}

proof fn lemma_chars_from(text: Seq<char>, start: int, t: Seq<char>)
    requires
        bytes_of(t) == bytes_of(text).subrange(start, bytes_of(text).len() as int),
    ensures
        chars_from(text, start) == t,
{
    let c = chars_from(text, start);
    assert(bytes_of(c) == bytes_of(t));
    vstd::utf8::encode_utf8_decode_utf8(c);
    vstd::utf8::encode_utf8_decode_utf8(t);
}

/// `find_all` reports as many matches as `count` counts, and as many as
/// `replace_all` reports replacing: all three follow the matches of
/// `find_iter`.
pub proof fn law_count_agrees(
    e: SearchEngine,
    text: Seq<char>,
    found: Seq<SearchMatch>,
    counted: usize,
    replaced: usize,
)
    requires
        !e.searchable() ==> found.len() == 0 && counted == 0 && replaced == 0,
        e.searchable() ==> reports_all(
            found,
            bytes_of(text),
            regex_find_iter_spans(e.pattern()->Some_0, text),
        ),
        e.searchable() ==> counted == regex_find_iter_spans(e.pattern()->Some_0, text).len(),
        e.searchable() ==> replaced == regex_find_iter_spans(e.pattern()->Some_0, text).len(),
    ensures
        found.len() == counted,
        replaced == counted,
{
}

} // verus!
