//! The function list: the definitions found in a source text, line by line,
//! by the simple patterns of each language.
use vstd::prelude::*;
use crate::text::{
    chars_contain, chars_start_with, contains, is_ws, lines_of, occurs_at, seqs_of, split_lines,
    starts_with, str_chars, str_eq, string_from_chars, trim, trimmed_chars,
};
use crate::unicode::{alphabetic, is_alphanumeric, lowercase, numeric, to_lowercase};

verus! {

/// What kind of definition a symbol is.
#[derive(Debug, Clone, Copy, PartialEq, Eq, Structural)]
pub enum SymbolKind {
    Function,
    Class,
    Struct,
    Enum,
    Trait,
    Interface,
    Method,
}

impl SymbolKind {
    /// The short label the function list shows.
    pub open spec fn label_spec(self) -> Seq<char> {
        match self {
            SymbolKind::Function => "fn"@,
            SymbolKind::Class => "class"@,
            SymbolKind::Struct => "struct"@,
            SymbolKind::Enum => "enum"@,
            SymbolKind::Trait => "trait"@,
            SymbolKind::Interface => "iface"@,
            SymbolKind::Method => "method"@,
        }
    }

    /// The short label the function list shows (its display text).
    pub fn label(&self) -> (res: String)
        ensures
            res@ == self.label_spec(),
    {
        match self {
            SymbolKind::Function => String::from_str("fn"),
            SymbolKind::Class => String::from_str("class"),
            SymbolKind::Struct => String::from_str("struct"),
            SymbolKind::Enum => String::from_str("enum"),
            SymbolKind::Trait => String::from_str("trait"),
            SymbolKind::Interface => String::from_str("iface"),
            SymbolKind::Method => String::from_str("method"),
        }
    }
}

/// A definition found in the text: its 0-based line, name and kind.
#[derive(Debug, Clone)]
pub struct Symbol {
    pub line: usize,
    pub name: String,
    pub kind: SymbolKind,
}

// ---------------------------------------------------------------------------
// The patterns
// ---------------------------------------------------------------------------

/// A char of a name: alphanumeric or `_`; with `generics`, also `<` and `>`.
pub open spec fn name_char(c: char, generics: bool) -> bool {
    alphabetic(c) || numeric(c) || c == '_' || (generics && (c == '<' || c == '>'))
}

/// The end of the run of name chars from `i` on.
pub open spec fn name_end(s: Seq<char>, i: int, generics: bool) -> int
    decreases s.len() - i,
{
    if 0 <= i < s.len() && name_char(s[i], generics) {
        name_end(s, i + 1, generics)
    } else {
        i
    }
}

/// The name chars `s` starts with.
pub open spec fn leading_name(s: Seq<char>, generics: bool) -> Seq<char> {
    s.take(name_end(s, 0, generics))
}

/// The first index from `i` on where `p` occurs in `s`.
pub open spec fn find_from(s: Seq<char>, p: Seq<char>, i: int) -> Option<int>
    decreases s.len() + 1 - i,
{
    if i < 0 || i + p.len() > s.len() {
        None
    } else if occurs_at(s, p, i) {
        Some(i)
    } else {
        find_from(s, p, i + 1)
    }
}

/// The name right after the first `kw` in the line, if it is not empty.
pub open spec fn name_after(line: Seq<char>, kw: Seq<char>) -> Option<Seq<char>> {
    match find_from(line, kw, 0) {
        Some(i) => {
            let n = leading_name(line.skip(i + kw.len()), false);
            if n.len() > 0 {
                Some(n)
            } else {
                None
            }
        },
        None => None,
    }
}

/// The kind a line declares: by the first of `class `, `struct `, `enum `,
/// `trait `, `interface ` it contains; a function otherwise.
pub open spec fn kind_of(line: Seq<char>) -> SymbolKind {
    if contains(line, "class "@) {
        SymbolKind::Class
    } else if contains(line, "struct "@) {
        SymbolKind::Struct
    } else if contains(line, "enum "@) {
        SymbolKind::Enum
    } else if contains(line, "trait "@) {
        SymbolKind::Trait
    } else if contains(line, "interface "@) {
        SymbolKind::Interface
    } else {
        SymbolKind::Function
    }
}

/// A Rust definition: `fn`, `struct`, `enum`, `trait` (optionally `pub`,
/// `pub(crate)`, `async`), `impl` blocks by their type, and other lines
/// with ` fn ` that are not comments.
pub open spec fn rust_symbol(l: Seq<char>) -> Option<Seq<char>> {
    if starts_with(l, "fn "@) || starts_with(l, "pub fn "@) || starts_with(l, "pub(crate) fn "@)
        || starts_with(l, "async fn "@) || starts_with(l, "pub async fn "@) {
        name_after(l, "fn "@)
    } else if starts_with(l, "struct "@) || starts_with(l, "pub struct "@) {
        name_after(l, "struct "@)
    } else if starts_with(l, "enum "@) || starts_with(l, "pub enum "@) {
        name_after(l, "enum "@)
    } else if starts_with(l, "trait "@) || starts_with(l, "pub trait "@) {
        name_after(l, "trait "@)
    } else if starts_with(l, "impl "@) {
        let n = leading_name(l.skip(5), true);
        if n.len() > 0 {
            Some("impl "@ + n)
        } else {
            None
        }
    } else if contains(l, " fn "@) && !starts_with(l, "//"@) {
        name_after(l, "fn "@)
    } else {
        None
    }
}

/// A Python `def` (optionally `async`) or `class`.
pub open spec fn python_symbol(l: Seq<char>) -> Option<Seq<char>> {
    if starts_with(l, "def "@) || starts_with(l, "async def "@) {
        name_after(l, "def "@)
    } else if starts_with(l, "class "@) {
        name_after(l, "class "@)
    } else {
        None
    }
}

/// A JavaScript `function` (optionally `async`, `export`), `class`
/// (optionally `export`), or a `const` bound to an arrow function or a
/// function.
pub open spec fn js_symbol(l: Seq<char>) -> Option<Seq<char>> {
    if starts_with(l, "function "@) || starts_with(l, "async function "@) || starts_with(
        l,
        "export function "@,
    ) || starts_with(l, "export async function "@) {
        name_after(l, "function "@)
    } else if starts_with(l, "class "@) || starts_with(l, "export class "@) {
        name_after(l, "class "@)
    } else if contains(l, "const "@) && contains(l, " = "@) && (contains(l, "=>"@) || contains(
        l,
        "function"@,
    )) {
        name_after(l, "const "@)
    } else {
        None
    }
}

/// Scanning for whitespace-separated words: the words finished so far and
/// the one still open.
pub open spec fn word_state(s: Seq<char>) -> (Seq<Seq<char>>, Seq<char>)
    decreases s.len(),
{
    if s.len() == 0 {
        (seq![], seq![])
    } else {
        let (done, cur) = word_state(s.drop_last());
        if is_ws(s.last()) {
            if cur.len() > 0 {
                (done.push(cur), seq![])
            } else {
                (done, cur)
            }
        } else {
            (done, cur.push(s.last()))
        }
    }
}

/// The words of a text, as `str::split_whitespace` yields them.
pub open spec fn words_of(s: Seq<char>) -> Seq<Seq<char>> {
    let (done, cur) = word_state(s);
    if cur.len() > 0 {
        done.push(cur)
    } else {
        done
    }
}

/// The last index at or below `i` where `p` occurs in `s`.
pub open spec fn find_last(s: Seq<char>, p: Seq<char>, i: int) -> Option<int>
    decreases i + 1,
{
    if i < 0 {
        None
    } else if occurs_at(s, p, i) {
        Some(i)
    } else {
        find_last(s, p, i - 1)
    }
}

/// The chars of `s` from `i` on, past the leading `~`s.
pub open spec fn tilde_end(s: Seq<char>, i: int) -> int
    decreases s.len() - i,
{
    if 0 <= i < s.len() && s[i] == '~' {
        tilde_end(s, i + 1)
    } else {
        i
    }
}

/// A C-family name without leading `~`s and without any qualifier before
/// its last `::`.
pub open spec fn clean_name(name: Seq<char>) -> Seq<char> {
    let t = name.skip(tilde_end(name, 0));
    match find_last(t, "::"@, t.len() - 2) {
        Some(p) => t.skip(p + 2),
        None => t,
    }
}

/// A char of a C-family name: alphanumeric, `_`, `:` or `~`.
pub open spec fn c_name_char(c: char) -> bool {
    alphabetic(c) || numeric(c) || c == '_' || c == ':' || c == '~'
}

/// Whether a name is made of C-family name chars.
pub open spec fn all_c_name_chars(name: Seq<char>) -> bool {
    forall|k: int| 0 <= k < name.len() ==> c_name_char(#[trigger] name[k])
}

/// Words that start statements, not definitions.
pub open spec fn statement_word(w: Seq<char>) -> bool {
    w == "else"@ || w == "do"@ || w == "case"@ || w == "delete"@ || w == "new"@ || w
        == "sizeof"@ || w == "typeof"@ || w == "alignof"@
}

/// Whether a line can be a C-family function header: it has a `(`, is not a
/// comment, directive, control statement, continuation or statement.
pub open spec fn c_header_line(l: Seq<char>) -> bool {
    &&& contains(l, "("@)
    &&& !starts_with(l, "//"@)
    &&& !starts_with(l, "#"@)
    &&& !starts_with(l, "if "@)
    &&& !starts_with(l, "for "@)
    &&& !starts_with(l, "while "@)
    &&& !starts_with(l, "switch "@)
    &&& !starts_with(l, "catch "@)
    &&& !starts_with(l, "return "@)
    &&& !starts_with(l, "throw "@)
    &&& !starts_with(l, ","@)
    &&& !starts_with(l, ":"@)
    &&& !starts_with(l, "."@)
    &&& !(l.len() > 0 && l.last() == ';')
}

/// A C-family definition: `class`, `struct`, `enum`, `interface`, or a
/// function header, named by the last of at least two words before its
/// first `(`, where that part is no member access or assignment, the name
/// is made of name chars with something left once cleaned, and the first
/// word does not start a statement.
pub open spec fn c_family_symbol(l: Seq<char>) -> Option<Seq<char>> {
    if starts_with(l, "class "@) || starts_with(l, "public class "@) {
        name_after(l, "class "@)
    } else if starts_with(l, "struct "@) {
        name_after(l, "struct "@)
    } else if starts_with(l, "enum "@) {
        name_after(l, "enum "@)
    } else if starts_with(l, "interface "@) || starts_with(l, "public interface "@) {
        name_after(l, "interface "@)
    } else if c_header_line(l) {
        c_function_name(l)
    } else {
        None
    }
}

/// The name of a C-family function header: the last of at least two words
/// before its first `(`, where that part is no member access or assignment,
/// the name is made of name chars with something left once cleaned, and the
/// first word does not start a statement.
pub open spec fn c_function_name(l: Seq<char>) -> Option<Seq<char>> {
    let bp = match find_from(l, "("@, 0) {
        Some(i) => l.take(i),
        None => l,
    };
    let ws = words_of(bp);
    if contains(bp, "."@) || contains(bp, "->"@) || contains(bp, "="@) || ws.len() < 2 {
        None
    } else {
        let name = ws.last();
        if all_c_name_chars(name) && clean_name(name).len() > 0 && !statement_word(ws[0]) {
            Some(name)
        } else {
            None
        }
    }
}

/// A definition in a language without patterns of its own: after a leading
/// `function`, `func`, `def`, `fn` or `sub`.
pub open spec fn generic_symbol(l: Seq<char>) -> Option<Seq<char>> {
    if starts_with(l, "function "@) {
        name_after(l, "function "@)
    } else if starts_with(l, "func "@) {
        name_after(l, "func "@)
    } else if starts_with(l, "def "@) {
        name_after(l, "def "@)
    } else if starts_with(l, "fn "@) {
        name_after(l, "fn "@)
    } else if starts_with(l, "sub "@) {
        name_after(l, "sub "@)
    } else {
        None
    }
}

/// The languages matched by the C-family patterns (lowercased).
pub open spec fn c_family_language(lang: Seq<char>) -> bool {
    lang == "c"@ || lang == "c++"@ || lang == "c#"@ || lang == "java"@ || lang == "go"@ || lang
        == "kotlin"@ || lang == "swift"@
}

/// The symbol a trimmed line defines in a language (lowercased): its name
/// and kind.
pub open spec fn line_symbol(t: Seq<char>, lang: Seq<char>) -> Option<(Seq<char>, SymbolKind)> {
    let found = if lang == "rust"@ {
        rust_symbol(t)
    } else if lang == "python"@ {
        python_symbol(t)
    } else if lang == "javascript"@ || lang == "typescript"@ {
        js_symbol(t)
    } else if c_family_language(lang) {
        c_family_symbol(t)
    } else {
        generic_symbol(t)
    };
    let known = lang == "rust"@ || lang == "python"@ || lang == "javascript"@ || lang
        == "typescript"@ || c_family_language(lang);
    match found {
        Some(n) => Some(
            (
                n,
                if known {
                    kind_of(t)
                } else {
                    SymbolKind::Function
                },
            ),
        ),
        None => None,
    }
}

/// The symbols of the first lines, with their line numbers.
pub open spec fn symbols_in(lines: Seq<Seq<char>>, lang: Seq<char>) -> Seq<(usize, Seq<char>, SymbolKind)>
    decreases lines.len(),
{
    if lines.len() == 0 {
        seq![]
    } else {
        let prev = symbols_in(lines.drop_last(), lang);
        match line_symbol(trim(lines.last()), lang) {
            Some((n, k)) => prev.push(((lines.len() - 1) as usize, n, k)),
            None => prev,
        }
    }
}

pub open spec fn symbol_view(s: Symbol) -> (usize, Seq<char>, SymbolKind) {
    (s.line, s.name@, s.kind)
}

/// A name followed by something that cannot continue it ends there.
proof fn lemma_name_end_at(n: Seq<char>, r: Seq<char>, i: int)
    requires
        0 <= i <= n.len(),
        forall|k: int| 0 <= k < n.len() ==> name_char(#[trigger] n[k], false),
        r.len() == 0 || !name_char(r[0], false),
    ensures
        name_end(n + r, i, false) == n.len(),
    decreases n.len() - i,
{
    if i < n.len() {
        assert((n + r)[i] == n[i]);
        lemma_name_end_at(n, r, i + 1);
    } else if r.len() > 0 {
        assert((n + r)[i] == r[0]);
    }
}

/// A Rust line `pub enum` followed by a name (and anything that does not
/// continue the name) declares an enum of that name, as `enum` does, where
/// the line does not also mention a class or a struct: the function list
/// gets one more entry, at that line, with that name and kind `Enum`.
pub proof fn law_rust_enum_listed(lines: Seq<Seq<char>>, line: Seq<char>, public: bool, n: Seq<char>, r: Seq<char>)
    requires
        trim(line) == (if public { "pub enum "@ } else { "enum "@ }) + n + r,
        n.len() > 0,
        forall|k: int| 0 <= k < n.len() ==> name_char(#[trigger] n[k], false),
        r.len() == 0 || !name_char(r[0], false),
        !contains(trim(line), "class "@),
        !contains(trim(line), "struct "@),
    ensures
        line_symbol(trim(line), "rust"@) == Some((n, SymbolKind::Enum)),
        symbols_in(lines.push(line), "rust"@) == symbols_in(lines, "rust"@).push(
            (lines.len() as usize, n, SymbolKind::Enum),
        ),
{
    reveal_strlit("pub enum ");
    reveal_strlit("enum ");
    reveal_strlit("fn ");
    reveal_strlit("pub fn ");
    reveal_strlit("pub(crate) fn ");
    reveal_strlit("async fn ");
    reveal_strlit("pub async fn ");
    reveal_strlit("struct ");
    reveal_strlit("pub struct ");
    reveal_strlit("rust");
    let pre = if public { "pub enum "@ } else { "enum "@ };
    let l = trim(line);
    let kw = "enum "@;
    let at: int = if public { 4 } else { 0 };
    assert(l == pre + (n + r)) by {
        assert(pre + n + r =~= pre + (n + r));
    }
    assert forall|j: int| 0 <= j < pre.len() implies l[j] == pre[j] by {}
    assert(!starts_with(l, "fn "@)) by { if l.len() >= 3 { assert(l.take(3)[0] == l[0]); } }
    assert(!starts_with(l, "pub fn "@)) by {
        if public { if l.len() >= 7 { assert(l.take(7)[4] == l[4]); } } else { if l.len() >= 7 { assert(l.take(7)[0] == l[0]); } }
    }
    assert(!starts_with(l, "pub(crate) fn "@)) by {
        if public { if l.len() >= 14 { assert(l.take(14)[3] == l[3]); } } else { if l.len() >= 14 { assert(l.take(14)[0] == l[0]); } }
    }
    assert(!starts_with(l, "async fn "@)) by { if l.len() >= 9 { assert(l.take(9)[0] == l[0]); } }
    assert(!starts_with(l, "pub async fn "@)) by {
        if public { if l.len() >= 13 { assert(l.take(13)[4] == l[4]); } } else { if l.len() >= 13 { assert(l.take(13)[0] == l[0]); } }
    }
    assert(!starts_with(l, "struct "@)) by { if l.len() >= 7 { assert(l.take(7)[0] == l[0]); } }
    assert(!starts_with(l, "pub struct "@)) by {
        if public { if l.len() >= 11 { assert(l.take(11)[4] == l[4]); } } else { if l.len() >= 11 { assert(l.take(11)[0] == l[0]); } }
    }
    assert(starts_with(l, pre)) by { assert(l.take(pre.len() as int) =~= pre); }
    assert(occurs_at(l, kw, at)) by { assert(l.subrange(at, at + 5) =~= kw); }
    if public {
        assert(!occurs_at(l, kw, 0)) by { assert(l.subrange(0, 5)[0] == l[0]); }
        assert(!occurs_at(l, kw, 1)) by { assert(l.subrange(1, 6)[0] == l[1]); }
        assert(!occurs_at(l, kw, 2)) by { assert(l.subrange(2, 7)[0] == l[2]); }
        assert(!occurs_at(l, kw, 3)) by { assert(l.subrange(3, 8)[0] == l[3]); }
        assert(find_from(l, kw, 4) == Some(4int));
        assert(find_from(l, kw, 3) == Some(4int));
        assert(find_from(l, kw, 2) == Some(4int));
        assert(find_from(l, kw, 1) == Some(4int));
    }
    assert(find_from(l, kw, 0) == Some(at));
    let rest = l.skip(at + 5);
    assert(rest =~= n + r);
    lemma_name_end_at(n, r, 0);
    assert(leading_name(rest, false) =~= n);
    assert(name_after(l, kw) == Some(n));
    assert(rust_symbol(l) == Some(n));
    assert(contains(l, kw));
    assert(kind_of(l) == SymbolKind::Enum);
    assert(lines.push(line).drop_last() =~= lines);
}

/// A Rust line `struct` or `pub struct` followed by a name (and anything
/// that does not continue the name) declares a struct of that name, where
/// the line does not also mention a class: the function list gets one more
/// entry, at that line, with that name and kind `Struct`.
pub proof fn law_rust_struct_listed(lines: Seq<Seq<char>>, line: Seq<char>, public: bool, n: Seq<char>, r: Seq<char>)
    requires
        trim(line) == (if public { "pub struct "@ } else { "struct "@ }) + n + r,
        n.len() > 0,
        forall|k: int| 0 <= k < n.len() ==> name_char(#[trigger] n[k], false),
        r.len() == 0 || !name_char(r[0], false),
        !contains(trim(line), "class "@),
    ensures
        line_symbol(trim(line), "rust"@) == Some((n, SymbolKind::Struct)),
        symbols_in(lines.push(line), "rust"@) == symbols_in(lines, "rust"@).push(
            (lines.len() as usize, n, SymbolKind::Struct),
        ),
{
    reveal_strlit("async fn ");
    reveal_strlit("fn ");
    reveal_strlit("pub async fn ");
    reveal_strlit("pub fn ");
    reveal_strlit("pub struct ");
    reveal_strlit("pub(crate) fn ");
    reveal_strlit("rust");
    reveal_strlit("struct ");
    let pre = if public { "pub struct "@ } else { "struct "@ };
    let l = trim(line);
    let kw = "struct "@;
    let at: int = if public { 4 } else { 0 };
    assert(l == pre + (n + r)) by {
        assert(pre + n + r =~= pre + (n + r));
    }
    assert forall|j: int| 0 <= j < pre.len() implies l[j] == pre[j] by {}
    assert(!starts_with(l, "fn "@)) by { if l.len() >= 3 { assert(l.take(3)[0] == l[0]); } }
    assert(!starts_with(l, "pub fn "@)) by {
        if public { if l.len() >= 7 { assert(l.take(7)[4] == l[4]); } } else { if l.len() >= 7 { assert(l.take(7)[0] == l[0]); } }
    }
    assert(!starts_with(l, "pub(crate) fn "@)) by {
        if public { if l.len() >= 14 { assert(l.take(14)[3] == l[3]); } } else { if l.len() >= 14 { assert(l.take(14)[0] == l[0]); } }
    }
    assert(!starts_with(l, "async fn "@)) by { if l.len() >= 9 { assert(l.take(9)[0] == l[0]); } }
    assert(!starts_with(l, "pub async fn "@)) by {
        if public { if l.len() >= 13 { assert(l.take(13)[4] == l[4]); } } else { if l.len() >= 13 { assert(l.take(13)[0] == l[0]); } }
    }
    assert(starts_with(l, pre)) by { assert(l.take(pre.len() as int) =~= pre); }
    assert(occurs_at(l, kw, at)) by { assert(l.subrange(at, at + 7) =~= kw); }
    if public {
        assert(!occurs_at(l, kw, 0)) by { assert(l.subrange(0, 7)[0] == l[0]); }
        assert(!occurs_at(l, kw, 1)) by { assert(l.subrange(1, 8)[0] == l[1]); }
        assert(!occurs_at(l, kw, 2)) by { assert(l.subrange(2, 9)[0] == l[2]); }
        assert(!occurs_at(l, kw, 3)) by { assert(l.subrange(3, 10)[0] == l[3]); }
        assert(find_from(l, kw, 4) == Some(4int));
        assert(find_from(l, kw, 3) == Some(4int));
        assert(find_from(l, kw, 2) == Some(4int));
        assert(find_from(l, kw, 1) == Some(4int));
    }
    assert(find_from(l, kw, 0) == Some(at));
    let rest = l.skip(at + 7);
    assert(rest =~= n + r);
    lemma_name_end_at(n, r, 0);
    assert(leading_name(rest, false) =~= n);
    assert(name_after(l, kw) == Some(n));
    assert(rust_symbol(l) == Some(n));
    assert(contains(l, kw));
    assert(kind_of(l) == SymbolKind::Struct);
    assert(lines.push(line).drop_last() =~= lines);
}

/// A Rust line `trait` or `pub trait` followed by a name (and anything
/// that does not continue the name) declares a trait of that name, where
/// the line does not also mention a class, a struct or an enum: the
/// function list gets one more entry, at that line, with that name and
/// kind `Trait`.
pub proof fn law_rust_trait_listed(lines: Seq<Seq<char>>, line: Seq<char>, public: bool, n: Seq<char>, r: Seq<char>)
    requires
        trim(line) == (if public { "pub trait "@ } else { "trait "@ }) + n + r,
        n.len() > 0,
        forall|k: int| 0 <= k < n.len() ==> name_char(#[trigger] n[k], false),
        r.len() == 0 || !name_char(r[0], false),
        !contains(trim(line), "class "@),
        !contains(trim(line), "struct "@),
        !contains(trim(line), "enum "@),
    ensures
        line_symbol(trim(line), "rust"@) == Some((n, SymbolKind::Trait)),
        symbols_in(lines.push(line), "rust"@) == symbols_in(lines, "rust"@).push(
            (lines.len() as usize, n, SymbolKind::Trait),
        ),
{
    reveal_strlit("async fn ");
    reveal_strlit("enum ");
    reveal_strlit("fn ");
    reveal_strlit("pub async fn ");
    reveal_strlit("pub enum ");
    reveal_strlit("pub fn ");
    reveal_strlit("pub struct ");
    reveal_strlit("pub trait ");
    reveal_strlit("pub(crate) fn ");
    reveal_strlit("rust");
    reveal_strlit("struct ");
    reveal_strlit("trait ");
    let pre = if public { "pub trait "@ } else { "trait "@ };
    let l = trim(line);
    let kw = "trait "@;
    let at: int = if public { 4 } else { 0 };
    assert(l == pre + (n + r)) by {
        assert(pre + n + r =~= pre + (n + r));
    }
    assert forall|j: int| 0 <= j < pre.len() implies l[j] == pre[j] by {}
    assert(!starts_with(l, "fn "@)) by { if l.len() >= 3 { assert(l.take(3)[0] == l[0]); } }
    assert(!starts_with(l, "pub fn "@)) by {
        if public { if l.len() >= 7 { assert(l.take(7)[4] == l[4]); } } else { if l.len() >= 7 { assert(l.take(7)[0] == l[0]); } }
    }
    assert(!starts_with(l, "pub(crate) fn "@)) by {
        if public { if l.len() >= 14 { assert(l.take(14)[3] == l[3]); } } else { if l.len() >= 14 { assert(l.take(14)[0] == l[0]); } }
    }
    assert(!starts_with(l, "async fn "@)) by { if l.len() >= 9 { assert(l.take(9)[0] == l[0]); } }
    assert(!starts_with(l, "pub async fn "@)) by {
        if public { if l.len() >= 13 { assert(l.take(13)[4] == l[4]); } } else { if l.len() >= 13 { assert(l.take(13)[0] == l[0]); } }
    }
    assert(!starts_with(l, "struct "@)) by { if l.len() >= 7 { assert(l.take(7)[0] == l[0]); } }
    assert(!starts_with(l, "pub struct "@)) by {
        if public { if l.len() >= 11 { assert(l.take(11)[4] == l[4]); } } else { if l.len() >= 11 { assert(l.take(11)[0] == l[0]); } }
    }
    assert(!starts_with(l, "enum "@)) by { if l.len() >= 5 { assert(l.take(5)[0] == l[0]); } }
    assert(!starts_with(l, "pub enum "@)) by {
        if public { if l.len() >= 9 { assert(l.take(9)[4] == l[4]); } } else { if l.len() >= 9 { assert(l.take(9)[0] == l[0]); } }
    }
    assert(starts_with(l, pre)) by { assert(l.take(pre.len() as int) =~= pre); }
    assert(occurs_at(l, kw, at)) by { assert(l.subrange(at, at + 6) =~= kw); }
    if public {
        assert(!occurs_at(l, kw, 0)) by { assert(l.subrange(0, 6)[0] == l[0]); }
        assert(!occurs_at(l, kw, 1)) by { assert(l.subrange(1, 7)[0] == l[1]); }
        assert(!occurs_at(l, kw, 2)) by { assert(l.subrange(2, 8)[0] == l[2]); }
        assert(!occurs_at(l, kw, 3)) by { assert(l.subrange(3, 9)[0] == l[3]); }
        assert(find_from(l, kw, 4) == Some(4int));
        assert(find_from(l, kw, 3) == Some(4int));
        assert(find_from(l, kw, 2) == Some(4int));
        assert(find_from(l, kw, 1) == Some(4int));
    }
    assert(find_from(l, kw, 0) == Some(at));
    let rest = l.skip(at + 6);
    assert(rest =~= n + r);
    lemma_name_end_at(n, r, 0);
    assert(leading_name(rest, false) =~= n);
    assert(name_after(l, kw) == Some(n));
    assert(rust_symbol(l) == Some(n));
    assert(contains(l, kw));
    assert(kind_of(l) == SymbolKind::Trait);
    assert(lines.push(line).drop_last() =~= lines);
}

/// A Rust line `fn` or `pub fn` followed by a name (and anything that does
/// not continue the name) declares a function of that name, where the line
/// does not also mention a class, struct, enum, trait or interface: the
/// function list gets one more entry, at that line, with that name and kind
/// `Function`.
pub proof fn law_rust_fn_listed(lines: Seq<Seq<char>>, line: Seq<char>, public: bool, n: Seq<char>, r: Seq<char>)
    requires
        trim(line) == (if public { "pub fn "@ } else { "fn "@ }) + n + r,
        n.len() > 0,
        forall|k: int| 0 <= k < n.len() ==> name_char(#[trigger] n[k], false),
        r.len() == 0 || !name_char(r[0], false),
        !contains(trim(line), "class "@),
        !contains(trim(line), "struct "@),
        !contains(trim(line), "enum "@),
        !contains(trim(line), "trait "@),
        !contains(trim(line), "interface "@),
    ensures
        line_symbol(trim(line), "rust"@) == Some((n, SymbolKind::Function)),
        symbols_in(lines.push(line), "rust"@) == symbols_in(lines, "rust"@).push(
            (lines.len() as usize, n, SymbolKind::Function),
        ),
{
    reveal_strlit("fn ");
    reveal_strlit("pub fn ");
    reveal_strlit("rust");
    let pre = if public { "pub fn "@ } else { "fn "@ };
    let l = trim(line);
    let kw = "fn "@;
    let at: int = if public { 4 } else { 0 };
    assert(l == pre + (n + r)) by {
        assert(pre + n + r =~= pre + (n + r));
    }
    assert forall|j: int| 0 <= j < pre.len() implies l[j] == pre[j] by {}

    assert(starts_with(l, pre)) by { assert(l.take(pre.len() as int) =~= pre); }
    assert(occurs_at(l, kw, at)) by { assert(l.subrange(at, at + 3) =~= kw); }
    if public {
        assert(!occurs_at(l, kw, 0)) by { assert(l.subrange(0, 3)[0] == l[0]); }
        assert(!occurs_at(l, kw, 1)) by { assert(l.subrange(1, 4)[0] == l[1]); }
        assert(!occurs_at(l, kw, 2)) by { assert(l.subrange(2, 5)[0] == l[2]); }
        assert(!occurs_at(l, kw, 3)) by { assert(l.subrange(3, 6)[0] == l[3]); }
        assert(find_from(l, kw, 4) == Some(4int));
        assert(find_from(l, kw, 3) == Some(4int));
        assert(find_from(l, kw, 2) == Some(4int));
        assert(find_from(l, kw, 1) == Some(4int));
    }
    assert(find_from(l, kw, 0) == Some(at));
    let rest = l.skip(at + 3);
    assert(rest =~= n + r);
    lemma_name_end_at(n, r, 0);
    assert(leading_name(rest, false) =~= n);
    assert(name_after(l, kw) == Some(n));
    assert(rust_symbol(l) == Some(n));

    assert(kind_of(l) == SymbolKind::Function);
    assert(lines.push(line).drop_last() =~= lines);
}

// ---------------------------------------------------------------------------
// Executable matching
// ---------------------------------------------------------------------------

fn sw(l: &[char], lit: &str) -> (res: bool)
    ensures
        res == starts_with(l@, lit@),
{
    let p = str_chars(lit);
    chars_start_with(l, p.as_slice())
}

fn has(l: &[char], lit: &str) -> (res: bool)
    ensures
        res == contains(l@, lit@),
{
    let p = str_chars(lit);
    chars_contain(l, p.as_slice())
}

fn is_name_char(c: char, generics: bool) -> (res: bool)
    ensures
        res == name_char(c, generics),
{
    is_alphanumeric(c) || c == '_' || (generics && (c == '<' || c == '>'))
}

fn leading_name_exec(s: &[char], from: usize, generics: bool) -> (res: Vec<char>)
    requires
        from <= s@.len(),
    ensures
        res@ == leading_name(s@.skip(from as int), generics),
{
    let ghost t = s@.skip(from as int);
    let mut i = from;
    let mut out: Vec<char> = Vec::new();
    while i < s.len() && is_name_char(s[i], generics)
        invariant
            from <= i <= s@.len(),
            t == s@.skip(from as int),
            name_end(t, 0, generics) == name_end(t, i - from, generics),
            out@ == t.take(i - from),
        decreases s.len() - i,
    {
        assert(t[i - from] == s@[i as int]);
        out.push(s[i]);
        assert(t.take(i - from + 1) =~= t.take(i - from).push(t[i - from]));
        i = i + 1;
    }
    out
}

fn find_exec(s: &[char], p: &[char]) -> (res: Option<usize>)
    ensures
        match res {
            Some(x) => find_from(s@, p@, 0) == Some(x as int) && x + p@.len() <= s@.len(),
            None => find_from(s@, p@, 0) is None,
        },
{
    let total = s.len();
    if p.len() > total {
        return None;
    }
    let mut i: usize = 0;
    while i <= s.len() - p.len()
        invariant
            total == s@.len(),
            p@.len() <= s@.len(),
            find_from(s@, p@, 0) == find_from(s@, p@, i as int),
        decreases s.len() - i,
    {
        let mut k: usize = 0;
        while k < p.len() && s[i + k] == p[k]
            invariant
                total == s@.len(),
                i + p@.len() <= s@.len(),
                k <= p@.len(),
                forall|j: int| 0 <= j < k ==> s@[i + j] == p@[j],
            decreases p.len() - k,
        {
            k = k + 1;
        }
        if k == p.len() {
            assert(s@.subrange(i as int, i + p@.len()) =~= p@);
            return Some(i);
        }
        assert(s@.subrange(i as int, i + p@.len())[k as int] != p@[k as int]);
        i = i + 1;
    }
    None
}

fn name_after_exec(l: &[char], kw: &str) -> (res: Option<Vec<char>>)
    ensures
        match name_after(l@, kw@) {
            Some(n) => res matches Some(v) && v@ == n,
            None => res is None,
        },
{
    let k = str_chars(kw);
    let total = l.len();
    match find_exec(l, k.as_slice()) {
        Some(i) => {
            assert(i + k@.len() <= total);
            let n = leading_name_exec(l, i + k.len(), false);
            if n.len() > 0 {
                Some(n)
            } else {
                None
            }
        },
        None => None,
    }
}

fn kind_of_exec(l: &[char]) -> (res: SymbolKind)
    ensures
        res == kind_of(l@),
{
    if has(l, "class ") {
        SymbolKind::Class
    } else if has(l, "struct ") {
        SymbolKind::Struct
    } else if has(l, "enum ") {
        SymbolKind::Enum
    } else if has(l, "trait ") {
        SymbolKind::Trait
    } else if has(l, "interface ") {
        SymbolKind::Interface
    } else {
        SymbolKind::Function
    }
}

fn extract_rust_symbol(l: &[char]) -> (res: Option<Vec<char>>)
    ensures
        match rust_symbol(l@) {
            Some(n) => res matches Some(v) && v@ == n,
            None => res is None,
        },
{
    if sw(l, "fn ") || sw(l, "pub fn ") || sw(l, "pub(crate) fn ") || sw(l, "async fn ") || sw(
        l,
        "pub async fn ",
    ) {
        name_after_exec(l, "fn ")
    } else if sw(l, "struct ") || sw(l, "pub struct ") {
        name_after_exec(l, "struct ")
    } else if sw(l, "enum ") || sw(l, "pub enum ") {
        name_after_exec(l, "enum ")
    } else if sw(l, "trait ") || sw(l, "pub trait ") {
        name_after_exec(l, "trait ")
    } else if sw(l, "impl ") {
        proof {
            reveal_strlit("impl ");
        }
        let n = leading_name_exec(l, 5, true);
        if n.len() > 0 {
            let mut out = str_chars("impl ");
            let mut m = n;
            out.append(&mut m);
            Some(out)
        } else {
            None
        }
    } else if has(l, " fn ") && !sw(l, "//") {
        name_after_exec(l, "fn ")
    } else {
        None
    }
}

fn extract_python_symbol(l: &[char]) -> (res: Option<Vec<char>>)
    ensures
        match python_symbol(l@) {
            Some(n) => res matches Some(v) && v@ == n,
            None => res is None,
        },
{
    if sw(l, "def ") || sw(l, "async def ") {
        name_after_exec(l, "def ")
    } else if sw(l, "class ") {
        name_after_exec(l, "class ")
    } else {
        None
    }
}

fn extract_js_symbol(l: &[char]) -> (res: Option<Vec<char>>)
    ensures
        match js_symbol(l@) {
            Some(n) => res matches Some(v) && v@ == n,
            None => res is None,
        },
{
    if sw(l, "function ") || sw(l, "async function ") || sw(l, "export function ") || sw(
        l,
        "export async function ",
    ) {
        name_after_exec(l, "function ")
    } else if sw(l, "class ") || sw(l, "export class ") {
        name_after_exec(l, "class ")
    } else if has(l, "const ") && has(l, " = ") && (has(l, "=>") || has(l, "function")) {
        name_after_exec(l, "const ")
    } else {
        None
    }
}

fn words_exec(s: &[char]) -> (res: Vec<Vec<char>>)
    ensures
        seqs_of(res@) == words_of(s@),
{
    let mut out: Vec<Vec<char>> = Vec::new();
    let mut cur: Vec<char> = Vec::new();
    let mut i: usize = 0;
    while i < s.len()
        invariant
            i <= s@.len(),
            (seqs_of(out@), cur@) == word_state(s@.take(i as int)),
        decreases s.len() - i,
    {
        let c = s[i];
        assert(s@.take(i as int + 1).drop_last() == s@.take(i as int));
        if crate::text::is_whitespace(c) {
            if cur.len() > 0 {
                let ghost old_out = out@;
                out.push(cur);
                assert(seqs_of(out@) == seqs_of(old_out).push(word_state(s@.take(i as int)).1));
                cur = Vec::new();
            }
        } else {
            cur.push(c);
        }
        i = i + 1;
    }
    assert(s@.take(s@.len() as int) == s@);
    if cur.len() > 0 {
        let ghost old_out = out@;
        out.push(cur);
        assert(seqs_of(out@) == seqs_of(old_out).push(word_state(s@).1));
    }
    out
}

fn clean_name_len(name: &[char]) -> (res: usize)
    ensures
        res == clean_name(name@).len(),
{
    let total = name.len();
    let mut i: usize = 0;
    while i < name.len() && name[i] == '~'
        invariant
            i <= name@.len(),
            tilde_end(name@, 0) == tilde_end(name@, i as int),
        decreases name.len() - i,
    {
        i = i + 1;
    }
    assert(tilde_end(name@, 0) == i);
    let ghost t = name@.skip(i as int);
    let n = name.len() - i;
    if n < 2 {
        assert(find_last(t, "::"@, t.len() - 2) is None);
        return n;
    }
    proof {
        reveal_strlit("::");
    }
    let mut j: usize = n - 2;
    loop
        invariant
            i <= name@.len(),
            total == name@.len(),
            tilde_end(name@, 0) == i,
            n == name@.len() - i,
            t == name@.skip(i as int),
            j <= n - 2,
            n >= 2,
            "::"@ == seq![':', ':'],
            find_last(t, "::"@, t.len() - 2) == find_last(t, "::"@, j as int),
        decreases j,
    {
        if name[i + j] == ':' && name[i + j + 1] == ':' {
            assert(t.subrange(j as int, j + 2) =~= "::"@);
            return n - j - 2;
        }
        assert(t.subrange(j as int, j + 2)[0] != ':' || t.subrange(j as int, j + 2)[1] != ':');
        if j == 0 {
            assert(find_last(t, "::"@, -1) is None);
            return n;
        }
        j = j - 1;
    }
}

fn is_statement_word(w: &[char]) -> (res: bool)
    ensures
        res == statement_word(w@),
{
    let s = string_from_chars(w);
    let t = s.as_str();
    str_eq(t, "else") || str_eq(t, "do") || str_eq(t, "case") || str_eq(t, "delete") || str_eq(
        t,
        "new",
    ) || str_eq(t, "sizeof") || str_eq(t, "typeof") || str_eq(t, "alignof")
}

fn extract_c_family_symbol(l: &[char]) -> (res: Option<Vec<char>>)
    ensures
        match c_family_symbol(l@) {
            Some(n) => res matches Some(v) && v@ == n,
            None => res is None,
        },
{
    if sw(l, "class ") || sw(l, "public class ") {
        name_after_exec(l, "class ")
    } else if sw(l, "struct ") {
        name_after_exec(l, "struct ")
    } else if sw(l, "enum ") {
        name_after_exec(l, "enum ")
    } else if sw(l, "interface ") || sw(l, "public interface ") {
        name_after_exec(l, "interface ")
    } else if has(l, "(") && !sw(l, "//") && !sw(l, "#") && !sw(l, "if ") && !sw(l, "for ") && !sw(
        l,
        "while ",
    ) && !sw(l, "switch ") && !sw(l, "catch ") && !sw(l, "return ") && !sw(l, "throw ") && !sw(
        l,
        ",",
    ) && !sw(l, ":") && !sw(l, ".") && !(l.len() > 0 && l[l.len() - 1] == ';') {
        c_function_name_exec(l)
    } else {
        None
    }
}

fn c_function_name_exec(l: &[char]) -> (res: Option<Vec<char>>)
    ensures
        match c_function_name(l@) {
            Some(n) => res matches Some(v) && v@ == n,
            None => res is None,
        },
{
    let paren = str_chars("(");
    let bp: Vec<char> = match find_exec(l, paren.as_slice()) {
        Some(i) => {
            let mut v: Vec<char> = Vec::new();
            crate::text::push_range(&mut v, l, 0, i);
            assert(v@ =~= l@.take(i as int));
            v
        },
        None => {
            let mut v: Vec<char> = Vec::new();
            crate::text::push_range(&mut v, l, 0, l.len());
            assert(v@ =~= l@);
            v
        },
    };
    assert(bp@ == match find_from(l@, "("@, 0) {
        Some(i) => l@.take(i),
        None => l@,
    });
    if has(bp.as_slice(), ".") || has(bp.as_slice(), "->") || has(bp.as_slice(), "=") {
        return None;
    }
    let ws = words_exec(bp.as_slice());
    if ws.len() < 2 {
        return None;
    }
    let last = ws.len() - 1;
    assert(seqs_of(ws@)[last as int] == ws@[last as int]@);
    let name: &Vec<char> = &ws[last];
    assert(words_of(bp@).len() == ws@.len());
    assert(name@ == words_of(bp@).last());
    let mut k: usize = 0;
    while k < name.len() && (is_alphanumeric(name[k]) || name[k] == '_' || name[k] == ':'
        || name[k] == '~')
        invariant
            k <= name@.len(),
            forall|j: int| 0 <= j < k ==> c_name_char(#[trigger] name@[j]),
        decreases name.len() - k,
    {
        k = k + 1;
    }
    if k < name.len() {
        assert(!c_name_char(name@[k as int]));
        assert(!all_c_name_chars(name@));
        return None;
    }
    assert(all_c_name_chars(name@));
    if clean_name_len(name.as_slice()) == 0 {
        return None;
    }
    assert(seqs_of(ws@)[0] == ws@[0]@);
    if is_statement_word(ws[0].as_slice()) {
        return None;
    }
    let mut out: Vec<char> = Vec::new();
    crate::text::push_range(&mut out, name.as_slice(), 0, name.len());
    assert(out@ =~= name@);
    Some(out)
}

fn extract_generic_symbol(l: &[char]) -> (res: Option<Vec<char>>)
    ensures
        match generic_symbol(l@) {
            Some(n) => res matches Some(v) && v@ == n,
            None => res is None,
        },
{
    if sw(l, "function ") {
        name_after_exec(l, "function ")
    } else if sw(l, "func ") {
        name_after_exec(l, "func ")
    } else if sw(l, "def ") {
        name_after_exec(l, "def ")
    } else if sw(l, "fn ") {
        name_after_exec(l, "fn ")
    } else if sw(l, "sub ") {
        name_after_exec(l, "sub ")
    } else {
        None
    }
}

/// The definitions found in `text` by the patterns of `language` (any
/// case), line by line, with 0-based line numbers.
pub fn extract_symbols(text: &str, language: &str) -> (res: Vec<Symbol>)
    ensures
        res@.map_values(|s: Symbol| symbol_view(s)) == symbols_in(
            lines_of(text@),
            lowercase(language@),
        ),
{
    let lower = to_lowercase(language);
    let lang = lower.as_str();
    let is_rust = str_eq(lang, "rust");
    let is_python = str_eq(lang, "python");
    let is_js = str_eq(lang, "javascript") || str_eq(lang, "typescript");
    let is_c = str_eq(lang, "c") || str_eq(lang, "c++") || str_eq(lang, "c#") || str_eq(lang, "java")
        || str_eq(lang, "go") || str_eq(lang, "kotlin") || str_eq(lang, "swift");
    let lines = split_lines(text);
    let ghost ls = lines_of(text@);
    let ghost lg = lowercase(language@);
    let mut symbols: Vec<Symbol> = Vec::new();
    let mut i: usize = 0;
    while i < lines.len()
        invariant
            i <= lines@.len(),
            seqs_of(lines@) == ls,
            lg == lang@,
            is_rust == (lg == "rust"@),
            is_python == (lg == "python"@),
            is_js == (lg == "javascript"@ || lg == "typescript"@),
            is_c == c_family_language(lg),
            symbols@.map_values(|s: Symbol| symbol_view(s)) == symbols_in(ls.take(i as int), lg),
        decreases lines.len() - i,
    {
        let t = trimmed_chars(lines[i].as_slice());
        assert(seqs_of(lines@)[i as int] == lines@[i as int]@);
        assert(ls.take(i + 1).drop_last() =~= ls.take(i as int));
        let found = if is_rust {
            extract_rust_symbol(t.as_slice())
        } else if is_python {
            extract_python_symbol(t.as_slice())
        } else if is_js {
            extract_js_symbol(t.as_slice())
        } else if is_c {
            extract_c_family_symbol(t.as_slice())
        } else {
            extract_generic_symbol(t.as_slice())
        };
        if let Some(name) = found {
            let kind = if is_rust || is_python || is_js || is_c {
                kind_of_exec(t.as_slice())
            } else {
                SymbolKind::Function
            };
            let ghost before = symbols@;
            symbols.push(Symbol { line: i, name: string_from_chars(name.as_slice()), kind });
            assert(symbols@.map_values(|s: Symbol| symbol_view(s)) =~= before.map_values(
                |s: Symbol| symbol_view(s),
            ).push((i, name@, kind)));
        }
        i = i + 1;
    }
    assert(ls.take(ls.len() as int) =~= ls);
    symbols
}

} // verus!
