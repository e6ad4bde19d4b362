//! Smart indentation: the indent of a line, the indent of the line that
//! follows it, and re-indenting a pasted block.
use vstd::prelude::*;
use crate::text::{
    chars_start_with, is_blank, join, join_chars, leading_ws_len, lines_of, push_range, seqs_of,
    split_lines, starts_with, str_chars, string_from_chars, string_from_range, trim, trim_end, trim_start,
    trimmed_end_len,
};

verus! {

/// The leading whitespace of a line.
pub open spec fn indent_of(s: Seq<char>) -> Seq<char> {
    s.take(s.len() - trim_start(s).len())
}

/// Whether a line, without its trailing whitespace, ends with `{`, `(`, `[`
/// or `:`.
pub open spec fn opens_block(s: Seq<char>) -> bool {
    let t = trim_end(s);
    t.len() > 0 && (t.last() == '{' || t.last() == '(' || t.last() == '[' || t.last() == ':')
}

/// The indent for a line that follows `prev`: its indent, with one more
/// `tab` where `prev` opens a block.
pub open spec fn next_indent(prev: Seq<char>, tab: Seq<char>) -> Seq<char> {
    if opens_block(prev) {
        indent_of(prev) + tab
    } else {
        indent_of(prev)
    }
}

/// Whether a line holds nothing but whitespace.
pub open spec fn blank(s: Seq<char>) -> bool {
    trim(s).len() == 0
}

/// The shortest indent among the non-blank lines, the first one where
/// several are equally short.
pub open spec fn min_indent(ls: Seq<Seq<char>>) -> Option<Seq<char>>
    decreases ls.len(),
{
    if ls.len() == 0 {
        None
    } else {
        let prev = min_indent(ls.drop_last());
        let l = ls.last();
        if blank(l) {
            prev
        } else {
            match prev {
                None => Some(indent_of(l)),
                Some(p) => if indent_of(l).len() < p.len() {
                    Some(indent_of(l))
                } else {
                    Some(p)
                },
            }
        }
    }
}

/// The indent that a pasted block is taken to have: the shortest indent of
/// its non-blank lines after the first, or the first line's indent when it
/// has one line only.
pub open spec fn source_indent(ls: Seq<Seq<char>>) -> Seq<char> {
    if ls.len() > 1 {
        match min_indent(ls.drop_first()) {
            Some(p) => p,
            None => seq![],
        }
    } else {
        indent_of(ls[0])
    }
}

/// Line `i` of a pasted block after re-indenting.
pub open spec fn reindent_line(i: int, l: Seq<char>, src: Seq<char>, target: Seq<char>) -> Seq<
    char,
> {
    if i == 0 {
        l
    } else if blank(l) {
        seq![]
    } else if starts_with(l, src) {
        target + l.skip(src.len() as int)
    } else {
        l
    }
}

/// A pasted text re-indented to `target`.
pub open spec fn reindented(text: Seq<char>, target: Seq<char>) -> Seq<char> {
    let ls = lines_of(text);
    if ls.len() == 0 {
        text
    } else {
        let src = source_indent(ls);
        let body = join(
            Seq::new(ls.len(), |i: int| reindent_line(i, ls[i], src, target)),
            seq!['\n'],
        );
        if text.len() > 0 && text.last() == '\n' {
            body.push('\n')
        } else {
            body
        }
    }
}

fn indent_len(s: &[char]) -> (n: usize)
    ensures
        n <= s@.len(),
        s@.take(n as int) == indent_of(s@),
        trim_start(s@) == s@.skip(n as int),
{
    leading_ws_len(s)
}

/// The leading whitespace of a line.
pub fn get_indent(line: &str) -> (res: &str)
    ensures
        res@ == indent_of(line@),
{
    let chars = str_chars(line);
    let n = indent_len(chars.as_slice());
    line.substring_char(0, n)
}

/// The indent for a new line typed after `prev_line`: its indent, followed
/// by `tab_str` when `prev_line` ends (before trailing whitespace) with `{`,
/// `(`, `[` or `:`.
pub fn compute_indent(prev_line: &str, tab_str: &str) -> (res: String)
    ensures
        res@ == next_indent(prev_line@, tab_str@),
{
    let chars = str_chars(prev_line);
    let n = indent_len(chars.as_slice());
    let mut out = string_from_range(chars.as_slice(), 0, n);
    proof {
        assert(chars@.subrange(0, n as int) == indent_of(prev_line@));
    }
    let t = trimmed_end_len(chars.as_slice());
    if t > 0 {
        let c = chars[t - 1];
        proof {
            assert(trim_end(chars@).last() == c);
        }
        if c == '{' || c == '(' || c == '[' || c == ':' {
            out.append(tab_str);
        }
    }
    out
}

/// The shortest indent among the non-blank lines `ls[1..]`.
fn block_min_indent(ls: &Vec<Vec<char>>) -> (res: Vec<char>)
    requires
        ls@.len() > 1,
    ensures
        res@ == source_indent(seqs_of(ls@)),
{
    let ghost full = seqs_of(ls@);
    let mut best: Option<Vec<char>> = None;
    let mut i: usize = 1;
    while i < ls.len()
        invariant
            1 <= i <= ls@.len(),
            full == seqs_of(ls@),
            match best {
                Some(b) => min_indent(full.drop_first().take(i - 1)) == Some(b@),
                None => min_indent(full.drop_first().take(i - 1)) is None,
            },
        decreases ls.len() - i,
    {
        let l = ls[i].as_slice();
        proof {
            assert(full.drop_first().take(i as int).drop_last() == full.drop_first().take(
                i - 1,
            ));
            assert(full.drop_first().take(i as int).last() == l@);
        }
        if !is_blank(l) {
            let n = indent_len(l);
            let mut cand: Vec<char> = Vec::new();
            push_range(&mut cand, l, 0, n);
            proof {
                assert(cand@ == l@.take(n as int));
            }
            match &best {
                None => {
                    best = Some(cand);
                },
                Some(b) => {
                    if n < b.len() {
                        best = Some(cand);
                    }
                },
            }
        }
        i += 1;
    }
    proof {
        assert(full.drop_first().take(ls@.len() - 1) == full.drop_first());
    }
    match best {
        Some(b) => b,
        None => Vec::new(),
    }
}

/// Re-indents pasted text to `target_indent`: the first line stays as it
/// is, blank lines become empty, and every other line that begins with the
/// block's own indent (see `source_indent`) has it replaced by
/// `target_indent`. A final newline is kept.
pub fn reindent_paste(text: &str, target_indent: &str) -> (res: String)
    ensures
        res@ == reindented(text@, target_indent@),
{
    let lines = split_lines(text);
    let ghost ls = lines_of(text@);
    if lines.len() == 0 {
        let mut out = String::new();
        out.append(text);
        return out;
    }
    let src: Vec<char> = if lines.len() > 1 {
        block_min_indent(&lines)
    } else {
        let l = lines[0].as_slice();
        let n = indent_len(l);
        let mut cand: Vec<char> = Vec::new();
        push_range(&mut cand, l, 0, n);
        cand
    };
    let target = str_chars(target_indent);
    let ghost f = |i: int| reindent_line(i, ls[i], src@, target_indent@);
    let mut out_lines: Vec<Vec<char>> = Vec::new();
    let mut i: usize = 0;
    while i < lines.len()
        invariant
            i <= lines@.len(),
            seqs_of(lines@) == ls,
            src@ == source_indent(ls),
            target@ == target_indent@,
            seqs_of(out_lines@) == Seq::new(i as nat, f),
            f == (|i: int| reindent_line(i, ls[i], src@, target_indent@)),
        decreases lines.len() - i,
    {
        let l = lines[i].as_slice();
        let mut nl: Vec<char> = Vec::new();
        if i == 0 {
            push_range(&mut nl, l, 0, l.len());
        } else if is_blank(l) {
        } else if chars_start_with(l, src.as_slice()) {
            push_range(&mut nl, target.as_slice(), 0, target.len());
            push_range(&mut nl, l, src.len(), l.len());
            proof {
                assert(l@.subrange(src@.len() as int, l@.len() as int) == l@.skip(
                    src@.len() as int,
                ));
            }
        } else {
            push_range(&mut nl, l, 0, l.len());
        }
        proof {
            assert(l@.subrange(0, l@.len() as int) == l@);
            assert(target@.subrange(0, target@.len() as int) == target@);
            assert(nl@ == f(i as int));
        }
        let ghost prev = out_lines@;
        out_lines.push(nl);
        proof {
            assert(seqs_of(out_lines@) == seqs_of(prev).push(f(i as int)));
            assert(Seq::new(i as nat + 1, f) == Seq::new(i as nat, f).push(f(i as int)));
        }
        i += 1;
    }
    let sep = vec!['\n'];
    let mut body = join_chars(&out_lines, sep.as_slice());
    proof {
        assert(sep@ == seq!['\n']);
        assert(seqs_of(out_lines@) == Seq::new(ls.len(), f));
    }
    let chars = str_chars(text);
    let n = chars.len();
    if n > 0 && chars[n - 1] == '\n' {
        body.push('\n');
    }
    string_from_chars(body.as_slice())
}

} // verus!
