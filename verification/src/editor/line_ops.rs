//! Whole-line operations on a document held as a list of lines.
use vstd::prelude::*;
use crate::bytes::{bytes_of, boundary, lemma_boundary_iff};
use crate::text::{
    is_blank, leading_ws_len, str_chars, string_from_range, strs_of, trim, trim_end, trim_start,
    trimmed_end_len,
};
use crate::unicode::{lowercase, to_lowercase};

verus! {

// ---------------------------------------------------------------------------
// Ordering of lines
// ---------------------------------------------------------------------------

/// Lexicographic order on characters by their code points, which is the
/// byte order of the UTF-8 encodings that `String`'s `Ord` compares.
pub open spec fn lex_lt(a: Seq<char>, b: Seq<char>) -> bool
    decreases a.len(),
{
    if a.len() == 0 {
        b.len() > 0
    } else if b.len() == 0 {
        false
    } else if a[0] != b[0] {
        (a[0] as u32) < (b[0] as u32)
    } else {
        lex_lt(a.drop_first(), b.drop_first())
    }
}

/// `a` sorts no later than `b`.
pub open spec fn lex_le(a: Seq<char>, b: Seq<char>) -> bool {
    !lex_lt(b, a)
}

/// `ls` with `x` placed before the first line whose key sorts after the key
/// of `x`, that is after every line whose key does not.
pub open spec fn insert_by_key(
    ls: Seq<Seq<char>>,
    x: Seq<char>,
    key: spec_fn(Seq<char>) -> Seq<char>,
) -> Seq<Seq<char>>
    decreases ls.len(),
{
    if ls.len() == 0 {
        seq![x]
    } else if lex_lt(key(x), key(ls[0])) {
        seq![x] + ls
    } else {
        seq![ls[0]] + insert_by_key(ls.drop_first(), x, key)
    }
}

/// The lines stably sorted by key: lines with equal keys keep their order.
pub open spec fn sort_by_key(ls: Seq<Seq<char>>, key: spec_fn(Seq<char>) -> Seq<char>) -> Seq<
    Seq<char>,
>
    decreases ls.len(),
{
    if ls.len() == 0 {
        seq![]
    } else {
        insert_by_key(sort_by_key(ls.drop_last(), key), ls.last(), key)
    }
}

/// The key under which `sort_asc` orders lines: the line itself.
pub open spec fn same_key() -> spec_fn(Seq<char>) -> Seq<char> {
    |s: Seq<char>| s
}

/// The key under which `sort_case_insensitive` orders lines.
pub open spec fn lower_key() -> spec_fn(Seq<char>) -> Seq<char> {
    |s: Seq<char>| lowercase(s)
}

proof fn lemma_lex_skip(a: Seq<char>, b: Seq<char>, i: int)
    requires
        0 <= i <= a.len(),
        i <= b.len(),
        a.take(i) == b.take(i),
    ensures
        lex_lt(a, b) == lex_lt(a.skip(i), b.skip(i)),
    decreases i,
{
    if i > 0 {
        assert(a[0] == a.take(i)[0]);
        assert(b[0] == b.take(i)[0]);
        assert(a.drop_first().take(i - 1) == a.take(i).drop_first());
        assert(b.drop_first().take(i - 1) == b.take(i).drop_first());
        lemma_lex_skip(a.drop_first(), b.drop_first(), i - 1);
        assert(a.drop_first().skip(i - 1) == a.skip(i));
        assert(b.drop_first().skip(i - 1) == b.skip(i));
    } else {
        assert(a.skip(0) == a);
        assert(b.skip(0) == b);
    }
}

/// Whether `a` sorts strictly before `b`.
pub(crate) fn lex_less(a: &[char], b: &[char]) -> (res: bool)
    ensures
        res == lex_lt(a@, b@),
{
    let mut i: usize = 0;
    while i < a.len() && i < b.len() && a[i] == b[i]
        invariant
            i <= a@.len(),
            i <= b@.len(),
            a@.take(i as int) == b@.take(i as int),
        decreases a.len() - i,
    {
        assert(a@.take(i as int + 1) == a@.take(i as int).push(a@[i as int]));
        assert(b@.take(i as int + 1) == b@.take(i as int).push(b@[i as int]));
        i += 1;
    }
    proof {
        lemma_lex_skip(a@, b@, i as int);
    }
    if i == a.len() {
        i < b.len()
    } else if i == b.len() {
        false
    } else {
        proof {
            assert(a@.skip(i as int)[0] == a@[i as int]);
            assert(b@.skip(i as int)[0] == b@[i as int]);
        }
        (a[i] as u32) < (b[i] as u32)
    }
}

proof fn lemma_insert_at(
    ls: Seq<Seq<char>>,
    x: Seq<char>,
    key: spec_fn(Seq<char>) -> Seq<char>,
    p: int,
)
    requires
        0 <= p <= ls.len(),
        forall|j: int| 0 <= j < p ==> !lex_lt(key(x), #[trigger] key(ls[j])),
        p < ls.len() ==> lex_lt(key(x), key(ls[p])),
    ensures
        insert_by_key(ls, x, key) == ls.take(p).push(x) + ls.skip(p),
    decreases ls.len(),
{
    if ls.len() == 0 {
        assert(ls.take(p).push(x) + ls.skip(p) == seq![x]);
    } else if p == 0 {
        assert(ls.take(0).push(x) + ls.skip(0) == seq![x] + ls);
    } else {
        let t = ls.drop_first();
        assert forall|j: int| 0 <= j < p - 1 implies !lex_lt(key(x), #[trigger] key(t[j])) by {
            assert(t[j] == ls[j + 1]);
        }
        assert(!lex_lt(key(x), key(ls[0])));
        if p - 1 < t.len() {
            assert(t[p - 1] == ls[p]);
        }
        lemma_insert_at(t, x, key, p - 1);
        assert(seq![ls[0]] + (t.take(p - 1).push(x) + t.skip(p - 1)) == ls.take(p).push(x)
            + ls.skip(p));
    }
}

/// Sorts `lines` (whose sort keys are `keys`) stably by key.
fn sort_keyed(lines: &mut Vec<String>, keys: &Vec<Vec<char>>, key: Ghost<spec_fn(Seq<char>) -> Seq<char>>)
    requires
        keys@.len() == old(lines)@.len(),
        forall|i: int| 0 <= i < keys@.len() ==> #[trigger] keys@[i]@ == key@(old(lines)@[i]@),
    ensures
        strs_of(final(lines)@) == sort_by_key(strs_of(old(lines)@), key@),
{
    let ghost input = strs_of(lines@);
    let mut out: Vec<String> = Vec::new();
    let mut out_keys: Vec<Vec<char>> = Vec::new();
    let mut i: usize = 0;
    while i < lines.len()
        invariant
            i <= lines@.len(),
            keys@.len() == lines@.len(),
            input == strs_of(lines@),
            forall|k: int| 0 <= k < keys@.len() ==> #[trigger] keys@[k]@ == key@(lines@[k]@),
            strs_of(out@) == sort_by_key(input.take(i as int), key@),
            out_keys@.len() == out@.len(),
            forall|k: int| 0 <= k < out@.len() ==> #[trigger] out_keys@[k]@ == key@(out@[k]@),
        decreases lines.len() - i,
    {
        let kx = &keys[i];
        let mut p: usize = 0;
        while p < out.len() && !lex_less(kx.as_slice(), out_keys[p].as_slice())
            invariant
                p <= out@.len(),
                out_keys@.len() == out@.len(),
                kx@ == key@(input[i as int]),
                forall|k: int| 0 <= k < out@.len() ==> #[trigger] out_keys@[k]@ == key@(out@[k]@),
                forall|j: int|
                    0 <= j < p ==> !lex_lt(key@(input[i as int]), #[trigger] key@(strs_of(out@)[j])),
            decreases out.len() - p,
        {
            assert(strs_of(out@)[p as int] == out@[p as int]@);
            p += 1;
        }
        proof {
            let ls = strs_of(out@);
            if p < out@.len() {
                assert(ls[p as int] == out@[p as int]@);
            }
            lemma_insert_at(ls, input[i as int], key@, p as int);
            assert(input.take(i as int + 1).drop_last() == input.take(i as int));
            assert(input.take(i as int + 1).last() == input[i as int]);
        }
        let ghost old_out = out@;
        let ghost old_keys = out_keys@;
        out.insert(p, lines[i].clone());
        out_keys.insert(p, kx.clone());
        proof {
            assert(strs_of(out@) == strs_of(old_out).take(p as int).push(input[i as int]) + strs_of(
                old_out,
            ).skip(p as int));
            assert forall|k: int| 0 <= k < out@.len() implies #[trigger] out_keys@[k]@ == key@(
                out@[k]@,
            ) by {
                if k < p {
                    assert(out@[k] == old_out[k]);
                    assert(out_keys@[k] == old_keys[k]);
                } else if k > p {
                    assert(out@[k] == old_out[k - 1]);
                    assert(out_keys@[k] == old_keys[k - 1]);
                }
            }
        }
        i += 1;
    }
    proof {
        assert(input.take(lines@.len() as int) == input);
    }
    *lines = out;
}

// ---------------------------------------------------------------------------
// Specifications of the other operations
// ---------------------------------------------------------------------------

/// The lines that are not blank, in order.
pub open spec fn non_blank(ls: Seq<Seq<char>>) -> Seq<Seq<char>>
    decreases ls.len(),
{
    if ls.len() == 0 {
        seq![]
    } else if trim(ls.last()).len() == 0 {
        non_blank(ls.drop_last())
    } else {
        non_blank(ls.drop_last()).push(ls.last())
    }
}

/// The first occurrence of each distinct line, in order.
pub open spec fn first_occurrences(ls: Seq<Seq<char>>) -> Seq<Seq<char>>
    decreases ls.len(),
{
    if ls.len() == 0 {
        seq![]
    } else if first_occurrences(ls.drop_last()).contains(ls.last()) {
        first_occurrences(ls.drop_last())
    } else {
        first_occurrences(ls.drop_last()).push(ls.last())
    }
}

/// A list of lines that is never left empty: an empty list becomes a single
/// empty line.
pub open spec fn at_least_one(ls: Seq<Seq<char>>) -> Seq<Seq<char>> {
    if ls.len() == 0 {
        seq![Seq::<char>::empty()]
    } else {
        ls
    }
}

/// `ls` with `f` applied to each line.
pub open spec fn map_lines(ls: Seq<Seq<char>>, f: spec_fn(Seq<char>) -> Seq<char>) -> Seq<
    Seq<char>,
> {
    Seq::new(ls.len(), |i: int| f(ls[i]))
}

fn copy_string(s: &str) -> (res: String)
    ensures
        res@ == s@,
{
    let mut out = String::new();
    out.append(s);
    out
}

// ---------------------------------------------------------------------------
// Operations
// ---------------------------------------------------------------------------

/// Duplicates the line at `cursor_line` below itself; does nothing past the
/// last line.
pub fn duplicate_line(lines: &mut Vec<String>, cursor_line: usize)
    ensures
        strs_of(final(lines)@) == if cursor_line < old(lines)@.len() {
            strs_of(old(lines)@).insert(cursor_line + 1, old(lines)@[cursor_line as int]@)
        } else {
            strs_of(old(lines)@)
        },
{
    if cursor_line < lines.len() {
        let dup = lines[cursor_line].clone();
        let ghost prev = lines@;
        lines.insert(cursor_line + 1, dup);
        proof {
            assert(strs_of(lines@) == strs_of(prev).insert(cursor_line + 1, prev[cursor_line as int]@));
        }
    }
}

/// Deletes the line at `cursor_line`; the only line of a one-line document
/// is emptied instead, whatever `cursor_line` is.
pub fn delete_line(lines: &mut Vec<String>, cursor_line: usize)
    ensures
        strs_of(final(lines)@) == if cursor_line < old(lines)@.len() && old(lines)@.len() > 1 {
            strs_of(old(lines)@).remove(cursor_line as int)
        } else if old(lines)@.len() == 1 {
            seq![Seq::<char>::empty()]
        } else {
            strs_of(old(lines)@)
        },
{
    if cursor_line < lines.len() && lines.len() > 1 {
        let ghost prev = lines@;
        lines.remove(cursor_line);
        proof {
            assert(strs_of(lines@) == strs_of(prev).remove(cursor_line as int));
        }
    } else if lines.len() == 1 {
        lines.set(0, String::new());
        proof {
            assert(strs_of(lines@) == seq![Seq::<char>::empty()]);
        }
    }
}

fn swap_lines(lines: &mut Vec<String>, i: usize, j: usize)
    requires
        i < old(lines)@.len(),
        j < old(lines)@.len(),
    ensures
        strs_of(final(lines)@) == strs_of(old(lines)@).update(i as int, old(lines)@[j as int]@).update(
            j as int,
            old(lines)@[i as int]@,
        ),
{
    let a = lines[i].clone();
    let b = lines[j].clone();
    let ghost prev = lines@;
    lines.set(i, b);
    lines.set(j, a);
    proof {
        assert(strs_of(lines@) == strs_of(prev).update(i as int, prev[j as int]@).update(
            j as int,
            prev[i as int]@,
        ));
    }
}

/// Swaps the line at `cursor_line` with the one above it, if both exist.
pub fn move_line_up(lines: &mut Vec<String>, cursor_line: usize)
    ensures
        strs_of(final(lines)@) == if 0 < cursor_line < old(lines)@.len() {
            swapped(strs_of(old(lines)@), cursor_line as int, cursor_line - 1)
        } else {
            strs_of(old(lines)@)
        },
{
    if cursor_line > 0 && cursor_line < lines.len() {
        swap_lines(lines, cursor_line, cursor_line - 1);
    }
}

/// Swaps the line at `cursor_line` with the one below it, if both exist.
pub fn move_line_down(lines: &mut Vec<String>, cursor_line: usize)
    requires
        cursor_line < usize::MAX,
    ensures
        strs_of(final(lines)@) == if cursor_line + 1 < old(lines)@.len() {
            swapped(strs_of(old(lines)@), cursor_line as int, cursor_line + 1)
        } else {
            strs_of(old(lines)@)
        },
{
    if cursor_line + 1 < lines.len() {
        swap_lines(lines, cursor_line, cursor_line + 1);
    }
}

fn keys_of(lines: &Vec<String>, lower: bool) -> (res: Vec<Vec<char>>)
    ensures
        res@.len() == lines@.len(),
        forall|i: int|
            0 <= i < res@.len() ==> #[trigger] res@[i]@ == if lower {
                lowercase(lines@[i]@)
            } else {
                lines@[i]@
            },
{
    let mut res: Vec<Vec<char>> = Vec::new();
    let mut i: usize = 0;
    while i < lines.len()
        invariant
            i <= lines@.len(),
            res@.len() == i,
            forall|k: int|
                0 <= k < i ==> #[trigger] res@[k]@ == if lower {
                    lowercase(lines@[k]@)
                } else {
                    lines@[k]@
                },
        decreases lines.len() - i,
    {
        if lower {
            let l = to_lowercase(lines[i].as_str());
            res.push(str_chars(l.as_str()));
        } else {
            res.push(str_chars(lines[i].as_str()));
        }
        i += 1;
    }
    res
}

/// Sorts the lines in ascending order.
pub fn sort_asc(lines: &mut Vec<String>)
    ensures
        strs_of(final(lines)@) == sort_by_key(strs_of(old(lines)@), same_key()),
{
    let keys = keys_of(lines, false);
    sort_keyed(lines, &keys, Ghost(same_key()));
}

/// Sorts the lines in descending order: the ascending order, reversed.
pub fn sort_desc(lines: &mut Vec<String>)
    ensures
        strs_of(final(lines)@) == sort_by_key(strs_of(old(lines)@), same_key()).reverse(),
{
    sort_asc(lines);
    reverse_lines(lines);
}

/// Sorts the lines by their lower-case form, keeping the order of lines
/// whose lower-case forms are equal.
pub fn sort_case_insensitive(lines: &mut Vec<String>)
    ensures
        strs_of(final(lines)@) == sort_by_key(strs_of(old(lines)@), lower_key()),
{
    let keys = keys_of(lines, true);
    sort_keyed(lines, &keys, Ghost(lower_key()));
}

/// Removes blank lines; a document left with none gets one empty line.
pub fn remove_empty(lines: &mut Vec<String>)
    ensures
        strs_of(final(lines)@) == at_least_one(non_blank(strs_of(old(lines)@))),
{
    let ghost input = strs_of(lines@);
    let mut out: Vec<String> = Vec::new();
    let mut i: usize = 0;
    while i < lines.len()
        invariant
            i <= lines@.len(),
            input == strs_of(lines@),
            strs_of(out@) == non_blank(input.take(i as int)),
        decreases lines.len() - i,
    {
        proof {
            assert(input.take(i as int + 1).drop_last() == input.take(i as int));
        }
        let chars = str_chars(lines[i].as_str());
        if !is_blank(chars.as_slice()) {
            let ghost prev = out@;
            out.push(lines[i].clone());
            proof {
                assert(strs_of(out@) == strs_of(prev).push(input[i as int]));
            }
        }
        i += 1;
    }
    proof {
        assert(input.take(lines@.len() as int) == input);
    }
    if out.len() == 0 {
        out.push(String::new());
        proof {
            assert(strs_of(out@) == seq![Seq::<char>::empty()]);
        }
    }
    *lines = out;
}

/// Removes every line equal to an earlier one; a document left with none
/// gets one empty line.
pub fn remove_duplicates(lines: &mut Vec<String>)
    ensures
        strs_of(final(lines)@) == at_least_one(first_occurrences(strs_of(old(lines)@))),
{
    let ghost input = strs_of(lines@);
    let mut out: Vec<String> = Vec::new();
    let mut i: usize = 0;
    while i < lines.len()
        invariant
            i <= lines@.len(),
            input == strs_of(lines@),
            strs_of(out@) == first_occurrences(input.take(i as int)),
        decreases lines.len() - i,
    {
        proof {
            assert(input.take(i as int + 1).drop_last() == input.take(i as int));
        }
        let mut seen = false;
        let mut k: usize = 0;
        while k < out.len()
            invariant
                k <= out@.len(),
                i < lines@.len(),
                seen == exists|j: int| 0 <= j < k && strs_of(out@)[j] == lines@[i as int]@,
            decreases out.len() - k,
        {
            if out[k] == lines[i] {
                assert(strs_of(out@)[k as int] == lines@[i as int]@);
                seen = true;
            } else {
                assert(strs_of(out@)[k as int] != lines@[i as int]@);
            }
            k += 1;
        }
        proof {
            assert(input[i as int] == lines@[i as int]@);
            if seen {
                let j = choose|j: int| 0 <= j < out@.len() && strs_of(out@)[j] == lines@[i as int]@;
                assert(strs_of(out@).contains(input[i as int]));
            } else {
                assert(!strs_of(out@).contains(input[i as int]));
            }
        }
        if !seen {
            let ghost prev = out@;
            out.push(lines[i].clone());
            proof {
                assert(strs_of(out@) == strs_of(prev).push(input[i as int]));
            }
        }
        i += 1;
    }
    proof {
        assert(input.take(lines@.len() as int) == input);
    }
    if out.len() == 0 {
        out.push(String::new());
        proof {
            assert(strs_of(out@) == seq![Seq::<char>::empty()]);
        }
    }
    *lines = out;
}

/// Which trim a line gets: 0 the end, 1 the start, 2 both.
spec fn trimmed(s: Seq<char>, which: u8) -> Seq<char> {
    if which == 0 {
        trim_end(s)
    } else if which == 1 {
        trim_start(s)
    } else {
        trim(s)
    }
}

fn trim_all(lines: &mut Vec<String>, which: u8)
    ensures
        strs_of(final(lines)@) == map_lines(strs_of(old(lines)@), |s: Seq<char>| trimmed(s, which)),
{
    let ghost input = strs_of(lines@);
    let ghost f = |s: Seq<char>| trimmed(s, which);
    let mut out: Vec<String> = Vec::new();
    let mut i: usize = 0;
    while i < lines.len()
        invariant
            i <= lines@.len(),
            input == strs_of(lines@),
            f == (|s: Seq<char>| trimmed(s, which)),
            strs_of(out@) == map_lines(input.take(i as int), f),
        decreases lines.len() - i,
    {
        let chars = str_chars(lines[i].as_str());
        let t = if which == 0 {
            let n = trimmed_end_len(chars.as_slice());
            string_from_range(chars.as_slice(), 0, n)
        } else {
            let s = leading_ws_len(chars.as_slice());
            if which == 1 {
                string_from_range(chars.as_slice(), s, chars.len())
            } else {
                let rest = string_from_range(chars.as_slice(), s, chars.len());
                let rc = str_chars(rest.as_str());
                let n = trimmed_end_len(rc.as_slice());
                string_from_range(rc.as_slice(), 0, n)
            }
        };
        proof {
            assert(chars@.subrange(0, chars@.len() as int).skip(0) == chars@);
            assert(t@ == f(input[i as int]));
        }
        let ghost prev = out@;
        out.push(t);
        proof {
            assert(strs_of(out@) == strs_of(prev).push(f(input[i as int])));
            assert(map_lines(input.take(i as int + 1), f) == map_lines(input.take(i as int), f).push(
                f(input[i as int]),
            ));
        }
        i += 1;
    }
    proof {
        assert(input.take(lines@.len() as int) == input);
    }
    *lines = out;
}

/// Removes trailing whitespace from every line.
pub fn trim_trailing(lines: &mut Vec<String>)
    ensures
        strs_of(final(lines)@) == map_lines(strs_of(old(lines)@), |s: Seq<char>| trim_end(s)),
{
    trim_all(lines, 0);
    proof {
        assert(map_lines(strs_of(old(lines)@), |s: Seq<char>| trimmed(s, 0)) == map_lines(
            strs_of(old(lines)@),
            |s: Seq<char>| trim_end(s),
        ));
    }
}

/// Removes leading whitespace from every line.
pub fn trim_leading(lines: &mut Vec<String>)
    ensures
        strs_of(final(lines)@) == map_lines(strs_of(old(lines)@), |s: Seq<char>| trim_start(s)),
{
    trim_all(lines, 1);
    proof {
        assert(map_lines(strs_of(old(lines)@), |s: Seq<char>| trimmed(s, 1)) == map_lines(
            strs_of(old(lines)@),
            |s: Seq<char>| trim_start(s),
        ));
    }
}

/// Removes leading and trailing whitespace from every line.
pub fn trim_both(lines: &mut Vec<String>)
    ensures
        strs_of(final(lines)@) == map_lines(strs_of(old(lines)@), |s: Seq<char>| trim(s)),
{
    trim_all(lines, 2);
    proof {
        assert(map_lines(strs_of(old(lines)@), |s: Seq<char>| trimmed(s, 2)) == map_lines(
            strs_of(old(lines)@),
            |s: Seq<char>| trim(s),
        ));
    }
}

/// Appends the next line to the line at `cursor_line`, when there is one.
pub fn join_lines(lines: &mut Vec<String>, cursor_line: usize)
    ensures
        strs_of(final(lines)@) == if cursor_line + 1 < old(lines)@.len() {
            strs_of(old(lines)@).update(
                cursor_line as int,
                old(lines)@[cursor_line as int]@ + old(lines)@[cursor_line + 1]@,
            ).remove(cursor_line + 1)
        } else {
            strs_of(old(lines)@)
        },
{
    let n = lines.len();
    let last = if n > 0 {
        n - 1
    } else {
        0
    };
    if cursor_line < last {
        let ghost prev = lines@;
        let next = lines.remove(cursor_line + 1);
        let mut cur = lines[cursor_line].clone();
        cur.append(next.as_str());
        lines.set(cursor_line, cur);
        proof {
            assert(strs_of(lines@) == strs_of(prev).update(
                cursor_line as int,
                prev[cursor_line as int]@ + prev[cursor_line + 1]@,
            ).remove(cursor_line + 1));
        }
    }
}

/// Splits the line at `cursor_line` at the middle of its bytes; the second
/// half becomes a new line below. Does nothing past the last line.
pub fn split_line(lines: &mut Vec<String>, cursor_line: usize)
    requires
        cursor_line < old(lines)@.len() ==> boundary(
            bytes_of(old(lines)@[cursor_line as int]@),
            (bytes_of(old(lines)@[cursor_line as int]@).len() / 2) as int,
        ),
    ensures
        cursor_line < old(lines)@.len() ==> {
            let b = bytes_of(old(lines)@[cursor_line as int]@);
            let mid = b.len() / 2;
            &&& final(lines)@.len() == old(lines)@.len() + 1
            &&& forall|k: int|
                0 <= k < cursor_line ==> #[trigger] final(lines)@[k]@ == old(lines)@[k]@
            &&& bytes_of(final(lines)@[cursor_line as int]@) == b.take(mid as int)
            &&& bytes_of(final(lines)@[cursor_line + 1]@) == b.skip(mid as int)
            &&& forall|k: int|
                cursor_line < k < old(lines)@.len() ==> #[trigger] final(lines)@[k + 1]@ == old(
                    lines,
                )@[k]@
        },
        cursor_line >= old(lines)@.len() ==> final(lines)@ == old(lines)@,
{
    if cursor_line < lines.len() {
        let current = lines[cursor_line].clone();
        let cs = current.as_str();
        let mid = cs.as_bytes().len() / 2;
        proof {
            assert(cs@ == lines@[cursor_line as int]@);
            lemma_boundary_iff(cs@, mid as int);
        }
        let (left, right) = cs.split_at(mid);
        let l = copy_string(left);
        let r = copy_string(right);
        lines.set(cursor_line, l);
        lines.insert(cursor_line + 1, r);
    }
}

/// Inserts an empty line at `cursor_line`.
pub fn insert_above(lines: &mut Vec<String>, cursor_line: usize)
    requires
        cursor_line <= old(lines)@.len(),
    ensures
        strs_of(final(lines)@) == strs_of(old(lines)@).insert(cursor_line as int, Seq::empty()),
{
    let ghost prev = lines@;
    lines.insert(cursor_line, String::new());
    proof {
        assert(strs_of(lines@) == strs_of(prev).insert(cursor_line as int, Seq::empty()));
    }
}

/// Inserts an empty line below `cursor_line`.
pub fn insert_below(lines: &mut Vec<String>, cursor_line: usize)
    requires
        cursor_line < old(lines)@.len(),
    ensures
        strs_of(final(lines)@) == strs_of(old(lines)@).insert(cursor_line + 1, Seq::empty()),
{
    let ghost prev = lines@;
    let n = lines.len();
    assert(cursor_line + 1 <= n);
    lines.insert(cursor_line + 1, String::new());
    proof {
        assert(strs_of(lines@) == strs_of(prev).insert(cursor_line + 1, Seq::empty()));
    }
}

/// Reverses the order of the lines.
pub fn reverse_lines(lines: &mut Vec<String>)
    ensures
        strs_of(final(lines)@) == strs_of(old(lines)@).reverse(),
{
    let ghost input = strs_of(lines@);
    let mut out: Vec<String> = Vec::new();
    let mut i: usize = lines.len();
    while i > 0
        invariant
            i <= lines@.len(),
            input == strs_of(lines@),
            strs_of(out@) == input.skip(i as int).reverse(),
        decreases i,
    {
        i -= 1;
        let ghost prev = out@;
        out.push(lines[i].clone());
        proof {
            assert(strs_of(out@) == strs_of(prev).push(input[i as int]));
            assert(input.skip(i as int).reverse() == input.skip(i as int + 1).reverse().push(
                input[i as int],
            ));
        }
    }
    proof {
        assert(input.skip(0) == input);
    }
    *lines = out;
}

// ---------------------------------------------------------------------------
// Laws
// ---------------------------------------------------------------------------

proof fn lemma_lex_trans(a: Seq<char>, b: Seq<char>, c: Seq<char>)
    requires
        lex_lt(a, b),
        lex_lt(b, c),
    ensures
        lex_lt(a, c),
    decreases a.len(),
{
    if a.len() > 0 && b.len() > 0 && c.len() > 0 && a[0] == b[0] && b[0] == c[0] {
        lemma_lex_trans(a.drop_first(), b.drop_first(), c.drop_first());
    }
}

proof fn lemma_lex_irrefl(a: Seq<char>)
    ensures
        !lex_lt(a, a),
    decreases a.len(),
{
    if a.len() > 0 {
        lemma_lex_irrefl(a.drop_first());
    }
}

proof fn lemma_insert_pos(ls: Seq<Seq<char>>, x: Seq<char>, key: spec_fn(Seq<char>) -> Seq<char>) -> (p: int)
    ensures
        0 <= p <= ls.len(),
        insert_by_key(ls, x, key) == ls.insert(p, x),
    decreases ls.len(),
{
    if ls.len() == 0 {
        assert(ls.insert(0, x) =~= seq![x]);
        0
    } else if lex_lt(key(x), key(ls[0])) {
        assert(ls.insert(0, x) =~= seq![x] + ls);
        0
    } else {
        let q = lemma_insert_pos(ls.drop_first(), x, key);
        assert(seq![ls[0]] + ls.drop_first().insert(q, x) =~= ls.insert(q + 1, x));
        q + 1
    }
}

/// Whether the lines are in order of their keys.
pub open spec fn sorted_by(ls: Seq<Seq<char>>, key: spec_fn(Seq<char>) -> Seq<char>) -> bool {
    forall|i: int, j: int|
        0 <= i < j < ls.len() ==> lex_le(key(#[trigger] ls[i]), key(#[trigger] ls[j]))
}

proof fn lemma_insert_sorted(ls: Seq<Seq<char>>, x: Seq<char>, key: spec_fn(Seq<char>) -> Seq<char>)
    requires
        sorted_by(ls, key),
    ensures
        sorted_by(insert_by_key(ls, x, key), key),
    decreases ls.len(),
{
    if ls.len() == 0 {
    } else if lex_lt(key(x), key(ls[0])) {
        let out = seq![x] + ls;
        assert forall|i: int, j: int| 0 <= i < j < out.len() implies lex_le(
            key(#[trigger] out[i]),
            key(#[trigger] out[j]),
        ) by {
            if i == 0 {
                assert(out[0] == x);
                assert(out[j] == ls[j - 1]);
                if j - 1 > 0 {
                    assert(lex_le(key(ls[0]), key(ls[j - 1])));
                }
                lemma_lex_irrefl(key(ls[0]));
                if lex_lt(key(ls[j - 1]), key(x)) {
                    lemma_lex_trans(key(ls[j - 1]), key(x), key(ls[0]));
                }
            } else {
                assert(out[i] == ls[i - 1]);
                assert(out[j] == ls[j - 1]);
            }
        }
    } else {
        let t = ls.drop_first();
        assert forall|i: int, j: int| 0 <= i < j < t.len() implies lex_le(
            key(#[trigger] t[i]),
            key(#[trigger] t[j]),
        ) by {
            assert(t[i] == ls[i + 1]);
            assert(t[j] == ls[j + 1]);
        }
        lemma_insert_sorted(t, x, key);
        let ins = insert_by_key(t, x, key);
        let q = lemma_insert_pos(t, x, key);
        let out = seq![ls[0]] + ins;
        assert forall|i: int, j: int| 0 <= i < j < out.len() implies lex_le(
            key(#[trigger] out[i]),
            key(#[trigger] out[j]),
        ) by {
            if i == 0 {
                assert(out[j] == ins[j - 1]);
                if j - 1 == q {
                    assert(ins[j - 1] == x);
                } else if j - 1 < q {
                    assert(ins[j - 1] == t[j - 1]);
                    assert(t[j - 1] == ls[j]);
                } else {
                    assert(ins[j - 1] == t[j - 2]);
                    assert(t[j - 2] == ls[j - 1]);
                }
            } else {
                assert(out[i] == ins[i - 1]);
                assert(out[j] == ins[j - 1]);
            }
        }
    }
}

/// Sorting by a key gives the lines in order of their keys.
pub proof fn law_sort_sorted(ls: Seq<Seq<char>>, key: spec_fn(Seq<char>) -> Seq<char>)
    ensures
        sorted_by(sort_by_key(ls, key), key),
    decreases ls.len(),
{
    if ls.len() > 0 {
        law_sort_sorted(ls.drop_last(), key);
        lemma_insert_sorted(sort_by_key(ls.drop_last(), key), ls.last(), key);
    }
}

/// Sorting by a key keeps every line, as often as it occurs.
pub proof fn law_sort_permutes(ls: Seq<Seq<char>>, key: spec_fn(Seq<char>) -> Seq<char>)
    ensures
        sort_by_key(ls, key).to_multiset() == ls.to_multiset(),
    decreases ls.len(),
{
    broadcast use vstd::seq_lib::group_to_multiset_ensures;

    if ls.len() == 0 {
        assert(sort_by_key(ls, key) =~= ls);
    } else {
        law_sort_permutes(ls.drop_last(), key);
        let p = lemma_insert_pos(sort_by_key(ls.drop_last(), key), ls.last(), key);
        vstd::seq_lib::to_multiset_insert(sort_by_key(ls.drop_last(), key), p, ls.last());
        assert(ls.drop_last().push(ls.last()) =~= ls);
    }
}

/// Removing duplicate lines leaves each line once, and every line that was
/// there still is.
pub proof fn law_first_occurrences(ls: Seq<Seq<char>>)
    ensures
        first_occurrences(ls).no_duplicates(),
        forall|l: Seq<char>| ls.contains(l) <==> #[trigger] first_occurrences(ls).contains(l),
    decreases ls.len(),
{
    if ls.len() > 0 {
        let init = ls.drop_last();
        let last = ls.last();
        law_first_occurrences(init);
        let d = first_occurrences(init);
        let f = first_occurrences(ls);
        if !d.contains(last) {
            assert(f == d.push(last));
            assert forall|i: int, j: int| 0 <= i < j < f.len() implies f[i] != f[j] by {
                if j == f.len() - 1 {
                    assert(f[j] == last);
                    assert(f[i] == d[i]);
                } else {
                    assert(f[i] == d[i] && f[j] == d[j]);
                }
            }
        }
        assert forall|l: Seq<char>| ls.contains(l) <==> #[trigger] f.contains(l) by {
            if ls.contains(l) {
                let k = choose|k: int| 0 <= k < ls.len() && ls[k] == l;
                if k < ls.len() - 1 {
                    assert(init[k] == l);
                    assert(init.contains(l));
                    assert(d.contains(l));
                    let m = choose|m: int| 0 <= m < d.len() && d[m] == l;
                    if !d.contains(last) {
                        assert(f[m] == l);
                    }
                } else if !d.contains(last) {
                    assert(f[d.len() as int] == l);
                }
            }
            if f.contains(l) {
                let m = choose|m: int| 0 <= m < f.len() && f[m] == l;
                if m < d.len() {
                    assert(d[m] == l);
                    assert(d.contains(l));
                    assert(init.contains(l));
                    let k = choose|k: int| 0 <= k < init.len() && init[k] == l;
                    assert(ls[k] == l);
                } else {
                    assert(l == last);
                    assert(ls[ls.len() - 1] == l);
                }
            }
        }
    }
}

/// The two lines swapped.
pub open spec fn swapped(ls: Seq<Seq<char>>, i: int, j: int) -> Seq<Seq<char>> {
    ls.update(i, ls[j]).update(j, ls[i])
}

/// Swapping the same two lines twice leaves the lines as they were: moving
/// a line down undoes moving the line below it up.
pub proof fn law_swap_twice(ls: Seq<Seq<char>>, i: int, j: int)
    requires
        0 <= i < ls.len(),
        0 <= j < ls.len(),
    ensures
        swapped(swapped(ls, i, j), i, j) == ls,
{
    assert(swapped(swapped(ls, i, j), i, j) =~= ls);
}

/// Deleting the copy that duplicating a line made leaves the lines as they
/// were.
pub proof fn law_duplicate_then_delete(ls: Seq<Seq<char>>, c: int)
    requires
        0 <= c < ls.len(),
    ensures
        ls.insert(c + 1, ls[c]).remove(c + 1) == ls,
{
    assert(ls.insert(c + 1, ls[c]).remove(c + 1) =~= ls);
}

/// Reversing the lines twice leaves them as they were.
pub proof fn law_reverse_twice(ls: Seq<Seq<char>>)
    ensures
        ls.reverse().reverse() == ls,
{
    assert(ls.reverse().reverse() =~= ls);
}

} // verus!
