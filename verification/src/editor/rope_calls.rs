//! The calls into `ropey` that the text buffer makes.
//!
//! A rope's contents are named (`rope_chars`), and each call states what it
//! does to them or reads from them, as ropey documents it, lines included:
//! ropey counts the Unicode line breaks of its default `unicode_lines`
//! feature (`is_line_break`), a CRLF as one.
use vstd::prelude::*;
use crate::bytes::bytes_of;
use ropey::Rope;

verus! {

#[verifier::external_type_specification]
#[verifier::external_body]
pub struct ExRope(Rope);

/// The characters a rope holds.
pub uninterp spec fn rope_chars(r: Rope) -> Seq<char>;

/// Whether ropey takes a char for a line break (with its default
/// `unicode_lines` feature): LF, VT, FF, CR, NEL, LS or PS.
pub open spec fn is_line_break(c: char) -> bool {
    c == '\n' || c == '\u{0B}' || c == '\u{0C}' || c == '\r' || c == '\u{85}' || c == '\u{2028}'
        || c == '\u{2029}'
}

/// Where the line breaks of `s` from char `i` on end, in order: just after
/// each break, a CR followed by an LF being one break.
pub open spec fn break_ends_from(s: Seq<char>, i: int) -> Seq<int>
    decreases s.len() - i,
{
    if i < 0 || i >= s.len() {
        seq![]
    } else if s[i] == '\r' && i + 1 < s.len() && s[i + 1] == '\n' {
        seq![i + 2] + break_ends_from(s, i + 2)
    } else if is_line_break(s[i]) {
        seq![i + 1] + break_ends_from(s, i + 1)
    } else {
        break_ends_from(s, i + 1)
    }
}

/// Where the line breaks of a text end, in order.
pub open spec fn break_ends(s: Seq<char>) -> Seq<int> {
    break_ends_from(s, 0)
}

/// `Rope::len_lines` for a text: its line breaks plus one.
pub open spec fn rope_line_count(s: Seq<char>) -> nat {
    break_ends(s).len() + 1
}

/// `Rope::line_to_char` for a text: where line `l` starts, the end of the
/// text for one past the last line.
pub open spec fn rope_line_start(s: Seq<char>, l: nat) -> nat {
    if l == 0 {
        0
    } else if l - 1 < break_ends(s).len() {
        break_ends(s)[l - 1] as nat
    } else {
        s.len()
    }
}

/// `Rope::line` for a text: line `l` with its line break.
pub open spec fn rope_line(s: Seq<char>, l: nat) -> Seq<char> {
    s.subrange(rope_line_start(s, l) as int, rope_line_start(s, l + 1) as int)
}

/// How many of the ends `e` are at or before `c`.
pub open spec fn ends_upto(e: Seq<int>, c: int) -> nat
    decreases e.len(),
{
    if e.len() == 0 {
        0
    } else {
        ends_upto(e.drop_last(), c) + if e.last() <= c {
            1nat
        } else {
            0nat
        }
    }
}

/// `Rope::char_to_line` for a text: the line that char `c` is on, the
/// number of line breaks that end at or before it.
pub open spec fn rope_line_of_char(s: Seq<char>, c: nat) -> nat {
    ends_upto(break_ends(s), c as int)
}

/// The index of the char that byte `byte` of the text's UTF-8 encoding
/// belongs to; the number of chars for the end of the text.
pub open spec fn char_of_byte(s: Seq<char>, byte: int) -> int
    decreases s.len(),
{
    if s.len() == 0 {
        0
    } else {
        let w = bytes_of(seq![s[0]]).len() as int;
        if byte < w {
            0
        } else {
            1 + char_of_byte(s.drop_first(), byte - w)
        }
    }
}

/// `Rope::new`: an empty rope.
#[verifier::external_body]
pub fn rope_new() -> (res: Rope)
    ensures
        rope_chars(res) == Seq::<char>::empty(),
{
    Rope::new()
}

/// `Rope::from_str`: a rope holding the text.
#[verifier::external_body]
pub fn rope_from_str(text: &str) -> (res: Rope)
    ensures
        rope_chars(res) == text@,
{
    Rope::from_str(text)
}

/// `Rope::byte_to_char`: the index of the char that the byte belongs to.
/// It panics past the end.
#[verifier::external_body]
pub fn rope_byte_to_char(r: &Rope, byte_idx: usize) -> (res: usize)
    requires
        byte_idx <= bytes_of(rope_chars(*r)).len(),
    ensures
        res == char_of_byte(rope_chars(*r), byte_idx as int),
{
    r.byte_to_char(byte_idx)
}

/// `Rope::char_to_byte`: the byte offset where the char starts. It panics
/// past the end.
#[verifier::external_body]
pub fn rope_char_to_byte(r: &Rope, char_idx: usize) -> (res: usize)
    requires
        char_idx <= rope_chars(*r).len(),
    ensures
        res == bytes_of(rope_chars(*r).take(char_idx as int)).len(),
{
    r.char_to_byte(char_idx)
}

/// `Rope::insert`: the text inserted before char `char_idx`. It panics
/// past the end.
#[verifier::external_body]
pub fn rope_insert(r: &mut Rope, char_idx: usize, text: &str)
    requires
        char_idx <= rope_chars(*old(r)).len(),
    ensures
        rope_chars(*final(r)) == rope_chars(*old(r)).take(char_idx as int) + text@ + rope_chars(
            *old(r),
        ).skip(char_idx as int),
{
    r.insert(char_idx, text)
}

/// `Rope::remove`: the chars `start..end` removed. It panics on a reversed
/// or out-of-bounds range.
#[verifier::external_body]
pub fn rope_remove(r: &mut Rope, start: usize, end: usize)
    requires
        start <= end <= rope_chars(*old(r)).len(),
    ensures
        rope_chars(*final(r)) == rope_chars(*old(r)).take(start as int) + rope_chars(*old(r)).skip(
            end as int,
        ),
{
    r.remove(start..end)
}

/// `Rope::slice` collected into a string: the chars `start..end`. It
/// panics on a reversed or out-of-bounds range.
#[verifier::external_body]
pub fn rope_slice_string(r: &Rope, start: usize, end: usize) -> (res: String)
    requires
        start <= end <= rope_chars(*r).len(),
    ensures
        res@ == rope_chars(*r).subrange(start as int, end as int),
{
    r.slice(start..end).into()
}

/// `Rope::byte_slice` collected into a string: the bytes `start..end`,
/// which must lie on char boundaries.
#[verifier::external_body]
pub fn rope_byte_slice_string(r: &Rope, start: usize, end: usize) -> (res: String)
    requires
        start <= end <= bytes_of(rope_chars(*r)).len(),
        crate::bytes::boundary(bytes_of(rope_chars(*r)), start as int),
        crate::bytes::boundary(bytes_of(rope_chars(*r)), end as int),
    ensures
        bytes_of(res@) == bytes_of(rope_chars(*r)).subrange(start as int, end as int),
{
    r.byte_slice(start..end).to_string()
}

/// The rope's text (`ToString`).
#[verifier::external_body]
pub fn rope_to_string(r: &Rope) -> (res: String)
    ensures
        res@ == rope_chars(*r),
{
    r.to_string()
}

/// `Rope::len_bytes`: the length of the UTF-8 encoding.
#[verifier::external_body]
pub fn rope_len_bytes(r: &Rope) -> (res: usize)
    ensures
        res == bytes_of(rope_chars(*r)).len(),
{
    r.len_bytes()
}

/// `Rope::len_chars`: the number of chars.
#[verifier::external_body]
pub fn rope_len_chars(r: &Rope) -> (res: usize)
    ensures
        res == rope_chars(*r).len(),
{
    r.len_chars()
}

/// `Rope::char`: the char at an index. It panics past the last char.
#[verifier::external_body]
pub fn rope_char(r: &Rope, char_idx: usize) -> (res: char)
    requires
        char_idx < rope_chars(*r).len(),
    ensures
        res == rope_chars(*r)[char_idx as int],
{
    r.char(char_idx)
}

/// `Rope::len_lines`: the number of line breaks plus one (see
/// `rope_line_count`).
#[verifier::external_body]
pub fn rope_len_lines(r: &Rope) -> (res: usize)
    ensures
        res == rope_line_count(rope_chars(*r)),
        res >= 1,
{
    r.len_lines()
}

/// `Rope::line` collected into a string: line `l` with its line break.
/// It panics past the last line.
#[verifier::external_body]
pub fn rope_line_string(r: &Rope, l: usize) -> (res: String)
    requires
        l < rope_line_count(rope_chars(*r)),
    ensures
        res@ == rope_line(rope_chars(*r), l as nat),
{
    r.line(l).to_string()
}

/// `RopeSlice::len_chars` of `Rope::line`: the number of chars of line
/// `l`, its line break included. It panics past the last line.
#[verifier::external_body]
pub fn rope_line_len_chars(r: &Rope, l: usize) -> (res: usize)
    requires
        l < rope_line_count(rope_chars(*r)),
    ensures
        res == rope_line(rope_chars(*r), l as nat).len(),
{
    r.line(l).len_chars()
}

/// `Rope::line_to_char`: where line `l` starts. A line lies inside the
/// text. It panics past one after the last line.
#[verifier::external_body]
pub fn rope_line_to_char(r: &Rope, l: usize) -> (res: usize)
    requires
        l <= rope_line_count(rope_chars(*r)),
    ensures
        res == rope_line_start(rope_chars(*r), l as nat),
        res <= rope_chars(*r).len(),
        l < rope_line_count(rope_chars(*r)) ==> res + rope_line(rope_chars(*r), l as nat).len()
            <= rope_chars(*r).len(),
{
    r.line_to_char(l)
}

/// `Rope::char_to_line`: the line a char is on, which starts at or before
/// it. It panics past the end.
#[verifier::external_body]
pub fn rope_char_to_line(r: &Rope, char_idx: usize) -> (res: usize)
    requires
        char_idx <= rope_chars(*r).len(),
    ensures
        res == rope_line_of_char(rope_chars(*r), char_idx as nat),
        res < rope_line_count(rope_chars(*r)),
        rope_line_start(rope_chars(*r), res as nat) <= char_idx,
{
    r.char_to_line(char_idx)
}

} // verus!
