//! Byte-level view of UTF-8 text: character boundaries, substring search and
//! in-place edits of a `String` at byte offsets.
use vstd::prelude::*;
use vstd::utf8::{
    decode_utf8, valid_utf8,
    encode_utf8, encode_utf8_valid_utf8, is_char_boundary, is_char_boundary_iff_not_is_continuation_byte,
    is_char_boundary_start_end_of_seq,
};

verus! {

/// The UTF-8 bytes of a text.
pub open spec fn bytes_of(s: Seq<char>) -> Seq<u8> {
    encode_utf8(s)
}

/// Whether byte `b` continues a multi-byte UTF-8 sequence.
pub open spec fn is_cont(b: u8) -> bool {
    0x80 <= b < 0xC0
}

/// `str::is_char_boundary`: the start, the end, or an in-bounds index whose
/// byte does not continue a multi-byte sequence.
pub open spec fn boundary(b: Seq<u8>, i: int) -> bool {
    i == 0 || i == b.len() || (0 < i < b.len() && !is_cont(b[i]))
}

/// Whether `p` occurs in `b` at byte index `i`.
pub open spec fn occurs_at(b: Seq<u8>, p: Seq<u8>, i: int) -> bool {
    0 <= i && i + p.len() <= b.len() && b.subrange(i, i + p.len()) == p
}

/// The first index `i` in `[from, to - p.len()]` at which `p` occurs inside
/// `b[..to]`, if any.
pub open spec fn first_occ(b: Seq<u8>, p: Seq<u8>, from: int, to: int) -> Option<int>
    decreases to - from,
{
    if from < 0 || from + p.len() > to || to > b.len() {
        None
    } else if occurs_at(b, p, from) {
        Some(from)
    } else if from >= to {
        None
    } else {
        first_occ(b, p, from + 1, to)
    }
}

pub proof fn lemma_first_occ(b: Seq<u8>, p: Seq<u8>, from: int, to: int)
    requires
        0 <= from,
        to <= b.len(),
    ensures
        match first_occ(b, p, from, to) {
            Some(i) => from <= i && i + p.len() <= to && occurs_at(b, p, i) && forall|j: int|
                from <= j < i ==> !occurs_at(b, p, j),
            None => forall|j: int| from <= j && j + p.len() <= to ==> !occurs_at(b, p, j),
        },
    decreases to - from,
{
    if from + p.len() > to {
    } else if occurs_at(b, p, from) {
    } else if from >= to {
        assert(b.subrange(from, from + p.len()) =~= p);
    } else {
        lemma_first_occ(b, p, from + 1, to);
    }
}

/// `boundary` agrees with the character boundaries of vstd's UTF-8 model.
pub proof fn lemma_boundary_iff(s: Seq<char>, i: int)
    requires
        0 <= i <= bytes_of(s).len(),
    ensures
        boundary(bytes_of(s), i) <==> is_char_boundary(bytes_of(s), i),
{
    let b = bytes_of(s);
    encode_utf8_valid_utf8(s);
    is_char_boundary_start_end_of_seq(b);
    if 0 < i < b.len() {
        is_char_boundary_iff_not_is_continuation_byte(b, i);
    }
}

/// The bytes of a concatenation are the concatenated bytes.
pub proof fn lemma_bytes_concat(a: Seq<char>, b: Seq<char>)
    ensures
        bytes_of(a + b) == bytes_of(a) + bytes_of(b),
    decreases a.len(),
{
    if a.len() > 0 {
        lemma_bytes_concat(a.drop_first(), b);
        assert((a + b).drop_first() == a.drop_first() + b);
        assert((a + b)[0] == a[0]);
    } else {
        assert(a + b == b);
    }
}

pub proof fn lemma_bytes_len(s: Seq<char>)
    ensures
        bytes_of(s).len() >= s.len(),
        s.len() == 0 <==> bytes_of(s).len() == 0,
    decreases s.len(),
{
    if s.len() > 0 {
        lemma_bytes_len(s.drop_first());
    }
}

pub proof fn lemma_empty_str_bytes()
    ensures
        ""@ == Seq::<char>::empty(),
        bytes_of(""@) == Seq::<u8>::empty(),
{
    reveal_strlit("");
    lemma_bytes_len(""@);
}

/// `str::is_char_boundary` on the bytes of a text.
pub fn is_boundary(b: &[u8], i: usize) -> (res: bool)
    ensures
        res == boundary(b@, i as int),
{
    if i == 0 {
        true
    } else if i < b.len() {
        !(0x80 <= b[i] && b[i] < 0xC0)
    } else {
        i == b.len()
    }
}

/// Whether `p` occurs in `b` at index `i`.
pub fn bytes_occur_at(b: &[u8], p: &[u8], i: usize) -> (res: bool)
    ensures
        res == occurs_at(b@, p@, i as int),
{
    if i > b.len() || p.len() > b.len() - i {
        return false;
    }
    let mut k: usize = 0;
    while k < p.len()
        invariant
            k <= p@.len(),
            p.len() <= b.len() - i,
            i <= b.len(),
            forall|t: int| 0 <= t < k ==> b@[i + t] == p@[t],
        decreases p.len() - k,
    {
        assert(i + k < b.len());
        if b[i + k] != p[k] {
            assert(b@.subrange(i as int, i + p@.len())[k as int] != p@[k as int]);
            return false;
        }
        k += 1;
    }
    assert(b@.subrange(i as int, i + p@.len()) == p@);
    true
}

/// The first occurrence of `p` in `b[from..to]`.
pub fn find_bytes(b: &[u8], p: &[u8], from: usize, to: usize) -> (res: Option<usize>)
    requires
        to <= b@.len(),
    ensures
        res == (match first_occ(b@, p@, from as int, to as int) {
            Some(i) => Some(i as usize),
            None => None::<usize>,
        }),
{
    if from > to {
        return None;
    }
    let mut i = from;
    while p.len() <= to - i
        invariant
            from <= i <= to,
            to <= b@.len(),
            first_occ(b@, p@, from as int, to as int) == first_occ(b@, p@, i as int, to as int),
        decreases to - i,
    {
        if bytes_occur_at(b, p, i) {
            return Some(i);
        }
        if i == to {
            assert(b@.subrange(i as int, i as int) =~= p@);
            return None;
        }
        i += 1;
    }
    None
}

/// The text of bytes `a..e` of `s`, both character boundaries.
pub fn str_byte_range(s: &str, a: usize, e: usize) -> (res: String)
    requires
        a <= e <= bytes_of(s@).len(),
        boundary(bytes_of(s@), a as int),
        boundary(bytes_of(s@), e as int),
    ensures
        bytes_of(res@) == bytes_of(s@).subrange(a as int, e as int),
{
    proof {
        lemma_boundary_iff(s@, a as int);
    }
    let (_, tail) = s.split_at(a);
    let ghost tb = bytes_of(tail@);
    proof {
        assert(tb == bytes_of(s@).subrange(a as int, bytes_of(s@).len() as int));
        assert(boundary(tb, (e - a) as int)) by {
            if 0 < e - a < tb.len() {
                assert(tb[(e - a) as int] == bytes_of(s@)[e as int]);
            }
        }
        lemma_boundary_iff(tail@, (e - a) as int);
    }
    let (mid, _) = tail.split_at(e - a);
    proof {
        assert(bytes_of(mid@) == bytes_of(s@).subrange(a as int, e as int));
    }
    let mut out = String::new();
    out.append(mid);
    out
}

/// Replaces the bytes `start..end` of a string (`String::replace_range`).
#[verifier::external_body]
pub fn string_replace_range(s: &mut String, start: usize, end: usize, with: &str)
    requires
        start <= end <= bytes_of(old(s)@).len(),
        boundary(bytes_of(old(s)@), start as int),
        boundary(bytes_of(old(s)@), end as int),
        bytes_of(old(s)@).len() + bytes_of(with@).len() <= isize::MAX,
    ensures
        bytes_of(final(s)@) == bytes_of(old(s)@).take(start as int) + bytes_of(with@) + bytes_of(
            old(s)@,
        ).skip(end as int),
{
    s.replace_range(start..end, with);
}

/// Inserts a string slice at byte index `idx` (`String::insert_str`).
#[verifier::external_body]
pub fn string_insert_str(s: &mut String, idx: usize, with: &str)
    requires
        idx <= bytes_of(old(s)@).len(),
        boundary(bytes_of(old(s)@), idx as int),
        bytes_of(old(s)@).len() + bytes_of(with@).len() <= isize::MAX,
    ensures
        bytes_of(final(s)@) == bytes_of(old(s)@).take(idx as int) + bytes_of(with@) + bytes_of(
            old(s)@,
        ).skip(idx as int),
{
    s.insert_str(idx, with);
}

// ---------------------------------------------------------------------------
// Bytes to text
// ---------------------------------------------------------------------------

/// The message `FromUtf8Error` displays for invalid bytes (where the valid
/// prefix ends and how long the bad sequence is); named.
pub uninterp spec fn utf8_error_message(b: Seq<u8>) -> Seq<char>;

/// `String::from_utf8`: the text of valid UTF-8 bytes, else the error's
/// message.
#[verifier::external_body]
pub(crate) fn string_from_utf8(b: Vec<u8>) -> (res: Result<String, String>)
    ensures
        match res {
            Ok(t) => valid_utf8(b@) && t@ == decode_utf8(b@),
            Err(m) => !valid_utf8(b@) && m@ == utf8_error_message(b@),
        },
{
    match String::from_utf8(b) {
        Ok(t) => Ok(t),
        Err(e) => Err(e.to_string()),
    }
}

/// `String::from_utf8_lossy`: the text of some bytes, each invalid sequence
/// replaced by U+FFFD. Which bytes form an invalid sequence takes the UTF-8
/// grammar to say, so the text is named.
pub uninterp spec fn utf8_lossy(b: Seq<u8>) -> Seq<char>;

/// `String::from_utf8_lossy`, owned: the named text of the bytes, which for
/// valid UTF-8 is the decoded text.
#[verifier::external_body]
pub(crate) fn string_from_utf8_lossy(b: &[u8]) -> (res: String)
    ensures
        res@ == utf8_lossy(b@),
        valid_utf8(b@) ==> res@ == decode_utf8(b@),
{
    String::from_utf8_lossy(b).into_owned()
}

} // verus!
