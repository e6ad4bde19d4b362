//! Bracket matching over the UTF-8 bytes of a text.
//!
//! The brackets are ASCII, and in UTF-8 an ASCII byte is always a whole
//! character, so scanning the bytes visits exactly the brackets that a scan of
//! the characters would visit, at the same byte offsets.
use vstd::prelude::*;
use crate::bytes::{bytes_of, boundary};

verus! {

/// The byte of the closing bracket paired with an opening bracket byte.
pub open spec fn close_of(o: u8) -> u8 {
    if o == 0x28 {
        0x29u8
    } else if o == 0x5B {
        0x5Du8
    } else {
        0x7Du8
    }
}

/// The byte of the opening bracket paired with a closing bracket byte.
pub open spec fn open_of(c: u8) -> u8 {
    if c == 0x29 {
        0x28u8
    } else if c == 0x5D {
        0x5Bu8
    } else {
        0x7Bu8
    }
}

/// `(`, `[` or `{`.
pub open spec fn is_open_byte(b: u8) -> bool {
    b == 0x28 || b == 0x5B || b == 0x7B
}

/// `)`, `]` or `}`.
pub open spec fn is_close_byte(b: u8) -> bool {
    b == 0x29 || b == 0x5D || b == 0x7D
}

/// The number of `o` bytes minus the number of `c` bytes in `b[lo..hi]`.
pub open spec fn net(b: Seq<u8>, o: u8, c: u8, lo: int, hi: int) -> int
    decreases hi - lo,
{
    if hi <= lo {
        0
    } else {
        net(b, o, c, lo, hi - 1) + (if b[hi - 1] == o {
            1int
        } else if b[hi - 1] == c {
            -1int
        } else {
            0int
        })
    }
}

/// `net` over `b[start..=k]`.
pub open spec fn fwd_depth(b: Seq<u8>, o: u8, c: u8, start: int, k: int) -> int {
    net(b, o, c, start, k + 1)
}

/// `net` over `b[k..=end]`.
pub open spec fn back_depth(b: Seq<u8>, o: u8, c: u8, k: int, end: int) -> int {
    net(b, o, c, k, end + 1)
}

/// The same difference, accumulated from the right end of the range.
proof fn lemma_net_left(b: Seq<u8>, o: u8, c: u8, lo: int, hi: int)
    requires
        lo < hi,
        o != c,
    ensures
        net(b, o, c, lo, hi) == net(b, o, c, lo + 1, hi) + (if b[lo] == o {
            1int
        } else if b[lo] == c {
            -1int
        } else {
            0int
        }),
    decreases hi - lo,
{
    if lo + 1 < hi {
        lemma_net_left(b, o, c, lo, hi - 1);
        assert(net(b, o, c, lo + 1, hi) == net(b, o, c, lo + 1, hi - 1) + (if b[hi - 1] == o {
            1int
        } else if b[hi - 1] == c {
            -1int
        } else {
            0int
        }));
    } else {
        assert(net(b, o, c, lo, hi - 1) == 0);
        assert(net(b, o, c, lo + 1, hi) == 0);
    }
}

/// `Some(j)` for the first `j >= start` at which the bytes `b[start..=j]`
/// hold as many `o` as `c`; `None` if there is none.
pub open spec fn forward_match(b: Seq<u8>, o: u8, c: u8, start: int, j: Option<int>) -> bool {
    match j {
        Some(j) => start <= j < b.len() && fwd_depth(b, o, c, start, j) == 0 && forall|k: int|
            start <= k < j ==> #[trigger] fwd_depth(b, o, c, start, k) != 0,
        None => forall|k: int| start <= k < b.len() ==> #[trigger] fwd_depth(b, o, c, start, k) != 0,
    }
}

/// `Some(i)` for the last `i <= end` at which the bytes `b[i..=end]` hold as
/// many `o` as `c`; `None` if there is none.
pub open spec fn backward_match(b: Seq<u8>, o: u8, c: u8, end: int, i: Option<int>) -> bool {
    match i {
        Some(i) => 0 <= i <= end && back_depth(b, o, c, i, end) == 0 && forall|k: int|
            i < k <= end ==> #[trigger] back_depth(b, o, c, k, end) != 0,
        None => forall|k: int| 0 <= k <= end ==> #[trigger] back_depth(b, o, c, k, end) != 0,
    }
}

/// The contract of `find_matching_bracket` on the bytes `b`.
pub open spec fn matching_bracket(b: Seq<u8>, pos: int, res: Option<usize>) -> bool {
    let r = match res {
        Some(j) => Some(j as int),
        None => None,
    };
    if pos >= b.len() {
        res is None
    } else if is_open_byte(b[pos]) {
        forward_match(b, b[pos], close_of(b[pos]), pos, r)
    } else if is_close_byte(b[pos]) {
        backward_match(b, open_of(b[pos]), b[pos], pos, r)
    } else {
        res is None
    }
}

fn find_forward(b: &[u8], start: usize, open: u8, close: u8) -> (res: Option<usize>)
    requires
        start < b@.len(),
        b@[start as int] == open,
        open != close,
    ensures
        forward_match(
            b@,
            open,
            close,
            start as int,
            match res {
                Some(j) => Some(j as int),
                None => None,
            },
        ),
{
    let mut depth: usize = 0;
    let mut i: usize = start;
    while i < b.len()
        invariant
            start <= i <= b@.len(),
            b@[start as int] == open,
            open != close,
            depth == net(b@, open, close, start as int, i as int),
            i > start ==> depth > 0,
            depth <= i - start,
            forall|k: int| start <= k < i ==> #[trigger] fwd_depth(b@, open, close, start as int, k) != 0,
        decreases b.len() - i,
    {
        if b[i] == open {
            depth += 1;
        } else if b[i] == close {
            depth -= 1;
            if depth == 0 {
                return Some(i);
            }
        }
        i += 1;
    }
    None
}

fn find_backward(b: &[u8], end: usize, open: u8, close: u8) -> (res: Option<usize>)
    requires
        end < b@.len(),
        b@[end as int] == close,
        open != close,
    ensures
        backward_match(
            b@,
            open,
            close,
            end as int,
            match res {
                Some(j) => Some(j as int),
                None => None,
            },
        ),
{
    let mut depth: usize = 0;
    let len = b.len();
    let mut i: usize = end + 1;
    while i > 0
        invariant
            i <= end + 1,
            end < b@.len(),
            b@[end as int] == close,
            open != close,
            depth == -net(b@, open, close, i as int, end + 1),
            i <= end ==> depth > 0,
            depth <= end + 1 - i,
            forall|k: int| i <= k <= end ==> #[trigger] back_depth(b@, open, close, k, end as int) != 0,
        decreases i,
    {
        i -= 1;
        proof {
            lemma_net_left(b@, open, close, i as int, end + 1);
        }
        if b[i] == close {
            depth += 1;
        } else if b[i] == open {
            depth -= 1;
            if depth == 0 {
                return Some(i);
            }
        }
    }
    None
}

/// The byte position of the bracket that matches the one at `byte_pos`:
/// for an opening bracket the first later position where the brackets of
/// its kind balance, for a closing bracket the last earlier one. `None` when
/// `byte_pos` is past the end, holds no bracket, or nothing balances.
pub fn find_matching_bracket(text: &str, byte_pos: usize) -> (res: Option<usize>)
    requires
        byte_pos >= bytes_of(text@).len() || boundary(bytes_of(text@), byte_pos as int),
    ensures
        matching_bracket(bytes_of(text@), byte_pos as int, res),
{
    let b = text.as_bytes();
    if byte_pos >= b.len() {
        return None;
    }
    let ch = b[byte_pos];
    if ch == 0x28 {
        find_forward(b, byte_pos, 0x28, 0x29)
    } else if ch == 0x5B {
        find_forward(b, byte_pos, 0x5B, 0x5D)
    } else if ch == 0x7B {
        find_forward(b, byte_pos, 0x7B, 0x7D)
    } else if ch == 0x29 {
        find_backward(b, byte_pos, 0x28, 0x29)
    } else if ch == 0x5D {
        find_backward(b, byte_pos, 0x5B, 0x5D)
    } else if ch == 0x7D {
        find_backward(b, byte_pos, 0x7B, 0x7D)
    } else {
        None
    }
}

/// Whether the character at `byte_pos` is one of `()[]{}`.
pub fn is_bracket(text: &str, byte_pos: usize) -> (res: bool)
    requires
        byte_pos >= bytes_of(text@).len() || boundary(bytes_of(text@), byte_pos as int),
    ensures
        res == (byte_pos < bytes_of(text@).len() && (is_open_byte(bytes_of(text@)[byte_pos as int])
            || is_close_byte(bytes_of(text@)[byte_pos as int]))),
{
    let b = text.as_bytes();
    if byte_pos >= b.len() {
        return false;
    }
    let ch = b[byte_pos];
    ch == 0x28 || ch == 0x5B || ch == 0x7B || ch == 0x29 || ch == 0x5D || ch == 0x7D
}

/// `net` over a range is the sum over any split of it.
proof fn lemma_net_split(b: Seq<u8>, o: u8, c: u8, lo: int, mid: int, hi: int)
    requires
        lo <= mid <= hi,
    ensures
        net(b, o, c, lo, hi) == net(b, o, c, lo, mid) + net(b, o, c, mid, hi),
    decreases hi - mid,
{
    if mid < hi {
        lemma_net_split(b, o, c, lo, mid, hi - 1);
    }
}

/// Before the first balance point, the opening brackets are ahead.
proof fn lemma_depth_positive(b: Seq<u8>, o: u8, c: u8, p: int, q: int, k: int)
    requires
        0 <= p <= k < q < b.len(),
        b[p] == o,
        o != c,
        forall|j: int| p <= j < q ==> #[trigger] fwd_depth(b, o, c, p, j) != 0,
    ensures
        fwd_depth(b, o, c, p, k) >= 1,
    decreases k - p,
{
    if k == p {
        assert(net(b, o, c, p, p) == 0);
    } else {
        lemma_depth_positive(b, o, c, p, q, k - 1);
        assert(fwd_depth(b, o, c, p, k - 1) != 0);
        assert(fwd_depth(b, o, c, p, k) != 0);
    }
}

/// Matching is symmetric: where the bracket matching an opening bracket at
/// `p` is at `q`, the bracket matching the one at `q` is at `p`, and it
/// closes the same kind.
pub proof fn law_matching_symmetric(b: Seq<u8>, p: int, q: usize)
    requires
        0 <= p < b.len(),
        is_open_byte(b[p]),
        matching_bracket(b, p, Some(q)),
    ensures
        b[q as int] == close_of(b[p]),
        matching_bracket(b, q as int, Some(p as usize)),
{
    let o = b[p];
    let c = close_of(o);
    let qi = q as int;
    assert(forward_match(b, o, c, p, Some(qi)));
    assert(fwd_depth(b, o, c, p, p) == 1) by {
        assert(net(b, o, c, p, p) == 0);
    }
    assert(qi > p);
    lemma_depth_positive(b, o, c, p, qi, qi - 1);
    assert(net(b, o, c, p, qi + 1) == net(b, o, c, p, qi) + (if b[qi] == o {
        1int
    } else if b[qi] == c {
        -1int
    } else {
        0int
    }));
    assert(b[qi] == c);
    assert(is_close_byte(b[qi]));
    assert(open_of(c) == o);
    assert forall|k: int| p < k <= qi implies #[trigger] back_depth(b, o, c, k, qi) != 0 by {
        lemma_net_split(b, o, c, p, k, qi + 1);
        assert(fwd_depth(b, o, c, p, k - 1) != 0);
    }
    assert(backward_match(b, o, c, qi, Some(p)));
}

/// After the last balance point, counted from the right, the closing
/// brackets are ahead.
proof fn lemma_back_depth_negative(b: Seq<u8>, o: u8, c: u8, i: int, q: int, k: int)
    requires
        0 <= i < k <= q < b.len(),
        b[q] == c,
        o != c,
        forall|j: int| i < j <= q ==> #[trigger] back_depth(b, o, c, j, q) != 0,
    ensures
        back_depth(b, o, c, k, q) <= -1,
    decreases q - k,
{
    if k == q {
        lemma_net_left(b, o, c, q, q + 1);
        assert(net(b, o, c, q + 1, q + 1) == 0);
    } else {
        lemma_back_depth_negative(b, o, c, i, q, k + 1);
        lemma_net_left(b, o, c, k, q + 1);
        assert(back_depth(b, o, c, k, q) != 0);
    }
}

/// Matching is symmetric from a closing bracket too: where the bracket
/// matching a closing bracket at `q` is at `p`, the bracket matching the
/// one at `p` is at `q`, and it opens the same kind.
pub proof fn law_matching_symmetric_close(b: Seq<u8>, q: usize, p: usize)
    requires
        q < b.len(),
        is_close_byte(b[q as int]),
        matching_bracket(b, q as int, Some(p)),
    ensures
        b[p as int] == open_of(b[q as int]),
        matching_bracket(b, p as int, Some(q)),
{
    let q = q as int;
    let c = b[q];
    let o = open_of(c);
    let pi = p as int;
    assert(backward_match(b, o, c, q, Some(pi)));
    assert(back_depth(b, o, c, q, q) == -1) by {
        lemma_net_left(b, o, c, q, q + 1);
        assert(net(b, o, c, q + 1, q + 1) == 0);
    }
    assert(pi < q);
    lemma_back_depth_negative(b, o, c, pi, q, pi + 1);
    lemma_net_left(b, o, c, pi, q + 1);
    assert(b[pi] == o);
    assert(is_open_byte(b[pi]));
    assert(close_of(o) == c);
    assert forall|j: int| pi <= j < q implies #[trigger] fwd_depth(b, o, c, pi, j) != 0 by {
        lemma_net_split(b, o, c, pi, j + 1, q + 1);
        assert(back_depth(b, o, c, j + 1, q) != 0);
    }
    assert(forward_match(b, o, c, pi, Some(q)));
}

} // verus!
