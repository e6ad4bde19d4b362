//! Counting and normalizing line endings.
use vstd::prelude::*;
use crate::bytes::bytes_of;
use crate::text::{replace_char, replace_char_exec, str_chars, str_eq, string_from_chars};

verus! {

/// Line endings counted left to right: a `\r` directly followed by `\n` is
/// one CRLF; any other `\r` is a CR, any other `\n` an LF.
pub open spec fn nl_counts(b: Seq<u8>) -> (nat, nat, nat)
    decreases b.len(),
{
    if b.len() == 0 {
        (0, 0, 0)
    } else if b[0] == 0x0D && b.len() > 1 && b[1] == 0x0A {
        let (crlf, lf, cr) = nl_counts(b.skip(2));
        (crlf + 1, lf, cr)
    } else if b[0] == 0x0D {
        let (crlf, lf, cr) = nl_counts(b.skip(1));
        (crlf, lf, cr + 1)
    } else if b[0] == 0x0A {
        let (crlf, lf, cr) = nl_counts(b.skip(1));
        (crlf, lf + 1, cr)
    } else {
        nl_counts(b.skip(1))
    }
}

/// Every CRLF and every lone CR turned into LF.
pub open spec fn normalize_newlines(s: Seq<char>) -> Seq<char>
    decreases s.len(),
{
    if s.len() == 0 {
        seq![]
    } else if s[0] == '\r' && s.len() > 1 && s[1] == '\n' {
        seq!['\n'] + normalize_newlines(s.skip(2))
    } else if s[0] == '\r' {
        seq!['\n'] + normalize_newlines(s.skip(1))
    } else {
        seq![s[0]] + normalize_newlines(s.skip(1))
    }
}

/// The counts of CRLF, LF and CR line endings, as `nl_counts` gives them.
pub(crate) fn count_line_endings(b: &[u8]) -> (res: (usize, usize, usize))
    ensures
        res.0 == nl_counts(b@).0,
        res.1 == nl_counts(b@).1,
        res.2 == nl_counts(b@).2,
{
    let len = b.len();
    let mut crlf: usize = 0;
    let mut lf: usize = 0;
    let mut cr: usize = 0;
    let mut i: usize = 0;
    assert(b@.skip(0) == b@);
    while i < len
        invariant
            len == b@.len(),
            i <= len,
            crlf + lf + cr <= i,
            crlf + nl_counts(b@.skip(i as int)).0 == nl_counts(b@).0,
            lf + nl_counts(b@.skip(i as int)).1 == nl_counts(b@).1,
            cr + nl_counts(b@.skip(i as int)).2 == nl_counts(b@).2,
        decreases len - i,
    {
        let ghost rest = b@.skip(i as int);
        if b[i] == 0x0D {
            if i + 1 < len && b[i + 1] == 0x0A {
                assert(rest.skip(2) == b@.skip(i + 2));
                crlf += 1;
                i += 2;
            } else {
                assert(rest.skip(1) == b@.skip(i + 1));
                cr += 1;
                i += 1;
            }
        } else if b[i] == 0x0A {
            assert(rest.skip(1) == b@.skip(i + 1));
            lf += 1;
            i += 1;
        } else {
            assert(rest.skip(1) == b@.skip(i + 1));
            i += 1;
        }
    }
    (crlf, lf, cr)
}

/// `s` with every CRLF and every lone CR turned into LF.
pub(crate) fn normalize_to_lf(s: &[char]) -> (res: Vec<char>)
    ensures
        res@ == normalize_newlines(s@),
{
    let len = s.len();
    let mut out: Vec<char> = Vec::new();
    let mut i: usize = 0;
    assert(s@.skip(0) == s@);
    while i < len
        invariant
            len == s@.len(),
            i <= len,
            out@ + normalize_newlines(s@.skip(i as int)) == normalize_newlines(s@),
        decreases len - i,
    {
        let ghost rest = s@.skip(i as int);
        let ghost prev = out@;
        if s[i] == '\r' && i + 1 < len && s[i + 1] == '\n' {
            assert(rest.skip(2) == s@.skip(i + 2));
            out.push('\n');
            i += 2;
        } else if s[i] == '\r' {
            assert(rest.skip(1) == s@.skip(i + 1));
            out.push('\n');
            i += 1;
        } else {
            assert(rest.skip(1) == s@.skip(i + 1));
            out.push(s[i]);
            i += 1;
        }
        assert(out@ + normalize_newlines(s@.skip(i as int)) == prev + normalize_newlines(rest));
    }
    assert(s@.skip(len as int) == Seq::<char>::empty());
    assert(out@ + Seq::<char>::empty() == out@);
    out
}

/// The counts of each kind of line ending in a text that mixes them.
#[derive(Debug, Clone, Copy)]
pub struct MixedLineEndingReport {
    pub crlf: usize,
    pub lf: usize,
    pub cr: usize,
}

/// The counts of CRLF, LF and CR line endings when more than one kind
/// occurs; `None` when the text uses one kind or none.
pub fn detect_mixed_line_endings(text: &str) -> (res: Option<MixedLineEndingReport>)
    ensures
        ({
            let (crlf, lf, cr) = nl_counts(bytes_of(text@));
            let kinds = (if crlf > 0 {
                1int
            } else {
                0
            }) + (if lf > 0 {
                1int
            } else {
                0
            }) + (if cr > 0 {
                1int
            } else {
                0
            });
            match res {
                Some(r) => kinds > 1 && r.crlf == crlf && r.lf == lf && r.cr == cr,
                None => kinds <= 1,
            }
        }),
{
    let (crlf, lf, cr) = count_line_endings(text.as_bytes());
    let kinds: u8 = (if crlf > 0 {
        1u8
    } else {
        0u8
    }) + (if lf > 0 {
        1u8
    } else {
        0u8
    }) + (if cr > 0 {
        1u8
    } else {
        0u8
    });
    if kinds > 1 {
        Some(MixedLineEndingReport { crlf, lf, cr })
    } else {
        None
    }
}

/// The text with every line ending turned into `target` when `target` is
/// `"\r\n"` or `"\r"`, and into LF otherwise.
pub open spec fn normalized_to(text: Seq<char>, target: Seq<char>) -> Seq<char> {
    let n = normalize_newlines(text);
    if target == seq!['\r', '\n'] {
        replace_char(n, '\n', seq!['\r', '\n'])
    } else if target == seq!['\r'] {
        replace_char(n, '\n', seq!['\r'])
    } else {
        n
    }
}

/// Converts every line ending of `text` to `target` (see `normalized_to`).
pub fn normalize_line_endings(text: &str, target: &str) -> (res: String)
    ensures
        res@ == normalized_to(text@, target@),
{
    let chars = str_chars(text);
    let n = normalize_to_lf(chars.as_slice());
    let ns = string_from_chars(n.as_slice());
    let crlf = "\r\n";
    let cr = "\r";
    proof {
        reveal_strlit("\r\n");
        reveal_strlit("\r");
        assert(crlf@ =~= seq!['\r', '\n']);
        assert(cr@ =~= seq!['\r']);
    }
    if str_eq(target, crlf) {
        replace_char_exec(ns.as_str(), '\n', crlf)
    } else if str_eq(target, cr) {
        replace_char_exec(ns.as_str(), '\n', cr)
    } else {
        ns
    }
}

} // verus!
