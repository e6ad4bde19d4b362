//! The calls into the `regex` crate that searching makes, with what its
//! documentation and source promise of them.
//!
//! What a regular expression matches takes pages to state, so the results of
//! compiling and searching are named, as functions of the pattern and the
//! haystack. What the crate documents plainly is stated beside the names:
//! matches lie inside the haystack, on character boundaries, one after the
//! other without overlapping, and a literal replacement replaces exactly the
//! matches that `find_iter` reports.
use vstd::prelude::*;
use crate::bytes::{bytes_of, boundary};
use regex::Regex;

verus! {

#[verifier::external_type_specification]
#[verifier::external_body]
pub struct ExRegex(Regex);

/// Whether `Regex::new` accepts a pattern.
pub uninterp spec fn regex_compiles(p: Seq<char>) -> bool;

/// The byte spans of the matches `Regex::find_iter` yields.
pub uninterp spec fn regex_find_iter_spans(p: Seq<char>, text: Seq<char>) -> Seq<(usize, usize)>;

/// The byte span of the match `Regex::find_at` returns.
pub uninterp spec fn regex_find_at_span(p: Seq<char>, text: Seq<char>, start: usize) -> Option<
    (usize, usize),
>;

/// The first match's capture groups (`Regex::captures`) with `rep` expanded
/// against them (`Captures::expand`).
pub uninterp spec fn regex_first_expansion(p: Seq<char>, hay: Seq<char>, rep: Seq<char>) -> Option<
    Seq<char>,
>;

/// `Regex::replace_all` with capture expansion in the replacement.
pub uninterp spec fn regex_replace_all_expanded(p: Seq<char>, text: Seq<char>, rep: Seq<char>) -> Seq<
    char,
>;

/// A regex metacharacter, as `regex_syntax::is_meta_character` lists them.
pub open spec fn is_meta(c: char) -> bool {
    c == '\\' || c == '.' || c == '+' || c == '*' || c == '?' || c == '(' || c == ')' || c == '|'
        || c == '[' || c == ']' || c == '{' || c == '}' || c == '^' || c == '$' || c == '#' || c
        == '&' || c == '-' || c == '~'
}

/// The text with a backslash before every metacharacter.
pub open spec fn escaped(s: Seq<char>) -> Seq<char>
    decreases s.len(),
{
    if s.len() == 0 {
        seq![]
    } else if is_meta(s.last()) {
        escaped(s.drop_last()).push('\\').push(s.last())
    } else {
        escaped(s.drop_last()).push(s.last())
    }
}

/// Whether spans lie in a haystack of `len` bytes, each on character
/// boundaries of `b`, in order and without overlapping.
pub open spec fn spans_ok(b: Seq<u8>, spans: Seq<(usize, usize)>) -> bool {
    &&& forall|k: int|
        0 <= k < spans.len() ==> (#[trigger] spans[k]).0 <= spans[k].1 <= b.len() && boundary(
            b,
            spans[k].0 as int,
        ) && boundary(b, spans[k].1 as int)
    &&& forall|k: int| 0 <= k < spans.len() - 1 ==> (#[trigger] spans[k]).1 <= spans[k + 1].0
}

/// The haystack from byte `last` on, with each span from the `k`-th on
/// replaced by `rep`.
pub open spec fn splice_from(
    b: Seq<u8>,
    spans: Seq<(usize, usize)>,
    rep: Seq<u8>,
    k: int,
    last: int,
) -> Seq<u8>
    decreases spans.len() - k,
{
    if k < 0 || k >= spans.len() {
        b.subrange(last, b.len() as int)
    } else {
        b.subrange(last, spans[k].0 as int) + rep + splice_from(
            b,
            spans,
            rep,
            k + 1,
            spans[k].1 as int,
        )
    }
}

/// `regex::escape`: the text with a backslash before every metacharacter.
#[verifier::external_body]
pub fn regex_escape(s: &str) -> (res: String)
    ensures
        res@ == escaped(s@),
{
    regex::escape(s)
}

/// A compiled regular expression together with the pattern it was compiled
/// from.
pub struct CompiledRegex {
    pattern: String,
    re: Regex,
}

impl CompiledRegex {
    /// The pattern the expression was compiled from.
    pub closed spec fn pattern(&self) -> Seq<char> {
        self.pattern@
    }

    /// `Regex::new`: the compiled pattern, `None` where the crate rejects it.
    /// Which patterns it accepts is named, not stated.
    #[verifier::external_body]
    pub fn compile(p: &str) -> (res: Option<CompiledRegex>)
        ensures
            res is Some <==> regex_compiles(p@),
            res matches Some(r) ==> r.pattern() == p@,
    {
        match Regex::new(p) {
            Ok(re) => Some(CompiledRegex { pattern: p.to_string(), re }),
            Err(_) => None,
        }
    }

    /// `Regex::find_iter`: the byte spans of the successive non-overlapping
    /// matches. Which spans they are is named; that they lie in the text on
    /// character boundaries, in order, is stated.
    #[verifier::external_body]
    pub fn find_iter_spans(&self, text: &str) -> (res: Vec<(usize, usize)>)
        ensures
            res@ == regex_find_iter_spans(self.pattern(), text@),
            spans_ok(bytes_of(text@), res@),
    {
        self.re.find_iter(text).map(|m| (m.start(), m.end())).collect()
    }

    /// `Regex::find_at`: the first match starting the search at byte
    /// `start`, with the text before it as context. Which match it is is
    /// named; that it lies between `start` and the end, on character
    /// boundaries, is stated. The call panics past the end of the text.
    #[verifier::external_body]
    pub fn find_at_span(&self, text: &str, start: usize) -> (res: Option<(usize, usize)>)
        requires
            start <= bytes_of(text@).len(),
        ensures
            res == regex_find_at_span(self.pattern(), text@, start),
            res matches Some(s) ==> start <= s.0 <= s.1 <= bytes_of(text@).len() && boundary(
                bytes_of(text@),
                s.0 as int,
            ) && boundary(bytes_of(text@), s.1 as int),
    {
        self.re.find_at(text, start).map(|m| (m.start(), m.end()))
    }

    /// `Regex::captures` on `hay`, then `Captures::expand` of `rep`: the
    /// replacement for the first match with `$name` references filled in.
    /// `None` when nothing matches. The result is named.
    #[verifier::external_body]
    pub fn first_expansion(&self, hay: &str, rep: &str) -> (res: Option<String>)
        ensures
            match res {
                Some(s) => regex_first_expansion(self.pattern(), hay@, rep@) == Some(s@),
                None => regex_first_expansion(self.pattern(), hay@, rep@) is None,
            },
    {
        match self.re.captures(hay) {
            Some(caps) => {
                let mut dst = String::new();
                caps.expand(rep, &mut dst);
                Some(dst)
            },
            None => None,
        }
    }

    /// `Regex::replace_all` with `rep` expanded against each match's
    /// capture groups. The result is named.
    #[verifier::external_body]
    pub fn replace_all_expanded(&self, text: &str, rep: &str) -> (res: String)
        ensures
            res@ == regex_replace_all_expanded(self.pattern(), text@, rep@),
    {
        self.re.replace_all(text, rep).to_string()
    }

    /// `Regex::replace_all` with `regex::NoExpand`: every match that
    /// `find_iter` reports replaced by `rep` as it is.
    #[verifier::external_body]
    pub fn replace_all_literal(&self, text: &str, rep: &str) -> (res: String)
        ensures
            bytes_of(res@) == splice_from(
                bytes_of(text@),
                regex_find_iter_spans(self.pattern(), text@),
                bytes_of(rep@),
                0,
                0,
            ),
    {
        self.re.replace_all(text, regex::NoExpand(rep)).to_string()
    }
}

} // verus!
