//! Unicode case tables and character classes of the standard library.
//!
//! What these give is fixed by the Unicode tables that std carries; it takes
//! pages to state, so each result has a name and is a function of the
//! argument alone.
use vstd::prelude::*;

verus! {

/// What `str::to_lowercase` gives for a text.
pub uninterp spec fn lowercase(s: Seq<char>) -> Seq<char>;

/// What `char::to_uppercase` yields for a character, collected.
pub uninterp spec fn upper_char(c: char) -> Seq<char>;

/// What `char::to_lowercase` yields for a character, collected.
pub uninterp spec fn lower_char(c: char) -> Seq<char>;

/// `char::is_alphabetic`.
pub uninterp spec fn alphabetic(c: char) -> bool;

/// `char::is_uppercase`.
pub uninterp spec fn uppercase(c: char) -> bool;

/// `char::is_numeric`.
pub uninterp spec fn numeric(c: char) -> bool;

/// `str::to_lowercase`: the text in lower case, by the Unicode tables (with
/// the final-sigma rule). The contract only names the result.
#[verifier::external_body]
pub fn to_lowercase(s: &str) -> (res: String)
    ensures
        res@ == lowercase(s@),
{
    s.to_lowercase()
}

/// `char::to_uppercase`, collected into a string. The contract only names
/// the result.
#[verifier::external_body]
pub fn char_to_upper(c: char) -> (res: String)
    ensures
        res@ == upper_char(c),
{
    c.to_uppercase().collect()
}

/// `char::to_lowercase`, collected into a string. The contract only names
/// the result.
#[verifier::external_body]
pub fn char_to_lower(c: char) -> (res: String)
    ensures
        res@ == lower_char(c),
{
    c.to_lowercase().collect()
}

/// `char::is_alphabetic`: the Unicode `Alphabetic` property. The contract
/// only names the result.
#[verifier::external_body]
pub fn is_alphabetic(c: char) -> (res: bool)
    ensures
        res == alphabetic(c),
{
    c.is_alphabetic()
}

/// `char::is_uppercase`: the Unicode `Uppercase` property. The contract only
/// names the result.
#[verifier::external_body]
pub fn is_uppercase(c: char) -> (res: bool)
    ensures
        res == uppercase(c),
{
    c.is_uppercase()
}

/// `char::is_numeric`: the Unicode general categories `Nd`, `Nl` and `No`.
/// The contract only names the result.
#[verifier::external_body]
pub fn is_numeric(c: char) -> (res: bool)
    ensures
        res == numeric(c),
{
    c.is_numeric()
}

/// `char::is_alphanumeric`, which std documents as `is_alphabetic` or
/// `is_numeric`.
pub fn is_alphanumeric(c: char) -> (res: bool)
    ensures
        res == (alphabetic(c) || numeric(c)),
{
    is_alphabetic(c) || is_numeric(c)
}

} // verus!
