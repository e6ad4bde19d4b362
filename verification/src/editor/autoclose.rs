//! Auto-closing of brackets and quotes.
use vstd::prelude::*;
use crate::text::{is_whitespace, is_ws};

verus! {

/// The closing character for an opening bracket or quote.
pub open spec fn closing_of(ch: char) -> Option<char> {
    if ch == '(' {
        Some(')')
    } else if ch == '[' {
        Some(']')
    } else if ch == '{' {
        Some('}')
    } else if ch == '"' {
        Some('"')
    } else if ch == '\'' {
        Some('\'')
    } else if ch == '`' {
        Some('`')
    } else {
        None
    }
}

/// Given a character that was just typed, its closing pair if it has one.
pub fn closing_pair(ch: char) -> (res: Option<char>)
    ensures
        res == closing_of(ch),
{
    if ch == '(' {
        Some(')')
    } else if ch == '[' {
        Some(']')
    } else if ch == '{' {
        Some('}')
    } else if ch == '"' {
        Some('"')
    } else if ch == '\'' {
        Some('\'')
    } else if ch == '`' {
        Some('`')
    } else {
        None
    }
}

/// Whether typing `ch` before `next_char` should insert its closing pair:
/// `ch` has one, and the next character is absent (end of line or file),
/// whitespace, a closing bracket, `,` or `;`.
pub fn should_autoclose(ch: char, next_char: Option<char>) -> (res: bool)
    ensures
        res == (closing_of(ch) is Some && match next_char {
            None => true,
            Some(c) => is_ws(c) || c == ')' || c == ']' || c == '}' || c == ',' || c == ';',
        }),
{
    if closing_pair(ch).is_none() {
        return false;
    }
    match next_char {
        None => true,
        Some(c) => is_whitespace(c) || c == ')' || c == ']' || c == '}' || c == ',' || c == ';',
    }
}

} // verus!
