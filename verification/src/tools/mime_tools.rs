//! Text encodings for transfer: hexadecimal, percent-encoding and HTML
//! entities.
use vstd::prelude::*;
use crate::bytes::bytes_of;
use crate::num::{all_hex, hex2, hex_char, hex_digit_value, hex_of, parse_hex_u64, parse_hex_u64_chars, parse_usize, parse_usize_chars, push_hex};
use crate::text::{push_char, str_chars, str_eq, trim};
use crate::num::{decimal, push_decimal};
use crate::bytes::{string_from_utf8, utf8_error_message};
use vstd::utf8::{
    decode_utf8, encode_utf8_decode_utf8, encode_utf8_valid_utf8, is_ascii_chars, is_ascii_chars_encode_utf8,
    valid_utf8,
};

verus! {

/// The UTF-8 bytes of the text in lower-case hexadecimal, two digits each.
pub fn hex_encode(input: &str) -> (res: String)
    ensures
        res@ == hex_of(bytes_of(input@), false),
{
    let mut out = String::new();
    push_hex(&mut out, input.as_bytes(), false);
    out
}

/// A byte that percent-encoding keeps: ASCII letters, digits, `-`, `_`,
/// `.` and `~`.
pub open spec fn url_safe(b: u8) -> bool {
    (0x41 <= b <= 0x5A) || (0x61 <= b <= 0x7A) || (0x30 <= b <= 0x39) || b == 0x2D || b == 0x5F
        || b == 0x2E || b == 0x7E
}

/// Percent-encoding of bytes: safe bytes as they are, any other byte as
/// `%` and two upper-case hexadecimal digits.
pub open spec fn percent_encoded(bs: Seq<u8>) -> Seq<char>
    decreases bs.len(),
{
    if bs.len() == 0 {
        seq![]
    } else if url_safe(bs.last()) {
        percent_encoded(bs.drop_last()).push(bs.last() as char)
    } else {
        percent_encoded(bs.drop_last()) + seq!['%'] + hex2(bs.last(), true)
    }
}

/// Percent-encodes the UTF-8 bytes of a text.
pub fn url_encode(input: &str) -> (res: String)
    ensures
        res@ == percent_encoded(bytes_of(input@)),
{
    let bs = input.as_bytes();
    let mut out = String::new();
    let mut i: usize = 0;
    while i < bs.len()
        invariant
            i <= bs@.len(),
            out@ == percent_encoded(bs@.take(i as int)),
        decreases bs.len() - i,
    {
        let b = bs[i];
        proof {
            assert(bs@.take(i as int + 1).drop_last() == bs@.take(i as int));
        }
        if (0x41 <= b && b <= 0x5A) || (0x61 <= b && b <= 0x7A) || (0x30 <= b && b <= 0x39) || b
            == 0x2D || b == 0x5F || b == 0x2E || b == 0x7E {
            push_char(&mut out, crate::num::char_from_ascii(b as u32));
        } else {
            push_char(&mut out, '%');
            let one = [b];
            push_hex(&mut out, &one, true);
            proof {
                assert(one@.take(1) == one@);
                assert(hex_of(one@, true) == hex2(b, true)) by {
                    assert(one@.len() == 1);
                    assert(one@[0] == b);
                    assert(one@.drop_last() =~= Seq::<u8>::empty());
                    assert(hex_of(Seq::<u8>::empty(), true) == Seq::<char>::empty());
                    assert(Seq::<char>::empty() + hex2(b, true) =~= hex2(b, true));
                }
            }
        }
        i += 1;
    }
    proof {
        assert(bs@.take(bs@.len() as int) == bs@);
    }
    out
}

/// The HTML form of a character: `&`, `<`, `>`, `"` and `'` as entities.
pub open spec fn entity_of(c: char) -> Seq<char> {
    if c == '&' {
        "&amp;"@
    } else if c == '<' {
        "&lt;"@
    } else if c == '>' {
        "&gt;"@
    } else if c == '"' {
        "&quot;"@
    } else if c == '\'' {
        "&apos;"@
    } else {
        seq![c]
    }
}

/// The HTML form of a text.
pub open spec fn entities_encoded(s: Seq<char>) -> Seq<char>
    decreases s.len(),
{
    if s.len() == 0 {
        seq![]
    } else {
        entities_encoded(s.drop_last()) + entity_of(s.last())
    }
}

/// Replaces the five HTML special characters by entities.
pub fn html_entity_encode(input: &str) -> (res: String)
    ensures
        res@ == entities_encoded(input@),
{
    let cs = str_chars(input);
    let mut out = String::new();
    let mut i: usize = 0;
    while i < cs.len()
        invariant
            i <= cs@.len(),
            cs@ == input@,
            out@ == entities_encoded(cs@.take(i as int)),
        decreases cs.len() - i,
    {
        let c = cs[i];
        proof {
            assert(cs@.take(i as int + 1).drop_last() == cs@.take(i as int));
        }
        if c == '&' {
            out.append("&amp;");
        } else if c == '<' {
            out.append("&lt;");
        } else if c == '>' {
            out.append("&gt;");
        } else if c == '"' {
            out.append("&quot;");
        } else if c == '\'' {
            out.append("&apos;");
        } else {
            push_char(&mut out, c);
        }
        i += 1;
    }
    proof {
        assert(cs@.take(cs@.len() as int) == cs@);
    }
    out
}

// ---------------------------------------------------------------------------
// Decoding HTML entities
// ---------------------------------------------------------------------------

/// Whether a code is a Unicode scalar value, which `char::from_u32` takes.
pub open spec fn is_scalar_code(v: u32) -> bool {
    v < 0xD800 || (0xE000 <= v <= 0x10FFFF)
}

/// `char::from_u32`: the char of a scalar value; `None` for a surrogate or
/// a value past `0x10FFFF`.
#[verifier::external_body]
fn char_from_u32(v: u32) -> (res: Option<char>)
    ensures
        res == (if is_scalar_code(v) {
            Some(v as char)
        } else {
            None::<char>
        }),
{
    char::from_u32(v)
}

/// Scanning an entity from index `j` with `ent` read so far: up to a `;`
/// (found), the end, or once what was read takes more than 10 bytes. Gives
/// what was read, whether the `;` was found, and the index after the scan.
pub open spec fn scan_entity(s: Seq<char>, j: int, ent: Seq<char>) -> (Seq<char>, bool, int)
    decreases s.len() - j,
{
    if j < 0 || j >= s.len() {
        (ent, false, j)
    } else if s[j] == ';' {
        (ent, true, j + 1)
    } else {
        let e2 = ent.push(s[j]);
        if bytes_of(e2).len() > 10 {
            (e2, false, j + 1)
        } else {
            scan_entity(s, j + 1, e2)
        }
    }
}

pub proof fn lemma_scan_entity(s: Seq<char>, j: int, ent: Seq<char>)
    requires
        0 <= j <= s.len(),
    ensures
        scan_entity(s, j, ent).2 >= j,
        j < s.len() ==> scan_entity(s, j, ent).2 > j,
        scan_entity(s, j, ent).2 <= s.len(),
    decreases s.len() - j,
{
    if 0 <= j < s.len() && s[j] != ';' && bytes_of(ent.push(s[j])).len() <= 10 {
        lemma_scan_entity(s, j + 1, ent.push(s[j]));
    }
}

/// `u32::from_str_radix(_, 16)`.
pub open spec fn hex_u32(s: Seq<char>) -> Option<u32> {
    match parse_hex_u64(s) {
        Some(v) => if v <= u32::MAX {
            Some(v as u32)
        } else {
            None
        },
        None => None,
    }
}

/// `str::parse::<u32>`.
pub open spec fn dec_u32(s: Seq<char>) -> Option<u32> {
    match parse_usize(s) {
        Some(v) => if v <= u32::MAX {
            Some(v as u32)
        } else {
            None
        },
        None => None,
    }
}

/// The text an entity `&e;` stands for: the five named ones, `#` and a
/// decimal or `#x` and a hexadecimal scalar value; itself for any other.
pub open spec fn entity_text(e: Seq<char>) -> Seq<char> {
    let unknown = seq!['&'] + e + seq![';'];
    if e == seq!['a', 'm', 'p'] {
        seq!['&']
    } else if e == seq!['l', 't'] {
        seq!['<']
    } else if e == seq!['g', 't'] {
        seq!['>']
    } else if e == seq!['q', 'u', 'o', 't'] {
        seq!['"']
    } else if e == seq!['a', 'p', 'o', 's'] {
        seq!['\'']
    } else if e.len() > 0 && e[0] == '#' {
        let num = e.drop_first();
        let code = if num.len() > 0 && num[0] == 'x' {
            hex_u32(num.drop_first())
        } else {
            dec_u32(num)
        };
        match code {
            Some(v) => if is_scalar_code(v) {
                seq![v as char]
            } else {
                unknown
            },
            None => unknown,
        }
    } else {
        unknown
    }
}

/// The text from index `i` on with its entities decoded: an `&` starts an
/// entity (see `scan_entity`); an entity without `;` stays as it was read.
pub open spec fn entities_decoded(s: Seq<char>, i: int) -> Seq<char>
    decreases s.len() - i,
{
    if i < 0 || i >= s.len() {
        seq![]
    } else if s[i] != '&' {
        seq![s[i]] + entities_decoded(s, i + 1)
    } else {
        let r = scan_entity(s, i + 1, seq![]);
        (if r.1 {
            entity_text(r.0)
        } else {
            seq!['&'] + r.0
        }) + entities_decoded(s, if i < r.2 <= s.len() {
            r.2
        } else {
            i + 1
        })
    }
}

fn push_chars(out: &mut Vec<char>, s: &str)
    ensures
        final(out)@ == old(out)@ + s@,
{
    let cs = str_chars(s);
    let mut i: usize = 0;
    while i < cs.len()
        invariant
            i <= cs@.len(),
            out@ == old(out)@ + cs@.take(i as int),
        decreases cs.len() - i,
    {
        out.push(cs[i]);
        assert(cs@.take(i + 1) =~= cs@.take(i as int).push(cs@[i as int]));
        i = i + 1;
    }
    assert(cs@.take(cs@.len() as int) =~= cs@);
}

fn one_char(c: char) -> (res: Vec<char>)
    ensures
        res@ == seq![c],
{
    let mut v: Vec<char> = Vec::new();
    v.push(c);
    v
}

fn decode_entity(e: &Vec<char>) -> (res: Vec<char>)
    ensures
        res@ == entity_text(e@),
{
    let es = crate::text::string_from_chars(e.as_slice());
    let t = es.as_str();
    proof {
        reveal_strlit("amp");
        reveal_strlit("lt");
        reveal_strlit("gt");
        reveal_strlit("quot");
        reveal_strlit("apos");
        assert("amp"@ =~= seq!['a', 'm', 'p']);
        assert("lt"@ =~= seq!['l', 't']);
        assert("gt"@ =~= seq!['g', 't']);
        assert("quot"@ =~= seq!['q', 'u', 'o', 't']);
        assert("apos"@ =~= seq!['a', 'p', 'o', 's']);
    }
    if str_eq(t, "amp") {
        assert(e@ =~= seq!['a', 'm', 'p']);
        return one_char('&');
    } else if str_eq(t, "lt") {
        assert(e@ =~= seq!['l', 't']);
        return one_char('<');
    } else if str_eq(t, "gt") {
        assert(e@ =~= seq!['g', 't']);
        return one_char('>');
    } else if str_eq(t, "quot") {
        assert(e@ =~= seq!['q', 'u', 'o', 't']);
        return one_char('"');
    } else if str_eq(t, "apos") {
        assert(e@ =~= seq!['a', 'p', 'o', 's']);
        return one_char('\'');
    }
    assert(e@ != seq!['a', 'm', 'p']);
    assert(e@ != seq!['l', 't']);
    assert(e@ != seq!['g', 't']);
    assert(e@ != seq!['q', 'u', 'o', 't']);
    assert(e@ != seq!['a', 'p', 'o', 's']);
    let mut unknown: Vec<char> = one_char('&');
    crate::text::push_range(&mut unknown, e.as_slice(), 0, e.len());
    unknown.push(';');
    assert(unknown@ =~= seq!['&'] + e@ + seq![';']);
    if e.len() > 0 && e[0] == '#' {
        let code: Option<u32> = if e.len() > 1 && e[1] == 'x' {
            assert(e@.drop_first().drop_first() =~= e@.subrange(2, e@.len() as int));
            match parse_hex_u64_chars(e.as_slice(), 2, e.len()) {
                Some(v) => if v <= 0xFFFF_FFFF {
                    Some(v as u32)
                } else {
                    None
                },
                None => None,
            }
        } else {
            assert(e@.drop_first() =~= e@.subrange(1, e@.len() as int));
            match parse_usize_chars(e.as_slice(), 1, e.len()) {
                Some(v) => if v <= 0xFFFF_FFFF {
                    Some(v as u32)
                } else {
                    None
                },
                None => None,
            }
        };
        match code {
            Some(v) => match char_from_u32(v) {
                Some(c) => one_char(c),
                None => unknown,
            },
            None => unknown,
        }
    } else {
        unknown
    }
}

/// Decodes HTML entities (see `entities_decoded`).
pub fn html_entity_decode(input: &str) -> (res: String)
    ensures
        res@ == entities_decoded(input@, 0),
{
    let cs = str_chars(input);
    let n = cs.len();
    let mut out: Vec<char> = Vec::new();
    let mut i: usize = 0;
    while i < n
        invariant
            i <= n == cs@.len(),
            cs@ == input@,
            entities_decoded(cs@, 0) == out@ + entities_decoded(cs@, i as int),
        decreases n - i,
    {
        proof {
            lemma_scan_entity(cs@, i + 1, seq![]);
        }
        if cs[i] != '&' {
            out.push(cs[i]);
            i = i + 1;
        } else {
            let mut ent = String::new();
            let mut j = i + 1;
            let mut found = false;
            let mut over = false;
            while j < n && !found && !over
                invariant
                    i < j <= n == cs@.len(),
                    !(found && over),
                    scan_entity(cs@, i + 1, seq![]) == (if found {
                        (ent@, true, j as int)
                    } else if over {
                        (ent@, false, j as int)
                    } else {
                        scan_entity(cs@, j as int, ent@)
                    }),
                decreases n - j,
            {
                let c = cs[j];
                j = j + 1;
                if c == ';' {
                    found = true;
                } else {
                    push_char(&mut ent, c);
                    if ent.as_str().as_bytes().len() > 10 {
                        over = true;
                    }
                }
            }
            let ec = str_chars(ent.as_str());
            if found {
                let d = decode_entity(&ec);
                let ghost before = out@;
                let mut dd = d;
                out.append(&mut dd);
                assert(out@ == before + entity_text(ent@));
            } else {
                out.push('&');
                let ghost before = out@;
                push_chars(&mut out, ent.as_str());
            }
            i = j;
        }
    }
    crate::text::string_from_chars(out.as_slice())
}

// ---------------------------------------------------------------------------
// Decoding bytes back into text
// ---------------------------------------------------------------------------

/// The decoded bytes as text, or the message for invalid UTF-8.
pub open spec fn utf8_result(b: Seq<u8>) -> Result<Seq<char>, Seq<char>> {
    if valid_utf8(b) {
        Ok(decode_utf8(b))
    } else {
        Err("Invalid UTF-8 in decoded data: "@ + utf8_error_message(b))
    }
}

fn text_of_bytes(b: Vec<u8>) -> (res: Result<String, String>)
    ensures
        match (res, utf8_result(b@)) {
            (Ok(t), Ok(u)) => t@ == u,
            (Err(m), Err(u)) => m@ == u,
            _ => false,
        },
{
    match string_from_utf8(b) {
        Ok(t) => Ok(t),
        Err(m) => {
            let mut out = String::from_str("Invalid UTF-8 in decoded data: ");
            out.append(m.as_str());
            Err(out)
        },
    }
}

/// `u8::from_str_radix(_, 16)`.
pub open spec fn hex_u8(s: Seq<char>) -> Option<u8> {
    match parse_hex_u64(s) {
        Some(v) => if v <= 255 {
            Some(v as u8)
        } else {
            None
        },
        None => None,
    }
}

fn hex_u8_exec(s: &[char]) -> (res: Option<u8>)
    ensures
        res == hex_u8(s@),
{
    assert(s@.subrange(0, s@.len() as int) =~= s@);
    match parse_hex_u64_chars(s, 0, s.len()) {
        Some(v) => if v <= 255 {
            Some(v as u8)
        } else {
            None
        },
        None => None,
    }
}

/// Percent-decoding of the bytes from `i` on, appended to `acc`: `%` and two
/// hexadecimal digits (each byte taken as the char of its value) give a
/// byte, `+` a space, any other byte itself.
pub open spec fn percent_decoded(b: Seq<u8>, i: int, acc: Seq<u8>) -> Result<Seq<u8>, Seq<char>>
    decreases b.len() - i,
{
    if i < 0 || i >= b.len() {
        Ok(acc)
    } else if b[i] == 0x25 {
        if i + 2 >= b.len() {
            Err("Incomplete percent-encoding"@)
        } else {
            let hex = seq![b[i + 1] as char, b[i + 2] as char];
            match hex_u8(hex) {
                Some(v) => percent_decoded(b, i + 3, acc.push(v)),
                None => Err("Invalid percent-encoding: %"@ + hex),
            }
        }
    } else if b[i] == 0x2B {
        percent_decoded(b, i + 1, acc.push(0x20))
    } else {
        percent_decoded(b, i + 1, acc.push(b[i]))
    }
}

/// Decodes percent-encoding (see `percent_decoded`); the bytes must be
/// UTF-8.
pub fn url_decode(input: &str) -> (res: Result<String, String>)
    ensures
        match percent_decoded(bytes_of(input@), 0, seq![]) {
            Err(m) => res matches Err(e) && e@ == m,
            Ok(b) => match (res, utf8_result(b)) {
                (Ok(t), Ok(u)) => t@ == u,
                (Err(e), Err(u)) => e@ == u,
                _ => false,
            },
        },
{
    let b = input.as_bytes();
    let n = b.len();
    let mut out: Vec<u8> = Vec::new();
    let mut i: usize = 0;
    while i < n
        invariant
            i <= n == b@.len(),
            b@ == bytes_of(input@),
            percent_decoded(b@, 0, seq![]) == percent_decoded(b@, i as int, out@),
        decreases n - i,
    {
        let c = b[i];
        if c == 0x25 {
            if n - i <= 2 {
                return Err(String::from_str("Incomplete percent-encoding"));
            }
            let hi = b[i + 1] as char;
            let lo = b[i + 2] as char;
            let mut pair: Vec<char> = Vec::new();
            pair.push(hi);
            pair.push(lo);
            assert(pair@ =~= seq![b@[i + 1] as char, b@[i + 2] as char]);
            match hex_u8_exec(pair.as_slice()) {
                Some(v) => {
                    out.push(v);
                    i = i + 3;
                },
                None => {
                    let mut msg = String::from_str("Invalid percent-encoding: %");
                    push_char(&mut msg, hi);
                    push_char(&mut msg, lo);
                    assert(msg@ =~= "Invalid percent-encoding: %"@ + pair@);
                    return Err(msg);
                },
            }
        } else if c == 0x2B {
            out.push(0x20);
            i = i + 1;
        } else {
            out.push(c);
            i = i + 1;
        }
    }
    text_of_bytes(out)
}

/// The chars of a text that are not whitespace.
pub open spec fn without_ws(s: Seq<char>) -> Seq<char>
    decreases s.len(),
{
    if s.len() == 0 {
        seq![]
    } else if crate::text::is_ws(s.last()) {
        without_ws(s.drop_last())
    } else {
        without_ws(s.drop_last()).push(s.last())
    }
}

/// Decoding hexadecimal digit pairs from byte `i` of the cleaned text on,
/// appended to `acc`: each pair is read as the text of its two bytes.
/// `None` where a pair does not lie on char boundaries (slicing it fails).
pub open spec fn hex_pairs(cb: Seq<u8>, i: int, acc: Seq<u8>) -> Option<Result<Seq<u8>, Seq<char>>>
    decreases cb.len() - i,
{
    if i < 0 || i + 2 > cb.len() {
        Some(Ok(acc))
    } else if !(crate::bytes::boundary(cb, i) && crate::bytes::boundary(cb, i + 2)) {
        None
    } else {
        let pair = decode_utf8(cb.subrange(i, i + 2));
        match hex_u8(pair) {
            Some(v) => hex_pairs(cb, i + 2, acc.push(v)),
            None => Some(Err("Invalid hex at position "@ + decimal(i as nat) + ": "@ + pair)),
        }
    }
}

/// What `hex_decode` gives: an error for an odd number of bytes once the
/// whitespace is dropped, else the pairs decoded; `None` where a pair would
/// be cut inside a char.
pub open spec fn hex_decoded(s: Seq<char>) -> Option<Result<Seq<u8>, Seq<char>>> {
    let cb = bytes_of(without_ws(s));
    if cb.len() % 2 != 0 {
        Some(Err("Hex string must have even length"@))
    } else {
        hex_pairs(cb, 0, seq![])
    }
}

/// Decodes hexadecimal digit pairs, whitespace ignored; the bytes must be
/// UTF-8.
pub fn hex_decode(input: &str) -> (res: Result<String, String>)
    requires
        hex_decoded(input@) is Some,
    ensures
        match hex_decoded(input@) {
            Some(Err(m)) => res matches Err(e) && e@ == m,
            Some(Ok(b)) => match (res, utf8_result(b)) {
                (Ok(t), Ok(u)) => t@ == u,
                (Err(e), Err(u)) => e@ == u,
                _ => false,
            },
            None => false,
        },
{
    let cs = str_chars(input);
    let mut clean = String::new();
    let mut k: usize = 0;
    while k < cs.len()
        invariant
            k <= cs@.len(),
            cs@ == input@,
            clean@ == without_ws(cs@.take(k as int)),
        decreases cs.len() - k,
    {
        assert(cs@.take(k + 1).drop_last() =~= cs@.take(k as int));
        if !crate::text::is_whitespace(cs[k]) {
            push_char(&mut clean, cs[k]);
        }
        k = k + 1;
    }
    assert(cs@.take(cs@.len() as int) =~= cs@);
    let cb = clean.as_str().as_bytes();
    let n = cb.len();
    if n % 2 != 0 {
        return Err(String::from_str("Hex string must have even length"));
    }
    let mut out: Vec<u8> = Vec::new();
    let mut i: usize = 0;
    while n - i >= 2
        invariant
            i <= n == cb@.len(),
            n % 2 == 0,
            i % 2 == 0,
            cb@ == bytes_of(clean@),
            hex_decoded(input@) == hex_pairs(cb@, i as int, out@),
            hex_pairs(cb@, i as int, out@) is Some,
        decreases n - i,
    {
        let s1 = crate::bytes::str_byte_range(clean.as_str(), i, i + 2);
        let pc = str_chars(s1.as_str());
        proof {
            vstd::utf8::encode_utf8_decode_utf8(s1@);
        }
        match hex_u8_exec(pc.as_slice()) {
            Some(v) => {
                out.push(v);
                i = i + 2;
            },
            None => {
                let mut msg = String::from_str("Invalid hex at position ");
                push_decimal(&mut msg, i as u64);
                msg.append(": ");
                msg.append(s1.as_str());
                return Err(msg);
            },
        }
    }
    text_of_bytes(out)
}

// ---------------------------------------------------------------------------
// Base64, through the `base64` crate
// ---------------------------------------------------------------------------

/// What the standard Base64 engine (with padding) encodes bytes to.
pub uninterp spec fn base64_text(b: Seq<u8>) -> Seq<char>;

/// What the standard Base64 engine decodes a text to: the bytes, or the
/// message of its decode error.
pub uninterp spec fn base64_bytes(s: Seq<char>) -> Result<Seq<u8>, Seq<char>>;

/// A character of the standard Base64 alphabet, or the padding `=`.
pub open spec fn base64_char(c: char) -> bool {
    ('A' <= c <= 'Z') || ('a' <= c <= 'z') || ('0' <= c <= '9') || c == '+' || c == '/' || c == '='
}

/// Whether every character is of the Base64 alphabet or padding.
pub open spec fn all_base64_chars(t: Seq<char>) -> bool {
    forall|i: int| 0 <= i < t.len() ==> base64_char(#[trigger] t[i])
}

/// `base64::engine::general_purpose::STANDARD.encode`: the named encoding,
/// written in the standard alphabet with `=` padding, which the same
/// engine decodes back to the bytes. It panics when the encoded length
/// overflows `usize`, which the bound rules out.
#[verifier::external_body]
fn base64_encode_bytes(b: &[u8]) -> (res: String)
    requires
        b@.len() <= usize::MAX / 2,
    ensures
        res@ == base64_text(b@),
        all_base64_chars(res@),
        base64_bytes(res@) is Ok && base64_bytes(res@)->Ok_0 == b@,
{
    base64::Engine::encode(&base64::engine::general_purpose::STANDARD, b)
}

/// `base64::engine::general_purpose::STANDARD.decode`: the named result,
/// the error as its message.
#[verifier::external_body]
fn base64_decode_text(s: &str) -> (res: Result<Vec<u8>, String>)
    ensures
        match (res, base64_bytes(s@)) {
            (Ok(v), Ok(b)) => v@ == b,
            (Err(m), Err(e)) => m@ == e,
            _ => false,
        },
{
    match base64::Engine::decode(&base64::engine::general_purpose::STANDARD, s) {
        Ok(v) => Ok(v),
        Err(e) => Err(e.to_string()),
    }
}

/// The standard Base64 encoding (with padding) of the text's UTF-8 bytes.
/// Decoding it, surrounding whitespace ignored, gives the bytes back, and
/// they are the text's UTF-8: `base64_decode(base64_encode(s))` is `s`.
pub fn base64_encode(input: &str) -> (res: String)
    requires
        bytes_of(input@).len() <= usize::MAX / 2,
    ensures
        res@ == base64_text(bytes_of(input@)),
        base64_bytes(trim(res@)) == Ok::<Seq<u8>, Seq<char>>(bytes_of(input@)),
        utf8_result(bytes_of(input@)) == Ok::<Seq<char>, Seq<char>>(input@),
{
    let r = base64_encode_bytes(input.as_bytes());
    proof {
        let t = r@;
        if t.len() > 0 {
            assert(base64_char(t[0]));
            assert(base64_char(t.last()));
            assert(!crate::text::is_ws(t[0]));
            assert(!crate::text::is_ws(t.last()));
        }
        assert(crate::text::trim_start(t) == t);
        assert(trim(t) == t);
        encode_utf8_valid_utf8(input@);
        encode_utf8_decode_utf8(input@);
    }
    r
}

/// Decodes standard Base64, surrounding whitespace ignored; the bytes must
/// be UTF-8.
pub fn base64_decode(input: &str) -> (res: Result<String, String>)
    ensures
        match base64_bytes(trim(input@)) {
            Err(m) => res matches Err(e) && e@ == "Base64 decode error: "@ + m,
            Ok(b) => match (res, utf8_result(b)) {
                (Ok(t), Ok(u)) => t@ == u,
                (Err(e), Err(u)) => e@ == u,
                _ => false,
            },
        },
{
    let cs = str_chars(input);
    let t = crate::text::trimmed_chars(cs.as_slice());
    let ts = crate::text::string_from_chars(t.as_slice());
    match base64_decode_text(ts.as_str()) {
        Ok(bytes) => text_of_bytes(bytes),
        Err(m) => {
            let mut out = String::from_str("Base64 decode error: ");
            out.append(m.as_str());
            Err(out)
        },
    }
}

// ---------------------------------------------------------------------------
// Decoding what was encoded
// ---------------------------------------------------------------------------

/// A hexadecimal digit is ASCII, no whitespace, and reads back as its
/// value.
proof fn lemma_hex_char(v: int, upper: bool)
    requires
        0 <= v < 16,
    ensures
        hex_digit_value(hex_char(v, upper)) == v,
        (hex_char(v, upper) as u32) < 128,
        '\0' <= hex_char(v, upper) <= '\u{7f}',
        (hex_char(v, upper) as u8) as char == hex_char(v, upper),
        !crate::text::is_ws(hex_char(v, upper)),
{
    let c = hex_char(v, upper);
    let code: u32 = if v < 10 {
        (v + 48) as u32
    } else if upper {
        (v - 10 + 65) as u32
    } else {
        (v - 10 + 97) as u32
    };
    assert(c == code as char);
    assert(c as u32 == code);
    assert(c as u8 == code as u8);
    assert((code as u8) as char == c);
}

/// The two hexadecimal digits of a byte read back as the byte.
proof fn lemma_hex2_reads_back(x: u8, upper: bool)
    ensures
        hex_u8(hex2(x, upper)) == Some(x),
{
    let h = hex2(x, upper);
    lemma_hex_char((x / 16) as int, upper);
    lemma_hex_char((x % 16) as int, upper);
    assert(h[0] != '+');
    assert(all_hex(h));
    assert(h.drop_last() =~= seq![h[0]]);
    assert(seq![h[0]].drop_last() =~= Seq::<char>::empty());
    assert(crate::num::hex_value(Seq::<char>::empty()) == 0);
    assert(crate::num::hex_value(seq![h[0]]) == (x / 16) as nat);
    assert(crate::num::hex_value(h) == x as nat);
}

/// How percent-encoding writes one byte.
pub open spec fn percent_byte(x: u8) -> Seq<char> {
    if url_safe(x) {
        seq![x as char]
    } else {
        seq!['%'] + hex2(x, true)
    }
}

proof fn lemma_percent_push(bs: Seq<u8>, x: u8)
    ensures
        percent_encoded(bs.push(x)) == percent_encoded(bs) + percent_byte(x),
{
    assert(bs.push(x).drop_last() =~= bs);
    assert(bs.push(x).last() == x);
    if url_safe(x) {
        assert(percent_encoded(bs).push(x as char) =~= percent_encoded(bs) + seq![x as char]);
    } else {
        assert(percent_encoded(bs) + seq!['%'] + hex2(x, true) =~= percent_encoded(bs) + (seq!['%'] + hex2(
            x,
            true,
        )));
    }
}

/// The encoding of a prefix is a prefix of the encoding.
proof fn lemma_percent_prefix(bs: Seq<u8>, k: int)
    requires
        0 <= k <= bs.len(),
    ensures
        percent_encoded(bs.take(k)).len() <= percent_encoded(bs).len(),
        percent_encoded(bs).take(percent_encoded(bs.take(k)).len() as int) == percent_encoded(bs.take(k)),
    decreases bs.len() - k,
{
    if k == bs.len() {
        assert(bs.take(k) =~= bs);
        assert(percent_encoded(bs).take(percent_encoded(bs).len() as int) =~= percent_encoded(bs));
    } else {
        lemma_percent_prefix(bs, k + 1);
        assert(bs.take(k + 1) =~= bs.take(k).push(bs[k]));
        lemma_percent_push(bs.take(k), bs[k]);
        assert(percent_encoded(bs).take(percent_encoded(bs.take(k)).len() as int) =~= percent_encoded(
            bs.take(k),
        ));
    }
}

/// Percent-encoding writes only ASCII characters.
proof fn lemma_percent_ascii(bs: Seq<u8>)
    ensures
        is_ascii_chars(percent_encoded(bs)),
    decreases bs.len(),
{
    if bs.len() > 0 {
        let init = bs.drop_last();
        let x = bs.last();
        lemma_percent_ascii(init);
        assert(init.push(x) =~= bs);
        lemma_percent_push(init, x);
        let pb = percent_byte(x);
        if url_safe(x) {
            assert((x as char) as u32 == x as u32);
            assert('\0' <= (x as char) <= '\u{7f}');
        } else {
            lemma_hex_char((x / 16) as int, true);
            lemma_hex_char((x % 16) as int, true);
        }
        assert forall|i: int| 0 <= i < pb.len() implies '\0' <= #[trigger] pb[i] <= '\u{7f}' by {}
        let e = percent_encoded(bs);
        let ei = percent_encoded(init);
        assert forall|i: int| 0 <= i < e.len() implies '\0' <= #[trigger] e[i] <= '\u{7f}' by {
            if i < ei.len() {
                assert(e[i] == ei[i]);
            } else {
                assert(e[i] == pb[i - ei.len()]);
            }
        }
    }
}

/// Decoding the percent-encoding of `full` reaches, after the encoding of
/// its first `k` bytes, exactly those bytes.
proof fn lemma_percent_decodes(full: Seq<u8>, k: int)
    requires
        0 <= k <= full.len(),
    ensures
        percent_decoded(bytes_of(percent_encoded(full)), 0, seq![]) == percent_decoded(
            bytes_of(percent_encoded(full)),
            percent_encoded(full.take(k)).len() as int,
            full.take(k),
        ),
    decreases k,
{
    let c = percent_encoded(full);
    let b = bytes_of(c);
    lemma_percent_ascii(full);
    is_ascii_chars_encode_utf8(c);
    if k == 0 {
        assert(full.take(0) =~= Seq::<u8>::empty());
    } else {
        lemma_percent_decodes(full, k - 1);
        let x = full[k - 1];
        let pre = full.take(k - 1);
        assert(full.take(k) =~= pre.push(x));
        lemma_percent_push(pre, x);
        lemma_percent_prefix(full, k);
        let p = percent_encoded(pre).len() as int;
        let pb = percent_byte(x);
        let ek = percent_encoded(full.take(k));
        assert(ek == percent_encoded(pre) + pb);
        assert forall|j: int| 0 <= j < pb.len() implies #[trigger] c[p + j] == pb[j] by {
            assert(c.take(ek.len() as int)[p + j] == ek[p + j]);
            assert(ek[p + j] == pb[j]);
        }
        if url_safe(x) {
            assert(c[p + 0] == pb[0]);
            assert(c[p] == x as char);
            assert(b[p] == c[p] as u8);
            assert((x as char) as u8 == x);
            assert(b[p] == x);
            assert(percent_decoded(b, p, pre) == percent_decoded(b, p + 1, pre.push(x)));
        } else {
            lemma_hex_char((x / 16) as int, true);
            lemma_hex_char((x % 16) as int, true);
            lemma_hex2_reads_back(x, true);
            let h = hex2(x, true);
            assert(c[p + 0] == pb[0]);
            assert(c[p + 1] == pb[1]);
            assert(c[p + 2] == pb[2]);
            assert(c[p] == '%');
            assert(b[p] == 0x25);
            assert(c[p + 1] == h[0] && c[p + 2] == h[1]);
            assert(b[p + 1] as char == h[0]);
            assert(b[p + 2] as char == h[1]);
            assert(seq![b[p + 1] as char, b[p + 2] as char] =~= h);
            assert(percent_decoded(b, p, pre) == percent_decoded(b, p + 3, pre.push(x)));
        }
    }
}

/// Percent-decoding the percent-encoding of a text gives its bytes back,
/// and those bytes are the text's UTF-8: `url_decode(url_encode(s))` is `s`.
pub proof fn law_url_round_trip(s: Seq<char>)
    ensures
        percent_decoded(bytes_of(percent_encoded(bytes_of(s))), 0, seq![]) == Ok::<Seq<u8>, Seq<char>>(
            bytes_of(s),
        ),
        utf8_result(bytes_of(s)) == Ok::<Seq<char>, Seq<char>>(s),
{
    let full = bytes_of(s);
    lemma_percent_decodes(full, full.len() as int);
    assert(full.take(full.len() as int) =~= full);
    lemma_percent_ascii(full);
    is_ascii_chars_encode_utf8(percent_encoded(full));
    encode_utf8_valid_utf8(s);
    encode_utf8_decode_utf8(s);
}

/// The hexadecimal digits of a prefix are a prefix of the digits.
proof fn lemma_hex_prefix(bs: Seq<u8>, k: int)
    requires
        0 <= k <= bs.len(),
    ensures
        hex_of(bs.take(k), false).len() == 2 * k,
        hex_of(bs, false).len() == 2 * bs.len(),
        hex_of(bs, false).take(2 * k) == hex_of(bs.take(k), false),
    decreases bs.len() - k,
{
    if k == bs.len() {
        assert(bs.take(k) =~= bs);
        lemma_hex_len(bs);
        assert(hex_of(bs, false).take(2 * k) =~= hex_of(bs, false));
    } else {
        lemma_hex_prefix(bs, k + 1);
        assert(bs.take(k + 1).drop_last() =~= bs.take(k));
        assert(hex_of(bs, false).take(2 * k) =~= hex_of(bs.take(k), false));
    }
}

proof fn lemma_hex_len(bs: Seq<u8>)
    ensures
        hex_of(bs, false).len() == 2 * bs.len(),
    decreases bs.len(),
{
    if bs.len() > 0 {
        lemma_hex_len(bs.drop_last());
    }
}

/// Hexadecimal digits are ASCII and no whitespace.
proof fn lemma_hex_ascii(bs: Seq<u8>)
    ensures
        is_ascii_chars(hex_of(bs, false)),
        forall|i: int| 0 <= i < hex_of(bs, false).len() ==> !crate::text::is_ws(#[trigger] hex_of(bs, false)[i]),
    decreases bs.len(),
{
    if bs.len() > 0 {
        let init = bs.drop_last();
        let x = bs.last();
        lemma_hex_ascii(init);
        lemma_hex_char((x / 16) as int, false);
        lemma_hex_char((x % 16) as int, false);
        let e = hex_of(bs, false);
        let ei = hex_of(init, false);
        assert forall|i: int| 0 <= i < e.len() implies '\0' <= #[trigger] e[i] <= '\u{7f}' && !crate::text::is_ws(
            e[i],
        ) by {
            if i < ei.len() {
                assert(e[i] == ei[i]);
            } else {
                assert(e[i] == hex2(x, false)[i - ei.len()]);
            }
        }
    }
}

/// Dropping whitespace from a text without any keeps it.
proof fn lemma_without_ws_none(s: Seq<char>)
    requires
        forall|i: int| 0 <= i < s.len() ==> !crate::text::is_ws(#[trigger] s[i]),
    ensures
        without_ws(s) == s,
    decreases s.len(),
{
    if s.len() > 0 {
        lemma_without_ws_none(s.drop_last());
        assert(s.drop_last().push(s.last()) =~= s);
    }
}

/// Decoding the hexadecimal digits of `full` reaches, after the digits of
/// its first `k` bytes, exactly those bytes.
proof fn lemma_hex_decodes(full: Seq<u8>, k: int)
    requires
        0 <= k <= full.len(),
    ensures
        hex_pairs(bytes_of(hex_of(full, false)), 0, seq![]) == hex_pairs(
            bytes_of(hex_of(full, false)),
            2 * k,
            full.take(k),
        ),
    decreases k,
{
    let c = hex_of(full, false);
    let b = bytes_of(c);
    lemma_hex_ascii(full);
    is_ascii_chars_encode_utf8(c);
    lemma_hex_prefix(full, k);
    if k == 0 {
        assert(full.take(0) =~= Seq::<u8>::empty());
    } else {
        lemma_hex_decodes(full, k - 1);
        lemma_hex_prefix(full, k - 1);
        let x = full[k - 1];
        let pre = full.take(k - 1);
        assert(full.take(k) =~= pre.push(x));
        assert(full.take(k).drop_last() =~= pre);
        let p = 2 * (k - 1);
        let h = hex2(x, false);
        assert(hex_of(full.take(k), false) == hex_of(pre, false) + h);
        assert(c.take(2 * k)[p] == c[p]);
        assert(c.take(2 * k)[p + 1] == c[p + 1]);
        assert(c[p] == h[0] && c[p + 1] == h[1]);
        lemma_hex_char((x / 16) as int, false);
        lemma_hex_char((x % 16) as int, false);
        lemma_hex2_reads_back(x, false);
        assert(!crate::bytes::is_cont(b[p]));
        assert(p + 2 < b.len() ==> !crate::bytes::is_cont(b[p + 2]));
        let two = c.subrange(p, p + 2);
        assert(two =~= h);
        is_ascii_chars_encode_utf8(two);
        assert(b.subrange(p, p + 2) =~= bytes_of(two));
        vstd::utf8::encode_utf8_decode_utf8(two);
        assert(hex_pairs(b, p, pre) == hex_pairs(b, p + 2, pre.push(x)));
    }
}

/// Decoding the hexadecimal digits of a text gives its bytes back, and
/// those bytes are the text's UTF-8: `hex_decode(hex_encode(s))` is `s`.
pub proof fn law_hex_round_trip(s: Seq<char>)
    ensures
        hex_decoded(hex_of(bytes_of(s), false)) == Some(Ok::<Seq<u8>, Seq<char>>(bytes_of(s))),
        utf8_result(bytes_of(s)) == Ok::<Seq<char>, Seq<char>>(s),
{
    let full = bytes_of(s);
    let c = hex_of(full, false);
    lemma_hex_ascii(full);
    lemma_without_ws_none(c);
    lemma_hex_len(full);
    is_ascii_chars_encode_utf8(c);
    lemma_hex_decodes(full, full.len() as int);
    assert(full.take(full.len() as int) =~= full);
    encode_utf8_valid_utf8(s);
    encode_utf8_decode_utf8(s);
}

/// The entity names the encoder writes.
pub open spec fn entity_name(c: char) -> Seq<char> {
    if c == '&' {
        seq!['a', 'm', 'p']
    } else if c == '<' {
        seq!['l', 't']
    } else if c == '>' {
        seq!['g', 't']
    } else if c == '"' {
        seq!['q', 'u', 'o', 't']
    } else {
        seq!['a', 'p', 'o', 's']
    }
}

/// A special character is written as `&`, its entity name and `;`.
proof fn lemma_entity_of(c: char)
    ensures
        (c == '&' || c == '<' || c == '>' || c == '"' || c == '\'') ==> entity_of(c) == seq!['&']
            + entity_name(c) + seq![';'],
        !(c == '&' || c == '<' || c == '>' || c == '"' || c == '\'') ==> entity_of(c) == seq![c],
{
    reveal_strlit("&amp;");
    reveal_strlit("&lt;");
    reveal_strlit("&gt;");
    reveal_strlit("&quot;");
    reveal_strlit("&apos;");
    assert("&amp;"@ =~= seq!['&'] + seq!['a', 'm', 'p'] + seq![';']);
    assert("&lt;"@ =~= seq!['&'] + seq!['l', 't'] + seq![';']);
    assert("&gt;"@ =~= seq!['&'] + seq!['g', 't'] + seq![';']);
    assert("&quot;"@ =~= seq!['&'] + seq!['q', 'u', 'o', 't'] + seq![';']);
    assert("&apos;"@ =~= seq!['&'] + seq!['a', 'p', 'o', 's'] + seq![';']);
}

/// Scanning an entity whose name lies at `j` reads the name up to its `;`.
proof fn lemma_scan_name(s: Seq<char>, j: int, name: Seq<char>, m: int)
    requires
        0 <= m <= name.len() <= 4,
        forall|t: int| 0 <= t < name.len() ==> '\0' <= #[trigger] name[t] <= '\u{7f}' && name[t] != ';',
        0 <= j,
        j + name.len() - m < s.len(),
        forall|t: int| 0 <= t < name.len() - m ==> s[j + t] == #[trigger] name[m + t],
        s[j + name.len() - m] == ';',
    ensures
        scan_entity(s, j, name.take(m)) == (name, true, j + name.len() - m + 1),
    decreases name.len() - m,
{
    if m == name.len() {
        assert(name.take(m) =~= name);
    } else {
        assert(s[j + 0] == name[m + 0]);
        let e2 = name.take(m).push(name[m]);
        assert(e2 =~= name.take(m + 1));
        assert(is_ascii_chars(e2));
        is_ascii_chars_encode_utf8(e2);
        assert forall|t: int| 0 <= t < name.len() - (m + 1) implies s[(j + 1) + t] == #[trigger] name[(m + 1)
            + t] by {
            assert(s[j + (t + 1)] == name[m + (t + 1)]);
        }
        lemma_scan_name(s, j + 1, name, m + 1);
    }
}

/// The HTML form of a prefix is a prefix of the HTML form.
proof fn lemma_entities_prefix(s: Seq<char>, k: int)
    requires
        0 <= k <= s.len(),
    ensures
        entities_encoded(s.take(k)).len() <= entities_encoded(s).len(),
        entities_encoded(s).take(entities_encoded(s.take(k)).len() as int) == entities_encoded(s.take(k)),
    decreases s.len() - k,
{
    if k == s.len() {
        assert(s.take(k) =~= s);
        assert(entities_encoded(s).take(entities_encoded(s).len() as int) =~= entities_encoded(s));
    } else {
        lemma_entities_prefix(s, k + 1);
        assert(s.take(k + 1).drop_last() =~= s.take(k));
        assert(entities_encoded(s).take(entities_encoded(s.take(k)).len() as int) =~= entities_encoded(
            s.take(k),
        ));
    }
}

/// One step of decoding the HTML form of `s`: the form of `s[k]`, found
/// where the form of `s.take(k)` ends, decodes to `s[k]`.
proof fn lemma_entities_step(s: Seq<char>, k: int)
    requires
        0 <= k < s.len(),
    ensures
        entities_decoded(entities_encoded(s), entities_encoded(s.take(k)).len() as int) == seq![s[k]]
            + entities_decoded(entities_encoded(s), entities_encoded(s.take(k + 1)).len() as int),
{
    let e = entities_encoded(s);
    lemma_entities_prefix(s, k + 1);
    let x = s[k];
    let pre = s.take(k);
    assert(s.take(k + 1).drop_last() =~= pre);
    let p = entities_encoded(pre).len() as int;
    let f = entity_of(x);
    let ek = entities_encoded(s.take(k + 1));
    assert(ek == entities_encoded(pre) + f);
    assert forall|j: int| 0 <= j < f.len() implies #[trigger] e[p + j] == f[j] by {
        assert(e.take(ek.len() as int)[p + j] == ek[p + j]);
        assert(ek[p + j] == f[j]);
    }
    lemma_entity_of(x);
    assert(e[p + 0] == f[0]);
    if x == '&' || x == '<' || x == '>' || x == '"' || x == '\'' {
        let name = entity_name(x);
        assert(e[p] == '&');
        assert forall|t: int| 0 <= t < name.len() - 0 implies e[(p + 1) + t] == #[trigger] name[0 + t] by {
            assert(e[p + (t + 1)] == f[t + 1]);
        }
        assert(e[p + (name.len() + 1)] == f[name.len() + 1int]);
        assert(name.take(0) =~= Seq::<char>::empty());
        lemma_scan_name(e, p + 1, name, 0);
        assert(entity_text(name) == seq![x]);
    }
}

/// Decoding the HTML form of `s` gives, after the form of its first `k`
/// characters, those characters.
proof fn lemma_entities_decode(s: Seq<char>, k: int)
    requires
        0 <= k <= s.len(),
    ensures
        entities_decoded(entities_encoded(s), 0) == s.take(k) + entities_decoded(
            entities_encoded(s),
            entities_encoded(s.take(k)).len() as int,
        ),
    decreases k,
{
    let e = entities_encoded(s);
    if k == 0 {
        assert(s.take(0) + entities_decoded(e, 0) =~= entities_decoded(e, 0));
    } else {
        lemma_entities_decode(s, k - 1);
        lemma_entities_step(s, k - 1);
        let rest = entities_decoded(e, entities_encoded(s.take(k)).len() as int);
        assert(s.take(k) =~= s.take(k - 1) + seq![s[k - 1]]);
        assert(s.take(k - 1) + (seq![s[k - 1]] + rest) =~= s.take(k) + rest);
    }
}

/// Decoding the HTML entities of a text's HTML form gives the text back:
/// `html_entity_decode(html_entity_encode(s))` is `s`.
pub proof fn law_html_round_trip(s: Seq<char>)
    ensures
        entities_decoded(entities_encoded(s), 0) == s,
{
    lemma_entities_decode(s, s.len() as int);
    assert(s.take(s.len() as int) =~= s);
    let e = entities_encoded(s);
    assert(entities_decoded(e, e.len() as int) == Seq::<char>::empty());
    assert(s + Seq::<char>::empty() =~= s);
}

} // verus!
