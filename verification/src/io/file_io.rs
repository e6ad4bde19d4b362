//! Encoding and line-ending detection and conversion for file contents.
use vstd::prelude::*;
use crate::bytes::bytes_of;
use crate::editor::document::{Encoding, LineEnding};
use crate::io::line_ending_detect::{count_line_endings, nl_counts, normalize_newlines, normalize_to_lf};
use crate::text::{replace_char, replace_char_exec, string_from_chars, str_chars};
use crate::bytes::{string_from_utf8, string_from_utf8_lossy, utf8_error_message, utf8_lossy};
use vstd::utf8::{
    codepoint_width_1, codepoint_width_3, decode_first_scalar, decode_utf8, encode_scalar, encode_utf8,
    char_u32_cast, encode_utf8_decode_utf8, encode_utf8_first_scalar, encode_utf8_valid_utf8, is_ascii_chars,
    pop_first_scalar, valid_utf8,
};

verus! {

/// The encoding a file's first bytes announce: a UTF-8, UTF-16 LE or
/// UTF-16 BE byte order mark; without one, ASCII when every byte is below
/// 128, else UTF-8.
pub open spec fn encoding_of(b: Seq<u8>) -> Encoding {
    if b.len() >= 3 && b[0] == 0xEF && b[1] == 0xBB && b[2] == 0xBF {
        Encoding::UTF8BOM
    } else if b.len() >= 2 && b[0] == 0xFF && b[1] == 0xFE {
        Encoding::UTF16LE
    } else if b.len() >= 2 && b[0] == 0xFE && b[1] == 0xFF {
        Encoding::UTF16BE
    } else if forall|i: int| 0 <= i < b.len() ==> b[i] < 128 {
        Encoding::ASCII
    } else {
        Encoding::UTF8
    }
}

/// Whether every byte is below 128.
fn all_ascii(bytes: &[u8]) -> (res: bool)
    ensures
        res == forall|i: int| 0 <= i < bytes@.len() ==> bytes@[i] < 128,
{
    let n = bytes.len();
    let mut i: usize = 0;
    while i < n
        invariant
            n == bytes@.len(),
            i <= n,
            forall|k: int| 0 <= k < i ==> bytes@[k] < 128,
        decreases n - i,
    {
        if bytes[i] >= 128 {
            assert(!(bytes@[i as int] < 128));
            return false;
        }
        i += 1;
    }
    true
}

/// Detects the encoding of file contents (see `encoding_of`).
pub fn detect_encoding(bytes: &[u8]) -> (res: Encoding)
    ensures
        res == encoding_of(bytes@),
{
    let n = bytes.len();
    if n >= 3 && bytes[0] == 0xEF && bytes[1] == 0xBB && bytes[2] == 0xBF {
        Encoding::UTF8BOM
    } else if n >= 2 && bytes[0] == 0xFF && bytes[1] == 0xFE {
        Encoding::UTF16LE
    } else if n >= 2 && bytes[0] == 0xFE && bytes[1] == 0xFF {
        Encoding::UTF16BE
    } else if all_ascii(bytes) {
        Encoding::ASCII
    } else {
        Encoding::UTF8
    }
}

/// The dominant line ending: CRLF when it is at least as frequent as lone
/// LF and lone CR and occurs at all; else CR when lone CR is more frequent
/// than lone LF and occurs; else LF.
pub open spec fn dominant_ending(b: Seq<u8>) -> LineEnding {
    let (crlf, lf, cr) = nl_counts(b);
    if crlf >= lf && crlf >= cr && crlf > 0 {
        LineEnding::CRLF
    } else if cr > lf && cr > 0 {
        LineEnding::CR
    } else {
        LineEnding::LF
    }
}

/// Detects the dominant line ending of a text (see `dominant_ending`).
pub fn detect_line_ending(text: &str) -> (res: LineEnding)
    ensures
        res == dominant_ending(bytes_of(text@)),
{
    let (crlf, lf, cr) = count_line_endings(text.as_bytes());
    if crlf >= lf && crlf >= cr && crlf > 0 {
        LineEnding::CRLF
    } else if cr > lf && cr > 0 {
        LineEnding::CR
    } else {
        LineEnding::LF
    }
}

/// The text with every line ending (CRLF, lone CR, lone LF) turned into
/// `target`.
pub open spec fn converted(text: Seq<char>, target: LineEnding) -> Seq<char> {
    let n = normalize_newlines(text);
    match target {
        LineEnding::LF => n,
        LineEnding::CRLF => replace_char(n, '\n', seq!['\r', '\n']),
        LineEnding::CR => replace_char(n, '\n', seq!['\r']),
    }
}

/// Converts every line ending of `text` to `target`.
pub fn convert_line_endings(text: &str, target: LineEnding) -> (res: String)
    ensures
        res@ == converted(text@, target),
{
    let chars = str_chars(text);
    let n = normalize_to_lf(chars.as_slice());
    let ns = string_from_chars(n.as_slice());
    match target {
        LineEnding::LF => ns,
        LineEnding::CRLF => {
            let t = "\r\n";
            proof {
                reveal_strlit("\r\n");
                assert(t@ =~= seq!['\r', '\n']);
            }
            replace_char_exec(ns.as_str(), '\n', t)
        },
        LineEnding::CR => {
            let t = "\r";
            proof {
                reveal_strlit("\r");
                assert(t@ =~= seq!['\r']);
            }
            replace_char_exec(ns.as_str(), '\n', t)
        },
    }
}

/// A control byte that plain text does not use: below 0x08, or between
/// 0x0E and 0x1F except ESC.
pub open spec fn non_text_byte(b: u8) -> bool {
    b < 0x08 || (0x0D < b < 0x20 && b != 0x1B)
}

/// The number of non-text bytes in `s`.
pub open spec fn non_text_count(s: Seq<u8>) -> nat
    decreases s.len(),
{
    if s.len() == 0 {
        0
    } else {
        non_text_count(s.drop_last()) + if non_text_byte(s.last()) {
            1nat
        } else {
            0nat
        }
    }
}

/// Whether contents look binary, judged on their first 8192 bytes: a NUL
/// byte, or more than a tenth of the sample made of non-text bytes.
pub open spec fn looks_binary(b: Seq<u8>) -> bool {
    let sample = b.take(sample_len(b));
    has_nul(sample) || 10 * non_text_count(sample) > (if sample.len() > 0 {
        sample.len()
    } else {
        1
    })
}

/// How many leading bytes are examined: at most 8192.
pub open spec fn sample_len(b: Seq<u8>) -> int {
    if b.len() < 8192 {
        b.len() as int
    } else {
        8192
    }
}

/// Whether `s` holds a NUL byte.
pub open spec fn has_nul(s: Seq<u8>) -> bool {
    exists|i: int| 0 <= i < s.len() && s[i] == 0
}

/// Whether contents look binary (see `looks_binary`). The share of non-text
/// bytes is compared exactly, in integers: with at most 8192 bytes in the
/// sample, no ratio lies close enough to a tenth for a floating-point
/// division to round across it.
pub fn is_binary_content(bytes: &[u8]) -> (res: bool)
    ensures
        res == looks_binary(bytes@),
{
    let n = if bytes.len() < 8192 {
        bytes.len()
    } else {
        8192
    };
    let ghost sample = bytes@.take(n as int);
    let mut i: usize = 0;
    let mut non_text: usize = 0;
    let mut has_nul = false;
    while i < n
        invariant
            n <= bytes@.len(),
            n <= 8192,
            sample == bytes@.take(n as int),
            i <= n,
            non_text == non_text_count(sample.take(i as int)),
            non_text <= i,
            has_nul == exists|k: int| 0 <= k < i && sample[k] == 0,
        decreases n - i,
    {
        let b = bytes[i];
        proof {
            assert(sample.take(i as int + 1).drop_last() == sample.take(i as int));
            assert(sample[i as int] == b);
        }
        if b == 0 {
            has_nul = true;
        }
        if b < 0x08 || (b > 0x0D && b < 0x20 && b != 0x1B) {
            non_text += 1;
        }
        i += 1;
    }
    proof {
        assert(sample.take(n as int) == sample);
        let spec_sample = bytes@.take(sample_len(bytes@));
        assert(spec_sample == sample);
        if has_nul {
            let k = choose|k: int| 0 <= k < n && sample[k] == 0;
            assert(spec_sample[k] == 0);
        }
    }
    let denom = if n > 0 {
        n
    } else {
        1
    };
    has_nul || 10 * non_text > denom
}

// ---------------------------------------------------------------------------
// UTF-16
// ---------------------------------------------------------------------------

/// The 16-bit units of bytes taken in pairs, little- or big-endian.
pub open spec fn utf16_units(b: Seq<u8>, little: bool) -> Seq<u16> {
    Seq::new(
        b.len() / 2,
        |i: int|
            (if little {
                b[2 * i] as int + 256 * b[2 * i + 1] as int
            } else {
                256 * b[2 * i] as int + b[2 * i + 1] as int
            }) as u16,
    )
}

/// The two bytes of a unit, little- or big-endian.
pub open spec fn unit_bytes(x: u16, little: bool) -> Seq<u8> {
    if little {
        seq![(x % 256) as u8, (x / 256) as u8]
    } else {
        seq![(x / 256) as u8, (x % 256) as u8]
    }
}

/// The bytes of 16-bit units, two per unit.
pub open spec fn utf16_bytes(u: Seq<u16>, little: bool) -> Seq<u8>
    decreases u.len(),
{
    if u.len() == 0 {
        Seq::empty()
    } else {
        utf16_bytes(u.drop_last(), little) + unit_bytes(u.last(), little)
    }
}

/// UTF-16 decoding: a unit outside the surrogates is its own character; a
/// high surrogate followed by a low one is the character they encode;
/// anything else is invalid (`None`).
pub open spec fn utf16_decode(u: Seq<u16>) -> Option<Seq<char>>
    decreases u.len(),
{
    if u.len() == 0 {
        Some(Seq::empty())
    } else if u[0] < 0xD800 || u[0] >= 0xE000 {
        match utf16_decode(u.drop_first()) {
            Some(t) => Some(seq![u[0] as char] + t),
            None => None,
        }
    } else if u[0] < 0xDC00 && u.len() >= 2 && 0xDC00 <= u[1] < 0xE000 {
        match utf16_decode(u.skip(2)) {
            Some(t) => Some(seq![(0x10000 + (u[0] - 0xD800) * 0x400 + (u[1] - 0xDC00)) as char] + t),
            None => None,
        }
    } else {
        None
    }
}

/// The UTF-16 units of a character: itself below 0x10000, else a high and
/// a low surrogate.
pub open spec fn char_units(c: char) -> Seq<u16> {
    let v = c as u32;
    if v < 0x10000 {
        seq![v as u16]
    } else {
        seq![(0xD800 + (v - 0x10000) / 0x400) as u16, (0xDC00 + (v - 0x10000) % 0x400) as u16]
    }
}

/// UTF-16 encoding of a text.
pub open spec fn utf16_encode(s: Seq<char>) -> Seq<u16>
    decreases s.len(),
{
    if s.len() == 0 {
        Seq::empty()
    } else {
        char_units(s[0]) + utf16_encode(s.drop_first())
    }
}

/// `String::from_utf16`: the text of valid UTF-16 units (see
/// `utf16_decode`), `None` where they are not.
#[verifier::external_body]
fn string_from_utf16(u: &[u16]) -> (r: Option<String>)
    ensures
        match utf16_decode(u@) {
            Some(t) => r matches Some(s) && s@ == t,
            None => r is None,
        },
{
    String::from_utf16(u).ok()
}

/// `str::encode_utf16`, collected: the UTF-16 units of the text (see
/// `utf16_encode`).
#[verifier::external_body]
fn str_encode_utf16(s: &str) -> (r: Vec<u16>)
    ensures
        r@ == utf16_encode(s@),
{
    s.encode_utf16().collect()
}

proof fn lemma_utf16_bytes(u: Seq<u16>, little: bool)
    ensures
        utf16_bytes(u, little).len() == 2 * u.len(),
        forall|i: int| 0 <= i < u.len() ==> utf16_bytes(u, little)[2 * i] == unit_bytes(#[trigger] u[i], little)[0]
            && utf16_bytes(u, little)[2 * i + 1] == unit_bytes(u[i], little)[1],
    decreases u.len(),
{
    if u.len() > 0 {
        lemma_utf16_bytes(u.drop_last(), little);
        assert forall|i: int| 0 <= i < u.len() implies utf16_bytes(u, little)[2 * i] == unit_bytes(
            #[trigger] u[i],
            little,
        )[0] && utf16_bytes(u, little)[2 * i + 1] == unit_bytes(u[i], little)[1] by {
            if i < u.len() - 1 {
                assert(u.drop_last()[i] == u[i]);
            }
        }
    }
}

/// Units written as bytes read back as the units.
proof fn lemma_units_round_trip(u: Seq<u16>, little: bool)
    ensures
        utf16_units(utf16_bytes(u, little), little) == u,
{
    lemma_utf16_bytes(u, little);
    let b = utf16_bytes(u, little);
    assert forall|i: int| 0 <= i < u.len() implies #[trigger] utf16_units(b, little)[i] == u[i] by {
        let x = u[i];
        assert(b[2 * i] == unit_bytes(x, little)[0]);
        assert(b[2 * i + 1] == unit_bytes(x, little)[1]);
        assert(((x % 256) as u8) as int + 256 * ((x / 256) as u8) as int == x as int);
    }
    assert(utf16_units(b, little) =~= u);
}

/// A character's units decode to it, in front of whatever follows.
proof fn lemma_char_units_decode(c: char, rest: Seq<u16>)
    ensures
        utf16_decode(char_units(c) + rest) == (match utf16_decode(rest) {
            Some(t) => Some(seq![c] + t),
            None => None::<Seq<char>>,
        }),
{
    let v = c as u32;
    vstd::utf8::char_is_scalar(c);
    let u = char_units(c) + rest;
    if v < 0x10000 {
        assert(u.drop_first() =~= rest);
        char_u32_cast(c, v);
        assert((v as u16) as char == c);
    } else {
        let w = v - 0x10000;
        assert(w == (w / 0x400) * 0x400 + w % 0x400) by (nonlinear_arith);
        assert(w / 0x400 < 0x400) by (nonlinear_arith)
            requires
                w <= 0xFFFFF,
        ;
        assert(u.skip(2) =~= rest);
        char_u32_cast(c, v);
        assert((0x10000 + ((0xD800 + w / 0x400) as u16 - 0xD800) * 0x400 + ((0xDC00 + w % 0x400) as u16 - 0xDC00))
            == v);
    }
}

/// Encoding a text as UTF-16 and decoding it gives the text back.
proof fn lemma_utf16_round_trip(s: Seq<char>)
    ensures
        utf16_decode(utf16_encode(s)) == Some(s),
    decreases s.len(),
{
    if s.len() > 0 {
        lemma_utf16_round_trip(s.drop_first());
        lemma_char_units_decode(s[0], utf16_encode(s.drop_first()));
        assert(seq![s[0]] + s.drop_first() =~= s);
    }
}

// ---------------------------------------------------------------------------
// File contents to text and back
// ---------------------------------------------------------------------------

/// Why file contents could not be taken as text.
#[derive(Debug, Clone, Copy, PartialEq, Eq, Structural)]
pub enum ContentErrorKind {
    /// The bytes after a byte order mark are not valid UTF-8 or UTF-16.
    InvalidData,
}

/// The text of a file's contents: the encoding detected (see
/// `encoding_of`); after a UTF-8 byte order mark the rest must be UTF-8;
/// after a UTF-16 one the rest must be whole UTF-16 units (little- or
/// big-endian) of valid UTF-16; otherwise invalid bytes are replaced
/// (lossy). The line ending is detected on the text.
pub open spec fn decoded_contents(b: Seq<u8>) -> Result<(Seq<char>, Encoding, LineEnding), (ContentErrorKind, Seq<char>)> {
    let enc = encoding_of(b);
    match enc {
        Encoding::UTF8BOM => {
            let rest = b.skip(3);
            if valid_utf8(rest) {
                let t = decode_utf8(rest);
                Ok((t, enc, dominant_ending(bytes_of(t))))
            } else {
                Err((ContentErrorKind::InvalidData, utf8_error_message(rest)))
            }
        },
        Encoding::UTF16LE | Encoding::UTF16BE => {
            let rest = b.skip(2);
            if rest.len() % 2 != 0 {
                Err((ContentErrorKind::InvalidData, "UTF-16 data has an odd number of bytes"@))
            } else {
                match utf16_decode(utf16_units(rest, enc == Encoding::UTF16LE)) {
                    Some(t) => Ok((t, enc, dominant_ending(bytes_of(t)))),
                    None => Err((ContentErrorKind::InvalidData, "Invalid UTF-16 data"@)),
                }
            }
        },
        _ => {
            let t = if valid_utf8(b) {
                decode_utf8(b)
            } else {
                utf8_lossy(b)
            };
            Ok((t, enc, dominant_ending(bytes_of(t))))
        },
    }
}

/// Takes a file's contents as text (see `decoded_contents`).
pub fn decode_file_contents(bytes: Vec<u8>) -> (res: Result<(String, Encoding, LineEnding), (ContentErrorKind, String)>)
    ensures
        match (res, decoded_contents(bytes@)) {
            (Ok((t, e, l)), Ok((t2, e2, l2))) => t@ == t2 && e == e2 && l == l2,
            (Err((k, m)), Err((k2, m2))) => k == k2 && m@ == m2,
            _ => false,
        },
{
    let encoding = detect_encoding(bytes.as_slice());
    let text = match encoding {
        Encoding::UTF8BOM => {
            let mut rest: Vec<u8> = Vec::new();
            let mut i: usize = 3;
            while i < bytes.len()
                invariant
                    3 <= i <= bytes@.len(),
                    rest@ == bytes@.subrange(3, i as int),
                decreases bytes.len() - i,
            {
                rest.push(bytes[i]);
                i = i + 1;
            }
            assert(rest@ =~= bytes@.skip(3));
            match string_from_utf8(rest) {
                Ok(t) => t,
                Err(m) => return Err((ContentErrorKind::InvalidData, m)),
            }
        },
        Encoding::UTF16LE | Encoding::UTF16BE => {
            let little = encoding == Encoding::UTF16LE;
            let n = bytes.len();
            if (n - 2) % 2 != 0 {
                return Err(
                    (ContentErrorKind::InvalidData, String::from_str("UTF-16 data has an odd number of bytes")),
                );
            }
            let ghost rest = bytes@.skip(2);
            let mut units: Vec<u16> = Vec::new();
            let mut i: usize = 2;
            while i < n
                invariant
                    2 <= i <= n == bytes@.len(),
                    (i - 2) % 2 == 0,
                    (n - 2) % 2 == 0,
                    rest == bytes@.skip(2),
                    units@ == utf16_units(rest, little).take((i - 2) / 2),
                decreases n - i,
            {
                let b0 = bytes[i] as u16;
                let b1 = bytes[i + 1] as u16;
                let x: u16 = if little {
                    b0 + 256 * b1
                } else {
                    256 * b0 + b1
                };
                units.push(x);
                proof {
                    let k = (i - 2) / 2;
                    assert(rest[2 * k] == bytes@[i as int]);
                    assert(rest[2 * k + 1] == bytes@[i + 1]);
                    assert(utf16_units(rest, little).take(k + 1) =~= utf16_units(rest, little).take(k).push(x));
                }
                i = i + 2;
            }
            proof {
                assert(utf16_units(rest, little).take((n - 2) / 2) =~= utf16_units(rest, little));
            }
            match string_from_utf16(units.as_slice()) {
                Some(t) => t,
                None => return Err((ContentErrorKind::InvalidData, String::from_str("Invalid UTF-16 data"))),
            }
        },
        _ => string_from_utf8_lossy(bytes.as_slice()),
    };
    let line_ending = detect_line_ending(text.as_str());
    Ok((text, encoding, line_ending))
}

/// The bytes written for a text: its line endings converted, then UTF-8,
/// after a byte order mark for UTF-8 BOM; for UTF-16 LE/BE the byte order
/// mark and the UTF-16 units, two bytes each in that order.
pub open spec fn encoded_contents(text: Seq<char>, encoding: Encoding, le: LineEnding) -> Result<Seq<u8>, Seq<char>> {
    let c = bytes_of(converted(text, le));
    match encoding {
        Encoding::UTF8BOM => Ok(seq![0xEFu8, 0xBBu8, 0xBFu8] + c),
        Encoding::UTF16LE => Ok(seq![0xFFu8, 0xFEu8] + utf16_bytes(utf16_encode(converted(text, le)), true)),
        Encoding::UTF16BE => Ok(seq![0xFEu8, 0xFFu8] + utf16_bytes(utf16_encode(converted(text, le)), false)),
        _ => Ok(c),
    }
}

/// The bytes to write for a text (see `encoded_contents`).
pub fn encode_file_contents(content: &str, encoding: Encoding, line_ending: LineEnding) -> (res: Result<Vec<u8>, String>)
    ensures
        match (res, encoded_contents(content@, encoding, line_ending)) {
            (Ok(v), Ok(b)) => v@ == b,
            (Err(m), Err(m2)) => m@ == m2,
            _ => false,
        },
{
    let converted_text = convert_line_endings(content, line_ending);
    let cb = converted_text.as_str().as_bytes();
    match encoding {
        Encoding::UTF8BOM => {
            let mut v: Vec<u8> = Vec::new();
            v.push(0xEF);
            v.push(0xBB);
            v.push(0xBF);
            let mut i: usize = 0;
            while i < cb.len()
                invariant
                    i <= cb@.len(),
                    v@ == seq![0xEFu8, 0xBBu8, 0xBFu8] + cb@.take(i as int),
                decreases cb.len() - i,
            {
                v.push(cb[i]);
                assert(cb@.take(i + 1) =~= cb@.take(i as int).push(cb@[i as int]));
                i = i + 1;
            }
            assert(cb@.take(cb@.len() as int) =~= cb@);
            Ok(v)
        },
        Encoding::UTF16LE | Encoding::UTF16BE => {
            let little = encoding == Encoding::UTF16LE;
            let units = str_encode_utf16(converted_text.as_str());
            let mut v: Vec<u8> = Vec::new();
            if little {
                v.push(0xFF);
                v.push(0xFE);
            } else {
                v.push(0xFE);
                v.push(0xFF);
            }
            let ghost bom = v@;
            let mut i: usize = 0;
            while i < units.len()
                invariant
                    i <= units@.len(),
                    v@ == bom + utf16_bytes(units@.take(i as int), little),
                decreases units.len() - i,
            {
                let x = units[i];
                let lo = (x % 256) as u8;
                let hi = (x / 256) as u8;
                if little {
                    v.push(lo);
                    v.push(hi);
                } else {
                    v.push(hi);
                    v.push(lo);
                }
                proof {
                    assert(units@.take(i + 1).drop_last() =~= units@.take(i as int));
                    assert(v@ =~= bom + utf16_bytes(units@.take(i + 1), little));
                }
                i = i + 1;
            }
            assert(units@.take(units@.len() as int) =~= units@);
            Ok(v)
        },
        _ => {
            let mut v: Vec<u8> = Vec::new();
            let mut i: usize = 0;
            while i < cb.len()
                invariant
                    i <= cb@.len(),
                    v@ == cb@.take(i as int),
                decreases cb.len() - i,
            {
                v.push(cb[i]);
                assert(cb@.take(i + 1) =~= cb@.take(i as int).push(cb@[i as int]));
                i = i + 1;
            }
            assert(cb@.take(cb@.len() as int) =~= cb@);
            Ok(v)
        },
    }
}

// ---------------------------------------------------------------------------
// Saving and opening again
// ---------------------------------------------------------------------------

/// `replace_char` of a concatenation is the concatenation of the two.
proof fn lemma_replace_char_concat(a: Seq<char>, b: Seq<char>, c: char, r: Seq<char>)
    ensures
        replace_char(a + b, c, r) == replace_char(a, c, r) + replace_char(b, c, r),
    decreases b.len(),
{
    if b.len() == 0 {
        assert(a + b =~= a);
        assert(replace_char(a, c, r) + seq![] =~= replace_char(a, c, r));
    } else {
        lemma_replace_char_concat(a, b.drop_last(), c, r);
        assert((a + b).drop_last() =~= a + b.drop_last());
        assert((a + b).last() == b.last());
        if b.last() == c {
            assert(replace_char(a, c, r) + replace_char(b.drop_last(), c, r) + r =~= replace_char(a, c, r) + (
            replace_char(b.drop_last(), c, r) + r));
        } else {
            assert((replace_char(a, c, r) + replace_char(b.drop_last(), c, r)).push(b.last()) =~= replace_char(
                a,
                c,
                r,
            ) + replace_char(b.drop_last(), c, r).push(b.last()));
        }
    }
}

/// The first character of a text with its line endings converted is the
/// first character of the text, or a line-break character.
proof fn lemma_converted_first(text: Seq<char>, le: LineEnding)
    ensures
        converted(text, le).len() > 0 ==> text.len() > 0 && (converted(text, le)[0] == text[0]
            || converted(text, le)[0] == '\n' || converted(text, le)[0] == '\r'),
{
    let n = normalize_newlines(text);
    assert(n.len() > 0 ==> text.len() > 0 && (n[0] == text[0] || n[0] == '\n'));
    if n.len() > 0 {
        let r: Seq<char> = if le == LineEnding::CRLF {
            seq!['\r', '\n']
        } else {
            seq!['\r']
        };
        lemma_replace_char_concat(seq![n[0]], n.drop_first(), '\n', r);
        assert(seq![n[0]] + n.drop_first() =~= n);
        let one = seq![n[0]];
        assert(one.drop_last() =~= Seq::<char>::empty());
        assert(replace_char(one, '\n', r) == (if n[0] == '\n' {
            r
        } else {
            seq![n[0]]
        })) by {
            assert(replace_char(Seq::<char>::empty(), '\n', r) == Seq::<char>::empty());
            assert(Seq::<char>::empty() + r =~= r);
            assert(Seq::<char>::empty().push(n[0]) =~= seq![n[0]]);
        }
    } else {
        assert(replace_char(n, '\n', seq!['\r', '\n']).len() == 0);
        assert(replace_char(n, '\n', seq!['\r']).len() == 0);
    }
}

/// A text whose UTF-8 bytes start with a byte order mark starts with
/// U+FEFF.
proof fn lemma_bom_bytes(c: Seq<char>)
    requires
        bytes_of(c).len() >= 3,
        bytes_of(c)[0] == 0xEF,
        bytes_of(c)[1] == 0xBB,
        bytes_of(c)[2] == 0xBF,
    ensures
        c.len() > 0,
        c[0] == '\u{FEFF}',
{
    let b = bytes_of(c);
    assert(c.len() > 0);
    encode_utf8_first_scalar(c);
    assert(codepoint_width_3(0xEFu8, 0xBBu8, 0xBFu8) == 0xFEFFu32) by (bit_vector);
    assert(decode_first_scalar(b) == 0xFEFFu32);
    assert(c[0] as u32 == 0xFEFFu32);
    assert('\u{FEFF}' as u32 == 0xFEFFu32);
    char_u32_cast(c[0], 0xFEFFu32);
    char_u32_cast('\u{FEFF}', 0xFEFFu32);
}

/// A character whose code is below 0x80 is ASCII.
proof fn lemma_ascii_char(c: char)
    requires
        (c as u32) < 0x80u32,
    ensures
        '\0' <= c <= '\u{7f}',
{
    if '\u{80}' <= c {
        assert((c as u32) >= 0x80u32);
    }
}

/// Valid UTF-8 never starts with the byte 0xFE or 0xFF.
proof fn lemma_no_utf16_mark(b: Seq<u8>)
    requires
        valid_utf8(b),
        b.len() > 0,
    ensures
        b[0] != 0xFE && b[0] != 0xFF,
{
}

/// The UTF-8 bytes of a text are all below 128 exactly when the text is
/// ASCII.
proof fn lemma_ascii_bytes(c: Seq<char>)
    ensures
        (forall|i: int| 0 <= i < bytes_of(c).len() ==> bytes_of(c)[i] < 128) <==> is_ascii_chars(c),
    decreases c.len(),
{
    let b = bytes_of(c);
    if c.len() > 0 {
        let rest = c.drop_first();
        lemma_ascii_bytes(rest);
        encode_utf8_first_scalar(c);
        let e = encode_scalar(c[0] as u32);
        assert(b == e + bytes_of(rest));
        if forall|i: int| 0 <= i < b.len() ==> b[i] < 128 {
            assert(b[0] < 128);
            let b0 = b[0];
            assert(codepoint_width_1(b0) < 0x80u32) by (bit_vector)
                requires
                    b0 < 128u8,
            ;
            assert(c[0] as u32 == decode_first_scalar(b));
            assert(c[0] as u32 == codepoint_width_1(b0));
            assert((c[0] as u32) < 0x80u32);
            lemma_ascii_char(c[0]);
            assert(e.len() == 1);
            assert forall|i: int| 0 <= i < bytes_of(rest).len() implies bytes_of(rest)[i] < 128 by {
                assert(bytes_of(rest)[i] == b[i + 1]);
            }
            assert(is_ascii_chars(rest));
            assert forall|i: int| 0 <= i < c.len() implies '\0' <= #[trigger] c[i] <= '\u{7f}' by {
                if i > 0 {
                    assert(c[i] == rest[i - 1]);
                }
            }
        }
        if is_ascii_chars(c) {
            assert(is_ascii_chars(rest)) by {
                assert forall|i: int| 0 <= i < rest.len() implies '\0' <= #[trigger] rest[i] <= '\u{7f}' by {
                    assert(rest[i] == c[i + 1]);
                }
            }
            assert('\0' <= c[0] <= '\u{7f}');
            let s = c[0] as u32;
            assert(s <= 0x7F);
            assert((s & 0x7F) as u8 == s as u8 && (s as u8) < 128u8) by (bit_vector)
                requires
                    s <= 0x7Fu32,
            ;
            assert(e.len() == 1 && e[0] < 128);
            assert forall|i: int| 0 <= i < b.len() implies b[i] < 128 by {
                if i > 0 {
                    assert(b[i] == bytes_of(rest)[i - 1]);
                }
            }
        }
    }
}

/// Saving a text in UTF-8 (with or without a byte order mark, or as ASCII)
/// and opening the file again gives back the text with its line endings
/// converted. A byte order mark is read back as UTF-8 BOM; otherwise the
/// file reads as ASCII when the text is ASCII, else as UTF-8. The line
/// ending read back is the one that dominates the converted text. A text
/// saved without a byte order mark must not itself start with U+FEFF.
pub proof fn law_save_then_open(text: Seq<char>, encoding: Encoding, le: LineEnding)
    requires
        encoding == Encoding::UTF8BOM || ((encoding == Encoding::UTF8 || encoding == Encoding::ASCII) && !(
        text.len() > 0 && text[0] == '\u{FEFF}')),
    ensures
        encoded_contents(text, encoding, le) is Ok,
        decoded_contents(encoded_contents(text, encoding, le)->Ok_0) == Ok::<
            (Seq<char>, Encoding, LineEnding),
            (ContentErrorKind, Seq<char>),
        >(
            (
                converted(text, le),
                if encoding == Encoding::UTF8BOM {
                    Encoding::UTF8BOM
                } else if is_ascii_chars(converted(text, le)) {
                    Encoding::ASCII
                } else {
                    Encoding::UTF8
                },
                dominant_ending(bytes_of(converted(text, le))),
            ),
        ),
{
    let c = converted(text, le);
    let b = bytes_of(c);
    encode_utf8_valid_utf8(c);
    encode_utf8_decode_utf8(c);
    if encoding == Encoding::UTF8BOM {
        let f = seq![0xEFu8, 0xBBu8, 0xBFu8] + b;
        assert(f.skip(3) =~= b);
        assert(encoding_of(f) == Encoding::UTF8BOM);
    } else {
        if b.len() > 0 {
            lemma_no_utf16_mark(b);
        }
        if b.len() >= 3 && b[0] == 0xEF && b[1] == 0xBB && b[2] == 0xBF {
            lemma_bom_bytes(c);
            lemma_converted_first(text, le);
            assert(false);
        }
        lemma_ascii_bytes(c);
    }
}


// ---------------------------------------------------------------------------
// Converting line endings and detecting them again
// ---------------------------------------------------------------------------

/// The number of line feeds in a text.
pub open spec fn lf_count(s: Seq<char>) -> nat
    decreases s.len(),
{
    if s.len() == 0 {
        0
    } else {
        (if s[0] == '\n' {
            1nat
        } else {
            0nat
        }) + lf_count(s.drop_first())
    }
}

/// The UTF-8 bytes of a text, split after its first character.
proof fn lemma_bytes_cons(x: char, rest: Seq<char>)
    ensures
        bytes_of(seq![x] + rest) == encode_scalar(x as u32) + bytes_of(rest),
{
    let s = seq![x] + rest;
    assert(s.drop_first() =~= rest);
    assert(s[0] == x);
}

/// The UTF-8 encoding of a character other than CR and LF holds neither
/// the byte 0x0A nor 0x0D.
proof fn lemma_scalar_no_newline(x: char)
    requires
        x != '\n',
        x != '\r',
    ensures
        forall|i: int|
            0 <= i < encode_scalar(x as u32).len() ==> #[trigger] encode_scalar(x as u32)[i] != 0x0Au8
                && encode_scalar(x as u32)[i] != 0x0Du8,
{
    let v = x as u32;
    let e = encode_scalar(v);
    if v <= 0x7F {
        if v == 10 {
            char_u32_cast(x, 10u32);
            char_u32_cast('\n', 10u32);
        }
        if v == 13 {
            char_u32_cast(x, 13u32);
            char_u32_cast('\r', 13u32);
        }
        assert((v & 0x7F) as u8 == v as u8) by (bit_vector)
            requires
                v <= 0x7Fu32,
        ;
        assert(e[0] == v as u8);
    } else {
        assert((0xC0u8 | ((v >> 6) & 0x1F) as u8) >= 0xC0u8) by (bit_vector);
        assert((0xE0u8 | ((v >> 12) & 0x0F) as u8) >= 0xE0u8) by (bit_vector);
        assert((0xF0u8 | ((v >> 18) & 0x7) as u8) >= 0xF0u8) by (bit_vector);
        assert((0x80u8 | (v & 0x3F) as u8) >= 0x80u8) by (bit_vector);
        assert((0x80u8 | ((v >> 6) & 0x3F) as u8) >= 0x80u8) by (bit_vector);
        assert((0x80u8 | ((v >> 12) & 0x3F) as u8) >= 0x80u8) by (bit_vector);
        assert forall|i: int| 0 <= i < e.len() implies e[i] >= 0x80u8 by {}
    }
}

/// The UTF-8 encoding of a scalar below 0x80 is that one byte.
proof fn lemma_encode_small(v: u32)
    requires
        v <= 0x7F,
    ensures
        encode_scalar(v) =~= seq![v as u8],
{
    assert((v & 0x7F) as u8 == v as u8) by (bit_vector)
        requires
            v <= 0x7Fu32,
    ;
}

/// `replace_char` of a single character.
proof fn lemma_replace_one(x: char, c: char, r: Seq<char>)
    ensures
        replace_char(seq![x], c, r) == (if x == c {
            r
        } else {
            seq![x]
        }),
{
    let one = seq![x];
    assert(one.drop_last() =~= Seq::<char>::empty());
    assert(replace_char(Seq::<char>::empty(), c, r) == Seq::<char>::empty());
    assert(Seq::<char>::empty() + r =~= r);
    assert(Seq::<char>::empty().push(x) =~= one);
}

/// Bytes that hold neither 0x0A nor 0x0D add no line ending in front of
/// others.
proof fn lemma_nl_counts_prefix_free(e: Seq<u8>, b: Seq<u8>)
    requires
        forall|i: int| 0 <= i < e.len() ==> #[trigger] e[i] != 0x0Au8 && e[i] != 0x0Du8,
    ensures
        nl_counts(e + b) == nl_counts(b),
    decreases e.len(),
{
    if e.len() == 0 {
        assert(e + b =~= b);
    } else {
        lemma_nl_counts_prefix_free(e.drop_first(), b);
        assert((e + b).skip(1) =~= e.drop_first() + b);
        assert((e + b)[0] == e[0]);
    }
}

/// A text without CR: its line endings are its line feeds.
proof fn lemma_counts_lf(s: Seq<char>)
    requires
        forall|i: int| 0 <= i < s.len() ==> s[i] != '\r',
    ensures
        nl_counts(bytes_of(s)) == (0nat, lf_count(s), 0nat),
    decreases s.len(),
{
    if s.len() > 0 {
        let rest = s.drop_first();
        lemma_counts_lf(rest);
        assert(s =~= seq![s[0]] + rest);
        lemma_bytes_cons(s[0], rest);
        if s[0] == '\n' {
            let b = encode_scalar('\n' as u32) + bytes_of(rest);
            lemma_encode_small('\n' as u32);
            assert(b.skip(1) =~= bytes_of(rest));
        } else {
            lemma_scalar_no_newline(s[0]);
            lemma_nl_counts_prefix_free(encode_scalar(s[0] as u32), bytes_of(rest));
        }
    }
}

/// A text without CR with every LF written as CRLF: as many CRLF as there
/// were line feeds, and nothing else.
proof fn lemma_counts_crlf(s: Seq<char>)
    requires
        forall|i: int| 0 <= i < s.len() ==> s[i] != '\r',
    ensures
        nl_counts(bytes_of(replace_char(s, '\n', seq!['\r', '\n']))) == (lf_count(s), 0nat, 0nat),
    decreases s.len(),
{
    let r = seq!['\r', '\n'];
    if s.len() == 0 {
        assert(replace_char(s, '\n', r) =~= Seq::<char>::empty());
    } else {
        let rest = s.drop_first();
        lemma_counts_crlf(rest);
        let tr = replace_char(rest, '\n', r);
        assert(s =~= seq![s[0]] + rest);
        lemma_replace_char_concat(seq![s[0]], rest, '\n', r);
        if s[0] == '\n' {
            lemma_replace_one(s[0], '\n', r);
            assert(r + tr =~= seq!['\r'] + (seq!['\n'] + tr));
            lemma_bytes_cons('\r', seq!['\n'] + tr);
            lemma_bytes_cons('\n', tr);
            lemma_encode_small('\r' as u32);
            lemma_encode_small('\n' as u32);
            let b = seq![0x0Du8] + (seq![0x0Au8] + bytes_of(tr));
            assert(b.skip(2) =~= bytes_of(tr));
        } else {
            lemma_replace_one(s[0], '\n', r);
            lemma_bytes_cons(s[0], tr);
            lemma_scalar_no_newline(s[0]);
            lemma_nl_counts_prefix_free(encode_scalar(s[0] as u32), bytes_of(tr));
        }
    }
}

/// A text without CR with every LF written as CR: as many lone CR as there
/// were line feeds, and nothing else; its bytes do not start with 0x0A.
proof fn lemma_counts_cr(s: Seq<char>)
    requires
        forall|i: int| 0 <= i < s.len() ==> s[i] != '\r',
    ensures
        nl_counts(bytes_of(replace_char(s, '\n', seq!['\r']))) == (0nat, 0nat, lf_count(s)),
        bytes_of(replace_char(s, '\n', seq!['\r'])).len() > 0 ==> bytes_of(
            replace_char(s, '\n', seq!['\r']),
        )[0] != 0x0Au8,
    decreases s.len(),
{
    let r = seq!['\r'];
    if s.len() == 0 {
        assert(replace_char(s, '\n', r) =~= Seq::<char>::empty());
    } else {
        let rest = s.drop_first();
        lemma_counts_cr(rest);
        let tr = replace_char(rest, '\n', r);
        assert(s =~= seq![s[0]] + rest);
        lemma_replace_char_concat(seq![s[0]], rest, '\n', r);
        if s[0] == '\n' {
            lemma_replace_one(s[0], '\n', r);
            lemma_bytes_cons('\r', tr);
            lemma_encode_small('\r' as u32);
            let b = seq![0x0Du8] + bytes_of(tr);
            assert(b.skip(1) =~= bytes_of(tr));
            assert(b[0] == 0x0Du8);
            assert(b.len() > 1 ==> b[1] == bytes_of(tr)[0]);
        } else {
            lemma_replace_one(s[0], '\n', r);
            lemma_bytes_cons(s[0], tr);
            lemma_scalar_no_newline(s[0]);
            lemma_nl_counts_prefix_free(encode_scalar(s[0] as u32), bytes_of(tr));
            encode_utf8_first_scalar(seq![s[0]] + tr);
            assert(encode_scalar(s[0] as u32).len() > 0);
        }
    }
}

/// Normalized text holds no CR, and holds a line feed when the text had a
/// line break.
proof fn lemma_normalized_breaks(s: Seq<char>)
    ensures
        forall|i: int| 0 <= i < normalize_newlines(s).len() ==> normalize_newlines(s)[i] != '\r',
        (exists|i: int| 0 <= i < s.len() && (s[i] == '\n' || s[i] == '\r')) ==> lf_count(
            normalize_newlines(s),
        ) > 0,
    decreases s.len(),
{
    let n = normalize_newlines(s);
    if s.len() > 0 {
        let k: int = if s[0] == '\r' && s.len() > 1 && s[1] == '\n' {
            2
        } else {
            1
        };
        let rest = s.skip(k);
        lemma_normalized_breaks(rest);
        let nr = normalize_newlines(rest);
        let head = if s[0] == '\r' {
            '\n'
        } else {
            s[0]
        };
        assert(n == seq![head] + nr);
        assert(n.drop_first() =~= nr);
        assert forall|i: int| 0 <= i < n.len() implies n[i] != '\r' by {
            if i > 0 {
                assert(n[i] == nr[i - 1]);
            }
        }
        if exists|i: int| 0 <= i < s.len() && (s[i] == '\n' || s[i] == '\r') {
            let w = choose|i: int| 0 <= i < s.len() && (s[i] == '\n' || s[i] == '\r');
            if head != '\n' {
                assert(w >= k);
                assert(rest[w - k] == s[w]);
            }
        }
    }
}

/// A text without CR is its own normal form.
proof fn lemma_normalize_no_cr(s: Seq<char>)
    requires
        forall|i: int| 0 <= i < s.len() ==> s[i] != '\r',
    ensures
        normalize_newlines(s) == s,
    decreases s.len(),
{
    if s.len() > 0 {
        let rest = s.skip(1);
        assert forall|i: int| 0 <= i < rest.len() implies rest[i] != '\r' by {
            assert(rest[i] == s[i + 1]);
        }
        lemma_normalize_no_cr(rest);
        assert(s =~= seq![s[0]] + rest);
    }
}

/// A text without CR, each LF turned into CRLF or CR, normalizes back to
/// itself; turned into CR, it holds no LF.
proof fn lemma_normalize_replaced(s: Seq<char>, r: Seq<char>)
    requires
        forall|i: int| 0 <= i < s.len() ==> s[i] != '\r',
        r == seq!['\r', '\n'] || r == seq!['\r'],
    ensures
        normalize_newlines(replace_char(s, '\n', r)) == s,
        r == seq!['\r'] ==> forall|i: int|
            0 <= i < replace_char(s, '\n', r).len() ==> replace_char(s, '\n', r)[i] != '\n',
    decreases s.len(),
{
    if s.len() > 0 {
        let rest = s.skip(1);
        assert forall|i: int| 0 <= i < rest.len() implies rest[i] != '\r' by {
            assert(rest[i] == s[i + 1]);
        }
        lemma_normalize_replaced(rest, r);
        assert(s =~= seq![s[0]] + rest);
        lemma_replace_char_concat(seq![s[0]], rest, '\n', r);
        lemma_replace_one(s[0], '\n', r);
        let x = replace_char(rest, '\n', r);
        let y = replace_char(s, '\n', r);
        if s[0] == '\n' {
            assert(y == r + x);
            if r == seq!['\r', '\n'] {
                assert(y.skip(2) =~= x);
            } else {
                assert(y.skip(1) =~= x);
                if y.len() > 1 {
                    assert(y[1] == x[0]);
                }
                assert forall|i: int| 0 <= i < y.len() implies y[i] != '\n' by {
                    if i > 0 {
                        assert(y[i] == x[i - 1]);
                    }
                }
            }
        } else {
            assert(y == seq![s[0]] + x);
            assert(y.skip(1) =~= x);
            if r == seq!['\r'] {
                assert forall|i: int| 0 <= i < y.len() implies y[i] != '\n' by {
                    if i > 0 {
                        assert(y[i] == x[i - 1]);
                    }
                }
            }
        }
    }
}

/// Converting line endings changes nothing but the line breaks (the
/// converted text normalizes to what the text normalizes to), and
/// converting again to the same line ending changes nothing.
pub proof fn law_convert_idempotent(text: Seq<char>, le: LineEnding)
    ensures
        normalize_newlines(converted(text, le)) == normalize_newlines(text),
        converted(converted(text, le), le) == converted(text, le),
        converted(converted(text, le), LineEnding::LF) == converted(text, LineEnding::LF),
{
    let n = normalize_newlines(text);
    lemma_normalized_breaks(text);
    match le {
        LineEnding::LF => lemma_normalize_no_cr(n),
        LineEnding::CRLF => lemma_normalize_replaced(n, seq!['\r', '\n']),
        LineEnding::CR => lemma_normalize_replaced(n, seq!['\r']),
    }
}

/// Converting a text's line endings to `le` and detecting them again gives
/// `le` back, when the text has a line break; LF always comes back.
pub proof fn law_convert_then_detect(text: Seq<char>, le: LineEnding)
    requires
        le == LineEnding::LF || exists|i: int| 0 <= i < text.len() && (text[i] == '\n' || text[i] == '\r'),
    ensures
        dominant_ending(bytes_of(converted(text, le))) == le,
{
    let n = normalize_newlines(text);
    lemma_normalized_breaks(text);
    match le {
        LineEnding::LF => {
            lemma_counts_lf(n);
        },
        LineEnding::CRLF => {
            lemma_counts_crlf(n);
        },
        LineEnding::CR => {
            lemma_counts_cr(n);
        },
    }
}

/// Saving a text in UTF-16 (LE or BE) and opening the file again gives
/// back the text with its line endings converted, the same encoding, and
/// the line ending that dominates the converted text.
pub proof fn law_save_then_open_utf16(text: Seq<char>, encoding: Encoding, le: LineEnding)
    requires
        encoding == Encoding::UTF16LE || encoding == Encoding::UTF16BE,
    ensures
        encoded_contents(text, encoding, le) is Ok,
        decoded_contents(encoded_contents(text, encoding, le)->Ok_0) == Ok::<
            (Seq<char>, Encoding, LineEnding),
            (ContentErrorKind, Seq<char>),
        >((converted(text, le), encoding, dominant_ending(bytes_of(converted(text, le))))),
{
    let c = converted(text, le);
    let little = encoding == Encoding::UTF16LE;
    let u = utf16_encode(c);
    let body = utf16_bytes(u, little);
    let f = encoded_contents(text, encoding, le)->Ok_0;
    lemma_utf16_bytes(u, little);
    lemma_units_round_trip(u, little);
    lemma_utf16_round_trip(c);
    assert(f.skip(2) =~= body);
    assert(encoding_of(f) == encoding);
}

} // verus!
