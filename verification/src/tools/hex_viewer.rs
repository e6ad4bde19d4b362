//! A hex view of bytes, and conversions between bytes and hexadecimal text.
use vstd::prelude::*;
use crate::bytes::{bytes_of, boundary, lemma_bytes_concat, str_byte_range};
use crate::num::{hex_char, hex_of, push_hex};
use crate::text::{replace_char, replace_char_exec};

verus! {

/// The byte at `offset`, if there is one.
pub open spec fn byte_at(b: Seq<u8>, offset: usize) -> Option<u8> {
    if offset < b.len() {
        Some(b[offset as int])
    } else {
        None
    }
}

/// The bytes with the one at `offset` replaced, if there is one.
pub open spec fn with_byte(b: Seq<u8>, offset: usize, v: u8) -> Seq<u8> {
    if offset < b.len() {
        b.update(offset as int, v)
    } else {
        b
    }
}

/// Reading a byte after writing it gives what was written; the other bytes
/// and the length stay as they were.
pub proof fn law_read_after_write(b: Seq<u8>, offset: usize, v: u8, other: usize)
    ensures
        byte_at(with_byte(b, offset, v), offset) == if offset < b.len() {
            Some(v)
        } else {
            None::<u8>
        },
        other != offset ==> byte_at(with_byte(b, offset, v), other) == byte_at(b, other),
        with_byte(b, offset, v).len() == b.len(),
{
}

/// Bytes shown in rows, with a cursor.
pub struct HexView {
    pub bytes: Vec<u8>,
    pub bytes_per_row: usize,
    pub cursor_offset: usize,
    pub show_ascii: bool,
}

impl HexView {
    /// A view of the UTF-8 bytes of a text, 16 to a row, with the ASCII
    /// column shown.
    pub fn from_text(text: &str) -> (res: HexView)
        ensures
            res.bytes@ == bytes_of(text@),
            res.bytes_per_row == 16,
            res.cursor_offset == 0,
            res.show_ascii,
    {
        HexView {
            bytes: vstd::slice::slice_to_vec(text.as_bytes()),
            bytes_per_row: 16,
            cursor_offset: 0,
            show_ascii: true,
        }
    }

    /// A view of the given bytes, 16 to a row, with the ASCII column shown.
    pub fn from_bytes(bytes: Vec<u8>) -> (res: HexView)
        ensures
            res.bytes@ == bytes@,
            res.bytes_per_row == 16,
            res.cursor_offset == 0,
            res.show_ascii,
    {
        HexView { bytes, bytes_per_row: 16, cursor_offset: 0, show_ascii: true }
    }

    /// The byte at `offset`, if there is one.
    pub fn get_byte_at(&self, offset: usize) -> (res: Option<u8>)
        ensures
            res == byte_at(self.bytes@, offset),
    {
        if offset < self.bytes.len() {
            Some(self.bytes[offset])
        } else {
            None
        }
    }

    /// Overwrites the byte at `offset`, if there is one.
    pub fn set_byte_at(&mut self, offset: usize, value: u8)
        ensures
            final(self).bytes@ == with_byte(old(self).bytes@, offset, value),
            final(self).bytes_per_row == old(self).bytes_per_row,
            final(self).cursor_offset == old(self).cursor_offset,
            final(self).show_ascii == old(self).show_ascii,
    {
        if offset < self.bytes.len() {
            self.bytes.set(offset, value);
        }
    }
}

/// The bytes as upper-case hexadecimal, two digits each.
pub fn to_hex_string(bytes: &[u8]) -> (res: String)
    ensures
        res@ == hex_of(bytes@, true),
{
    let mut out = String::new();
    push_hex(&mut out, bytes, true);
    out
}

/// The value of an ASCII hexadecimal digit.
pub open spec fn hex_val(b: u8) -> Option<u8> {
    if 0x30 <= b <= 0x39 {
        Some((b - 0x30) as u8)
    } else if 0x61 <= b <= 0x66 {
        Some((b - 0x61 + 10) as u8)
    } else if 0x41 <= b <= 0x46 {
        Some((b - 0x41 + 10) as u8)
    } else {
        None
    }
}

/// What `u8::from_str_radix(_, 16)` gives for the two bytes: a `+` and a
/// digit, or two digits.
pub open spec fn pair_val(b0: u8, b1: u8) -> Option<u8> {
    if b0 == 0x2B {
        hex_val(b1)
    } else {
        match (hex_val(b0), hex_val(b1)) {
            (Some(h), Some(l)) => Some((h * 16 + l) as u8),
            _ => None,
        }
    }
}

/// The bytes of the pairs from byte `i` on; `Err` with the position of the
/// first pair that is not a hexadecimal byte.
pub open spec fn parse_pairs(hb: Seq<u8>, i: int) -> Result<Seq<u8>, int>
    decreases hb.len() - i,
{
    if i < 0 || i + 2 > hb.len() {
        Ok(seq![])
    } else {
        match pair_val(hb[i], hb[i + 1]) {
            None => Err(i),
            Some(v) => match parse_pairs(hb, i + 2) {
                Ok(r) => Ok(seq![v] + r),
                Err(j) => Err(j),
            },
        }
    }
}

/// Whether every pair read before the first bad one starts and ends on a
/// character boundary, so that taking it out of the text cannot panic.
pub open spec fn pairs_sliceable(hb: Seq<u8>, i: int) -> bool
    decreases hb.len() - i,
{
    if i < 0 || i + 2 > hb.len() {
        true
    } else {
        boundary(hb, i) && boundary(hb, i + 2) && (pair_val(hb[i], hb[i + 1]) is Some
            ==> pairs_sliceable(hb, i + 2))
    }
}

/// The error for the bad pair at `i`.
pub open spec fn bad_pair_message(hb: Seq<u8>, i: int) -> Seq<u8> {
    bytes_of("Invalid hex byte '"@) + hb.subrange(i, i + 2) + bytes_of(
        "': invalid digit found in string"@,
    )
}

fn hex_value(b: u8) -> (res: Option<u8>)
    ensures
        res == hex_val(b),
{
    if 0x30 <= b && b <= 0x39 {
        Some(b - 0x30)
    } else if 0x61 <= b && b <= 0x66 {
        Some(b - 0x61 + 10)
    } else if 0x41 <= b && b <= 0x46 {
        Some(b - 0x41 + 10)
    } else {
        None
    }
}

fn pair_value(b0: u8, b1: u8) -> (res: Option<u8>)
    ensures
        res == pair_val(b0, b1),
{
    if b0 == 0x2B {
        hex_value(b1)
    } else {
        match (hex_value(b0), hex_value(b1)) {
            (Some(h), Some(l)) => Some(h * 16 + l),
            _ => None,
        }
    }
}

/// Parses hexadecimal text into bytes, ignoring spaces: an error for an
/// odd number of bytes, or for the first pair that is not a hexadecimal
/// byte (see `parse_pairs`).
pub fn from_hex_string(hex: &str) -> (res: Result<Vec<u8>, String>)
    requires
        bytes_of(replace_char(hex@, ' ', seq![])).len() % 2 == 0 ==> pairs_sliceable(
            bytes_of(replace_char(hex@, ' ', seq![])),
            0,
        ),
    ensures
        ({
            let hb = bytes_of(replace_char(hex@, ' ', seq![]));
            if hb.len() % 2 != 0 {
                res matches Err(e) && e@ == "Hex string must have even length"@
            } else {
                match parse_pairs(hb, 0) {
                    Ok(v) => res matches Ok(r) && r@ == v,
                    Err(i) => res matches Err(e) && bytes_of(e@) == bad_pair_message(hb, i),
                }
            }
        }),
{
    let empty = "";
    proof {
        crate::bytes::lemma_empty_str_bytes();
    }
    let h = replace_char_exec(hex, ' ', empty);
    let hb = h.as_str().as_bytes();
    let n = hb.len();
    if n % 2 != 0 {
        let mut e = String::new();
        e.append("Hex string must have even length");
        return Err(e);
    }
    let mut out: Vec<u8> = Vec::new();
    let mut i: usize = 0;
    while i < n
        invariant
            n == hb@.len(),
            n % 2 == 0,
            i % 2 == 0,
            i <= n,
            hb@ == bytes_of(h@),
            h@ == replace_char(hex@, ' ', seq![]),
            pairs_sliceable(hb@, i as int),
            parse_pairs(hb@, 0) == match parse_pairs(hb@, i as int) {
                Ok(r) => Ok(out@ + r),
                Err(j) => Err(j),
            },
        decreases n - i,
    {
        match pair_value(hb[i], hb[i + 1]) {
            None => {
                let pair = str_byte_range(h.as_str(), i, i + 2);
                let mut e = String::new();
                e.append("Invalid hex byte '");
                e.append(pair.as_str());
                e.append("': invalid digit found in string");
                proof {
                    lemma_bytes_concat("Invalid hex byte '"@ + pair@, "': invalid digit found in string"@);
                    lemma_bytes_concat("Invalid hex byte '"@, pair@);
                    assert(e@ == "Invalid hex byte '"@ + pair@ + "': invalid digit found in string"@);
                }
                return Err(e);
            },
            Some(v) => {
                proof {
                    assert(out@.push(v) + match parse_pairs(hb@, i + 2) {
                        Ok(r) => r,
                        Err(_) => seq![],
                    } == out@ + (seq![v] + match parse_pairs(hb@, i + 2) {
                        Ok(r) => r,
                        Err(_) => seq![],
                    }));
                }
                out.push(v);
                i += 2;
            },
        }
    }
    proof {
        assert(out@ + Seq::<u8>::empty() == out@);
    }
    Ok(out)
}

/// The hexadecimal text of bytes, two characters per byte.
proof fn lemma_hex_shape(b: Seq<u8>)
    ensures
        hex_of(b, true).len() == 2 * b.len(),
        forall|k: int|
            0 <= k < b.len() ==> hex_of(b, true)[2 * k] == hex_char(
                (b[k] / 16) as int,
                true,
            ) && hex_of(b, true)[2 * k + 1] == hex_char((b[k] % 16) as int, true),
    decreases b.len(),
{
    if b.len() > 0 {
        lemma_hex_shape(b.drop_last());
        let h = hex_of(b, true);
        let h0 = hex_of(b.drop_last(), true);
        assert forall|k: int| 0 <= k < b.len() implies h[2 * k] == hex_char((b[k] / 16) as int, true)
            && h[2 * k + 1] == hex_char((b[k] % 16) as int, true) by {
            if k < b.len() - 1 {
                assert(h[2 * k] == h0[2 * k]);
                assert(h[2 * k + 1] == h0[2 * k + 1]);
                assert(b.drop_last()[k] == b[k]);
            }
        }
    }
}

/// A digit's code reads back as its value.
proof fn lemma_hex_char_val(v: int)
    requires
        0 <= v < 16,
    ensures
        (hex_char(v, true) as u32) < 128,
        hex_char(v, true) != ' ',
        (hex_char(v, true) as u32) >= 48,
        hex_val(hex_char(v, true) as u8) == Some(v as u8),
        '\0' <= hex_char(v, true) <= '\u{7f}',
{
}

proof fn lemma_no_space(s: Seq<char>)
    requires
        forall|i: int| 0 <= i < s.len() ==> s[i] != ' ',
    ensures
        replace_char(s, ' ', seq![]) == s,
    decreases s.len(),
{
    if s.len() > 0 {
        lemma_no_space(s.drop_last());
        assert(s.drop_last().push(s.last()) == s);
    }
}

proof fn lemma_parse_from(b: Seq<u8>, hb: Seq<u8>, k: int)
    requires
        0 <= k <= b.len(),
        hb.len() == 2 * b.len(),
        forall|j: int| 0 <= j < b.len() ==> pair_val(hb[2 * j], hb[2 * j + 1]) == Some(b[j]),
        forall|i: int| 0 <= i < hb.len() ==> hb[i] < 0x80,
    ensures
        parse_pairs(hb, 2 * k) == Ok::<Seq<u8>, int>(b.skip(k)),
        pairs_sliceable(hb, 2 * k),
    decreases b.len() - k,
{
    if k < b.len() {
        lemma_parse_from(b, hb, k + 1);
        assert(2 * k + 2 == 2 * (k + 1));
        assert(seq![b[k]] + b.skip(k + 1) == b.skip(k));
        assert(pair_val(hb[2 * k], hb[2 * k + 1]) == Some(b[k]));
    } else {
        assert(b.skip(k) == Seq::<u8>::empty());
    }
}

/// Reading back the hexadecimal text of bytes gives the bytes: the text
/// has an even number of bytes, taking its pairs out cannot panic, and
/// every pair parses.
pub proof fn law_hex_round_trip(b: Seq<u8>)
    ensures
        ({
            let hb = bytes_of(replace_char(hex_of(b, true), ' ', seq![]));
            &&& hb.len() % 2 == 0
            &&& pairs_sliceable(hb, 0)
            &&& parse_pairs(hb, 0) == Ok::<Seq<u8>, int>(b)
        }),
{
    let h = hex_of(b, true);
    lemma_hex_shape(b);
    assert forall|i: int| 0 <= i < h.len() implies h[i] != ' ' && (h[i] as u32) < 128 by {
        let k = i / 2;
        if i % 2 == 0 {
            assert(i == 2 * k);
            lemma_hex_char_val((b[k] / 16) as int);
        } else {
            assert(i == 2 * k + 1);
            lemma_hex_char_val((b[k] % 16) as int);
        }
    }
    lemma_no_space(h);
    assert forall|i: int| 0 <= i < h.len() implies '\0' <= #[trigger] h[i] <= '\u{7f}' by {
        let k = i / 2;
        if i % 2 == 0 {
            assert(i == 2 * k);
            lemma_hex_char_val((b[k] / 16) as int);
        } else {
            assert(i == 2 * k + 1);
            lemma_hex_char_val((b[k] % 16) as int);
        }
    }
    assert(vstd::utf8::is_ascii_chars(h));
    vstd::utf8::is_ascii_chars_encode_utf8(h);
    let hb = bytes_of(h);
    assert forall|j: int| 0 <= j < b.len() implies pair_val(hb[2 * j], hb[2 * j + 1]) == Some(b[j]) by {
        lemma_hex_char_val((b[j] / 16) as int);
        lemma_hex_char_val((b[j] % 16) as int);
        assert(hb[2 * j] == h[2 * j] as u8);
        assert(hb[2 * j + 1] == h[2 * j + 1] as u8);
        assert((b[j] / 16) * 16 + b[j] % 16 == b[j]);
    }
    assert forall|i: int| 0 <= i < hb.len() implies hb[i] < 0x80 by {
        assert(hb[i] == h[i] as u8);
    }
    lemma_parse_from(b, hb, 0);
    assert(b.skip(0) == b);
}

} // verus!
