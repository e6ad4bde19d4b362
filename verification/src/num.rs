//! Decimal numbers: parsing as `str::parse::<usize>` does and formatting as
//! `Display` does.
use vstd::prelude::*;

verus! {

pub open spec fn is_digit(c: char) -> bool {
    '0' <= c <= '9'
}

pub open spec fn all_digits(s: Seq<char>) -> bool {
    forall|i: int| 0 <= i < s.len() ==> is_digit(#[trigger] s[i])
}

/// The value of a string of decimal digits.
pub open spec fn digits_value(s: Seq<char>) -> nat
    decreases s.len(),
{
    if s.len() == 0 {
        0
    } else {
        digits_value(s.drop_last()) * 10 + ((s.last() as u32 - '0' as u32) as nat)
    }
}

/// `str::parse::<usize>`: an optional `+`, then at least one ASCII digit,
/// and a value that fits in `usize`.
pub open spec fn parse_usize(s: Seq<char>) -> Option<usize> {
    let d = if s.len() > 0 && s[0] == '+' {
        s.drop_first()
    } else {
        s
    };
    if d.len() > 0 && all_digits(d) && digits_value(d) <= usize::MAX {
        Some(digits_value(d) as usize)
    } else {
        None
    }
}

pub proof fn lemma_digits_value_mono(s: Seq<char>, k: int)
    requires
        0 <= k <= s.len(),
        all_digits(s),
    ensures
        digits_value(s.take(k)) <= digits_value(s),
    decreases s.len() - k,
{
    if k < s.len() {
        lemma_digits_value_mono(s, k + 1);
        assert(s.take(k + 1).drop_last() == s.take(k));
    } else {
        assert(s.take(k) == s);
    }
}

/// Parses `s[from..to]` as `str::parse::<usize>` does.
pub fn parse_usize_chars(s: &[char], from: usize, to: usize) -> (res: Option<usize>)
    requires
        from <= to <= s@.len(),
    ensures
        res == parse_usize(s@.subrange(from as int, to as int)),
{
    let ghost full = s@.subrange(from as int, to as int);
    let mut start = from;
    if start < to && s[start] == '+' {
        start += 1;
    }
    let ghost d = s@.subrange(start as int, to as int);
    assert(d == (if full.len() > 0 && full[0] == '+' {
        full.drop_first()
    } else {
        full
    }));
    if start >= to {
        return None;
    }
    let mut v: usize = 0;
    let mut i = start;
    while i < to
        invariant
            start <= i <= to <= s@.len(),
            full == s@.subrange(from as int, to as int),
            d == s@.subrange(start as int, to as int),
            d == (if full.len() > 0 && full[0] == '+' {
                full.drop_first()
            } else {
                full
            }),
            d.len() > 0,
            all_digits(d.take(i - start)),
            v == digits_value(d.take(i - start)),
        decreases to - i,
    {
        let c = s[i];
        assert(d.take(i - start + 1).drop_last() == d.take(i - start));
        if !('0' <= c && c <= '9') {
            assert(!is_digit(d[i - start]));
            return None;
        }
        let dig = (c as u32 - '0' as u32) as usize;
        if v > (usize::MAX - dig) / 10 {
            proof {
                assert(all_digits(d.take(i - start + 1)));
                assert(v * 10 + dig > usize::MAX) by (nonlinear_arith)
                    requires
                        v > (usize::MAX - dig) / 10,
                        dig <= 9,
                ;
                if all_digits(d) {
                    lemma_digits_value_mono(d, i - start + 1);
                }
            }
            return None;
        }
        assert(v * 10 + dig <= usize::MAX) by (nonlinear_arith)
            requires
                v <= (usize::MAX - dig) / 10,
                dig <= 9,
        ;
        v = v * 10 + dig;
        assert(all_digits(d.take(i - start + 1)));
        i += 1;
    }
    assert(d.take(to - start) == d);
    Some(v)
}

/// The decimal digits of `n`, as `Display` prints it.
pub open spec fn decimal(n: nat) -> Seq<char>
    decreases n,
{
    if n < 10 {
        seq![(n + '0' as u32) as char]
    } else {
        decimal(n / 10).push(((n % 10) + '0' as u32) as char)
    }
}

/// Appends the decimal digits of `n` to `out`.
pub fn push_decimal(out: &mut String, n: u64)
    ensures
        final(out)@ == old(out)@ + decimal(n as nat),
    decreases n,
{
    if n >= 10 {
        push_decimal(out, n / 10);
    }
    let d = (n % 10) as u32 + 48;
    let c = char_from_digit(d);
    crate::text::push_char(out, c);
}

/// The hexadecimal digit for `v < 16`, in upper or lower case.
pub open spec fn hex_char(v: int, upper: bool) -> char {
    if v < 10 {
        (v + 48) as char
    } else if upper {
        (v - 10 + 65) as char
    } else {
        (v - 10 + 97) as char
    }
}

/// The two hexadecimal digits of a byte, as `{:02X}` (upper) or `{:02x}`
/// print them.
pub open spec fn hex2(b: u8, upper: bool) -> Seq<char> {
    seq![hex_char((b / 16) as int, upper), hex_char((b % 16) as int, upper)]
}

/// The hexadecimal digits of each byte, two per byte.
pub open spec fn hex_of(bs: Seq<u8>, upper: bool) -> Seq<char>
    decreases bs.len(),
{
    if bs.len() == 0 {
        seq![]
    } else {
        hex_of(bs.drop_last(), upper) + hex2(bs.last(), upper)
    }
}

fn hex_digit(v: u8, upper: bool) -> (c: char)
    requires
        v < 16,
    ensures
        c == hex_char(v as int, upper),
{
    let code: u32 = if v < 10 {
        v as u32 + 48
    } else if upper {
        v as u32 - 10 + 65
    } else {
        v as u32 - 10 + 97
    };
    char_from_ascii(code)
}

/// The character of an ASCII code.
pub fn char_from_ascii(code: u32) -> (c: char)
    requires
        code < 128,
    ensures
        c as u32 == code,
{
    let b: u8 = code as u8;
    let c = b as char;
    c
}

/// Appends the two hexadecimal digits of each byte of `bs`.
pub fn push_hex(out: &mut String, bs: &[u8], upper: bool)
    ensures
        final(out)@ == old(out)@ + hex_of(bs@, upper),
{
    let ghost start = out@;
    let mut i: usize = 0;
    while i < bs.len()
        invariant
            i <= bs@.len(),
            out@ == start + hex_of(bs@.take(i as int), upper),
        decreases bs.len() - i,
    {
        let b = bs[i];
        proof {
            assert(bs@.take(i as int + 1).drop_last() == bs@.take(i as int));
        }
        crate::text::push_char(out, hex_digit(b / 16, upper));
        crate::text::push_char(out, hex_digit(b % 16, upper));
        i += 1;
    }
    proof {
        assert(bs@.take(bs@.len() as int) == bs@);
    }
}

fn char_from_digit(d: u32) -> (c: char)
    requires
        48 <= d <= 57,
    ensures
        c as u32 == d,
{
    if d == 48 { '0' }
    else if d == 49 { '1' }
    else if d == 50 { '2' }
    else if d == 51 { '3' }
    else if d == 52 { '4' }
    else if d == 53 { '5' }
    else if d == 54 { '6' }
    else if d == 55 { '7' }
    else if d == 56 { '8' }
    else { '9' }
}

// ---------------------------------------------------------------------------
// Hexadecimal numbers
// ---------------------------------------------------------------------------

/// The value of a hexadecimal digit, either case; -1 for any other char.
pub open spec fn hex_digit_value(c: char) -> int {
    if '0' <= c <= '9' {
        c as int - '0' as int
    } else if 'a' <= c <= 'f' {
        c as int - 'a' as int + 10
    } else if 'A' <= c <= 'F' {
        c as int - 'A' as int + 10
    } else {
        -1
    }
}

pub open spec fn all_hex(s: Seq<char>) -> bool {
    forall|i: int| 0 <= i < s.len() ==> hex_digit_value(#[trigger] s[i]) >= 0
}

/// The value of a string of hexadecimal digits.
pub open spec fn hex_value(s: Seq<char>) -> nat
    decreases s.len(),
{
    if s.len() == 0 {
        0
    } else {
        hex_value(s.drop_last()) * 16 + hex_digit_value(s.last()) as nat
    }
}

/// `u64::from_str_radix(s, 16)`: an optional `+`, then at least one
/// hexadecimal digit, and a value that fits in `u64`.
pub open spec fn parse_hex_u64(s: Seq<char>) -> Option<u64> {
    let d = if s.len() > 0 && s[0] == '+' {
        s.drop_first()
    } else {
        s
    };
    if d.len() > 0 && all_hex(d) && hex_value(d) <= u64::MAX {
        Some(hex_value(d) as u64)
    } else {
        None
    }
}

pub proof fn lemma_hex_value_mono(s: Seq<char>, k: int)
    requires
        0 <= k <= s.len(),
        all_hex(s),
    ensures
        hex_value(s.take(k)) <= hex_value(s),
    decreases s.len() - k,
{
    if k < s.len() {
        lemma_hex_value_mono(s, k + 1);
        assert(s.take(k + 1).drop_last() == s.take(k));
    } else {
        assert(s.take(k) == s);
    }
}

pub(crate) fn hex_digit_exec(c: char) -> (res: Option<u64>)
    ensures
        match res {
            Some(v) => hex_digit_value(c) >= 0 && v == hex_digit_value(c),
            None => hex_digit_value(c) < 0,
        },
{
    if '0' <= c && c <= '9' {
        Some((c as u32 - '0' as u32) as u64)
    } else if 'a' <= c && c <= 'f' {
        Some((c as u32 - 'a' as u32 + 10) as u64)
    } else if 'A' <= c && c <= 'F' {
        Some((c as u32 - 'A' as u32 + 10) as u64)
    } else {
        None
    }
}

/// Parses `s[from..to]` as `u64::from_str_radix(_, 16)` does.
pub fn parse_hex_u64_chars(s: &[char], from: usize, to: usize) -> (res: Option<u64>)
    requires
        from <= to <= s@.len(),
    ensures
        res == parse_hex_u64(s@.subrange(from as int, to as int)),
{
    let ghost full = s@.subrange(from as int, to as int);
    let mut start = from;
    if start < to && s[start] == '+' {
        start += 1;
    }
    let ghost d = s@.subrange(start as int, to as int);
    assert(d == (if full.len() > 0 && full[0] == '+' {
        full.drop_first()
    } else {
        full
    }));
    if start >= to {
        return None;
    }
    let mut v: u64 = 0;
    let mut i = start;
    while i < to
        invariant
            start <= i <= to <= s@.len(),
            full == s@.subrange(from as int, to as int),
            d == s@.subrange(start as int, to as int),
            d == (if full.len() > 0 && full[0] == '+' {
                full.drop_first()
            } else {
                full
            }),
            d.len() > 0,
            all_hex(d.take(i - start)),
            v == hex_value(d.take(i - start)),
        decreases to - i,
    {
        let c = s[i];
        assert(d.take(i - start + 1).drop_last() == d.take(i - start));
        let dig = match hex_digit_exec(c) {
            Some(x) => x,
            None => {
                assert(hex_digit_value(d[i - start]) < 0);
                return None;
            },
        };
        if v > (u64::MAX - dig) / 16 {
            proof {
                assert(all_hex(d.take(i - start + 1)));
                assert(v * 16 + dig > u64::MAX) by (nonlinear_arith)
                    requires
                        v > (u64::MAX - dig) / 16,
                        dig <= 15,
                ;
                if all_hex(d) {
                    lemma_hex_value_mono(d, i - start + 1);
                }
            }
            return None;
        }
        assert(v * 16 + dig <= u64::MAX) by (nonlinear_arith)
            requires
                v <= (u64::MAX - dig) / 16,
                dig <= 15,
        ;
        v = v * 16 + dig;
        assert(all_hex(d.take(i - start + 1)));
        i += 1;
    }
    assert(d.take(to - start) == d);
    Some(v)
}

/// The lowercase hexadecimal digits of `n`, as `{:x}` prints it.
pub open spec fn hex_number(n: nat) -> Seq<char>
    decreases n,
{
    if n < 16 {
        seq![hex_char(n as int, false)]
    } else {
        hex_number(n / 16).push(hex_char((n % 16) as int, false))
    }
}

/// Appends the lowercase hexadecimal digits of `n` to `out`.
pub fn push_hex_number(out: &mut String, n: u64)
    ensures
        final(out)@ == old(out)@ + hex_number(n as nat),
    decreases n,
{
    if n >= 16 {
        push_hex_number(out, n / 16);
    }
    let d = (n % 16) as u8;
    let c = hex_digit(d, false);
    crate::text::push_char(out, c);
}

} // verus!
