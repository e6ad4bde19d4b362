//! The disassembly listing: instructions decoded by capstone, written as
//! lines with branch targets marked and addresses in operands written
//! symbolically.
use vstd::prelude::*;
use capstone::arch::{BuildsCapstone, BuildsCapstoneSyntax};
use crate::bytes::{boundary, bytes_of, find_bytes, first_occ, is_boundary, str_byte_range};
use crate::num::{all_digits, all_hex, digits_value, hex_value, parse_hex_u64, parse_hex_u64_chars};
use crate::text::{push_char, push_range, push_str, str_chars, str_eq, trim, trimmed_chars, string_from_chars};
use crate::tools::disasm::{first_covering, hex_address, nearest_before, parse_hex_address, symbol_ref, DisasmArch, DisasmLine, Disassembler, Symbol};
use crate::unicode::{lowercase, to_lowercase};
use vstd::utf8::decode_utf8;

verus! {

// ---------------------------------------------------------------------------
// capstone
// ---------------------------------------------------------------------------

#[verifier::external_type_specification]
#[verifier::external_body]
pub struct ExCapstone(capstone::Capstone);

/// One instruction as capstone decodes it: its address, its bytes, its
/// mnemonic and its operand text (each may be missing).
#[derive(Debug)]
pub struct RawInsn {
    pub address: u64,
    pub bytes: Vec<u8>,
    pub mnemonic: Option<String>,
    pub op_str: Option<String>,
}

/// The model of an instruction: address, bytes, mnemonic, operand text.
pub open spec fn insn_spec(i: RawInsn) -> (u64, Seq<u8>, Option<Seq<char>>, Option<Seq<char>>) {
    (
        i.address,
        i.bytes@,
        match i.mnemonic {
            Some(m) => Some(m@),
            None => None,
        },
        match i.op_str {
            Some(o) => Some(o@),
            None => None,
        },
    )
}

/// The models of a list of instructions.
pub open spec fn insns_spec(v: Seq<RawInsn>) -> Seq<(u64, Seq<u8>, Option<Seq<char>>, Option<Seq<char>>)> {
    Seq::new(v.len(), |k: int| insn_spec(v[k]))
}

/// What capstone decodes from `code` placed at `address`, at most `count`
/// instructions, for an instruction set (Intel syntax for x86, no
/// details); `None` where it reports an error.
pub uninterp spec fn capstone_insns(arch: DisasmArch, code: Seq<u8>, address: u64, count: usize) -> Option<
    Seq<(u64, Seq<u8>, Option<Seq<char>>, Option<Seq<char>>)>,
>;

/// Whether capstone builds a decoder for the instruction set (the builder
/// chain of `capstone_engine`).
pub uninterp spec fn capstone_builds(arch: DisasmArch) -> bool;

/// A capstone decoder set up for one instruction set.
pub struct CapstoneEngine {
    arch: DisasmArch,
    cs: capstone::Capstone,
}

impl CapstoneEngine {
    /// The instruction set the decoder was set up for.
    pub closed spec fn arch_spec(self) -> DisasmArch {
        self.arch
    }
}

/// `capstone::Capstone::new()` with the builder for the instruction set:
/// 32- or 64-bit x86 in Intel syntax, ARM, or AArch64, without details.
/// The decoder remembers the instruction set it was built for; building
/// may fail: whether it does is named by `capstone_builds`.
#[verifier::external_body]
fn capstone_engine(arch: DisasmArch) -> (r: Option<CapstoneEngine>)
    ensures
        r matches Some(e) ==> e.arch_spec() == arch,
        r is Some <==> capstone_builds(arch),
{
    let b = capstone::Capstone::new();
    let cs = match arch {
        DisasmArch::X86_32 => b.x86().mode(capstone::arch::x86::ArchMode::Mode32).syntax(capstone::arch::x86::ArchSyntax::Intel).detail(false).build(),
        DisasmArch::X86_64 => b.x86().mode(capstone::arch::x86::ArchMode::Mode64).syntax(capstone::arch::x86::ArchSyntax::Intel).detail(false).build(),
        DisasmArch::ARM => b.arm().mode(capstone::arch::arm::ArchMode::Arm).detail(false).build(),
        DisasmArch::AArch64 => b.arm64().mode(capstone::arch::arm64::ArchMode::Arm).detail(false).build(),
    };
    cs.ok().map(|cs| CapstoneEngine { arch, cs })
}

/// `Capstone::disasm_count`: the instructions decoded (named by
/// `capstone_insns`), at most `count` of them; a count of 0 is an error.
#[verifier::external_body]
fn capstone_disasm(e: &CapstoneEngine, code: &[u8], address: u64, count: usize) -> (r: Option<Vec<RawInsn>>)
    ensures
        match r {
            Some(v) => capstone_insns(e.arch_spec(), code@, address, count) == Some(insns_spec(v@)) && v@.len()
                <= count,
            None => capstone_insns(e.arch_spec(), code@, address, count) is None,
        },
        count == 0 ==> r is None,
{
    let insns = e.cs.disasm_count(code, address, count).ok()?;
    Some(insns.iter().map(|i| RawInsn {
        address: i.address(),
        bytes: i.bytes().to_vec(),
        mnemonic: i.mnemonic().map(String::from),
        op_str: i.op_str().map(String::from),
    }).collect())
}

// ---------------------------------------------------------------------------
// Text helpers
// ---------------------------------------------------------------------------

/// `i64::from_str_radix` (radix 16 when `hex`, else 10, as `str::parse`
/// does): an optional sign, at least one digit, and a value that fits.
pub open spec fn parse_i64(s: Seq<char>, hex: bool) -> Option<i64> {
    let neg = s.len() > 0 && s[0] == '-';
    let d = if s.len() > 0 && (s[0] == '-' || s[0] == '+') {
        s.drop_first()
    } else {
        s
    };
    let ok = if hex {
        all_hex(d)
    } else {
        all_digits(d)
    };
    let v: int = if hex {
        hex_value(d) as int
    } else {
        digits_value(d) as int
    };
    if d.len() > 0 && ok && (if neg {
        v <= 0x8000_0000_0000_0000
    } else {
        v <= 0x7FFF_FFFF_FFFF_FFFF
    }) {
        Some((if neg {
            -v
        } else {
            v
        }) as i64)
    } else {
        None
    }
}

/// The value of a digit in radix 16 (`hex`) or 10; -1 for any other char.
pub open spec fn digit_value(c: char, hex: bool) -> int {
    if hex {
        crate::num::hex_digit_value(c)
    } else if '0' <= c <= '9' {
        (c as u32 - '0' as u32) as int
    } else {
        -1
    }
}

/// The value of a string of digits in radix 16 (`hex`) or 10.
pub open spec fn radix_value(d: Seq<char>, hex: bool) -> int {
    if hex {
        hex_value(d) as int
    } else {
        digits_value(d) as int
    }
}

proof fn lemma_radix_step(d: Seq<char>, k: int, hex: bool)
    requires
        0 <= k < d.len(),
        digit_value(d[k], hex) >= 0,
    ensures
        radix_value(d.take(k + 1), hex) == radix_value(d.take(k), hex) * (if hex {
            16int
        } else {
            10int
        }) + digit_value(d[k], hex),
        d.take(k + 1).drop_last() == d.take(k),
{
    assert(d.take(k + 1).drop_last() =~= d.take(k));
}

proof fn lemma_radix_mono(d: Seq<char>, k: int, hex: bool)
    requires
        0 <= k <= d.len(),
        forall|j: int| 0 <= j < d.len() ==> digit_value(#[trigger] d[j], hex) >= 0,
    ensures
        radix_value(d.take(k), hex) <= radix_value(d, hex),
{
    if hex {
        assert(all_hex(d)) by {
            assert forall|j: int| 0 <= j < d.len() implies crate::num::hex_digit_value(#[trigger] d[j]) >= 0 by {
                assert(digit_value(d[j], hex) >= 0);
            }
        }
        crate::num::lemma_hex_value_mono(d, k);
    } else {
        assert(all_digits(d)) by {
            assert forall|j: int| 0 <= j < d.len() implies crate::num::is_digit(#[trigger] d[j]) by {
                assert(digit_value(d[j], hex) >= 0);
            }
        }
        crate::num::lemma_digits_value_mono(d, k);
    }
}

/// Parses a signed number as `i64::from_str_radix` does (see `parse_i64`).
fn parse_i64_chars(s: &[char], hex: bool) -> (r: Option<i64>)
    ensures
        r == parse_i64(s@, hex),
{
    let n = s.len();
    if n == 0 {
        return None;
    }
    let neg = s[0] == '-';
    let start: usize = if s[0] == '-' || s[0] == '+' {
        1
    } else {
        0
    };
    let ghost d = s@.skip(start as int);
    proof {
        assert(d == (if s@.len() > 0 && (s@[0] == '-' || s@[0] == '+') {
            s@.drop_first()
        } else {
            s@
        }));
    }
    if start >= n {
        return None;
    }
    let limit: u64 = if neg {
        0x8000_0000_0000_0000
    } else {
        0x7FFF_FFFF_FFFF_FFFF
    };
    let radix: u64 = if hex {
        16
    } else {
        10
    };
    let mut v: u64 = 0;
    let mut i: usize = start;
    proof {
        assert(d.take(0) =~= Seq::<char>::empty());
        assert(hex_value(Seq::<char>::empty()) == 0);
        assert(digits_value(Seq::<char>::empty()) == 0);
    }
    while i < n
        invariant
            start <= i <= n == s@.len(),
            start == 1 || start == 0,
            d == s@.skip(start as int),
            d == (if s@.len() > 0 && (s@[0] == '-' || s@[0] == '+') {
                s@.drop_first()
            } else {
                s@
            }),
            neg == (s@.len() > 0 && s@[0] == '-'),
            n > start,
            v <= limit,
            limit == (if neg {
                0x8000_0000_0000_0000u64
            } else {
                0x7FFF_FFFF_FFFF_FFFFu64
            }),
            radix == (if hex {
                16u64
            } else {
                10u64
            }),
            v == radix_value(d.take(i - start), hex),
            forall|j: int| 0 <= j < i - start ==> digit_value(#[trigger] d[j], hex) >= 0,
        decreases n - i,
    {
        let c = s[i];
        proof {
            assert(d[i - start] == c);
        }
        let dig: u64 = if hex {
            match crate::num::hex_digit_exec(c) {
                Some(x) => x,
                None => {
                    proof {
                        assert(!all_hex(d)) by {
                            assert(crate::num::hex_digit_value(d[i - start]) < 0);
                        }
                    }
                    return None;
                },
            }
        } else {
            if '0' <= c && c <= '9' {
                (c as u32 - '0' as u32) as u64
            } else {
                proof {
                    assert(!all_digits(d)) by {
                        assert(!crate::num::is_digit(d[i - start]));
                    }
                }
                return None;
            }
        };
        assert(dig == digit_value(c, hex));
        assert(dig < radix);
        proof {
            lemma_radix_step(d, i - start, hex);
        }
        if v > (limit - dig) / radix {
            proof {
                assert(v * radix + dig > limit) by (nonlinear_arith)
                    requires
                        v as int > (limit as int - dig as int) / (radix as int),
                        radix > 0,
                        dig < radix,
                        dig <= limit,
                ;
                if forall|j: int| 0 <= j < d.len() ==> digit_value(#[trigger] d[j], hex) >= 0 {
                    lemma_radix_mono(d, i - start + 1, hex);
                }
                if hex && all_hex(d) {
                    assert forall|j: int| 0 <= j < d.len() implies digit_value(#[trigger] d[j], hex) >= 0 by {
                        assert(crate::num::hex_digit_value(d[j]) >= 0);
                    }
                }
                if !hex && all_digits(d) {
                    assert forall|j: int| 0 <= j < d.len() implies digit_value(#[trigger] d[j], hex) >= 0 by {
                        assert(crate::num::is_digit(d[j]));
                    }
                }
            }
            return None;
        }
        assert(v * radix + dig <= limit) by (nonlinear_arith)
            requires
                v as int <= (limit as int - dig as int) / (radix as int),
                radix > 0,
                dig <= limit,
        ;
        v = v * radix + dig;
        i += 1;
    }
    proof {
        assert(d.take(n - start) =~= d);
        if hex {
            assert(all_hex(d)) by {
                assert forall|j: int| 0 <= j < d.len() implies crate::num::hex_digit_value(#[trigger] d[j]) >= 0 by {
                    assert(digit_value(d[j], hex) >= 0);
                }
            }
        } else {
            assert(all_digits(d)) by {
                assert forall|j: int| 0 <= j < d.len() implies crate::num::is_digit(#[trigger] d[j]) by {
                    assert(digit_value(d[j], hex) >= 0);
                }
            }
        }
    }
    if neg {
        if v == 0x8000_0000_0000_0000 {
            Some(i64::MIN)
        } else {
            Some(-(v as i64))
        }
    } else {
        Some(v as i64)
    }
}

/// `s` with every occurrence of `p` (not empty) replaced by `r`, left to
/// right and without overlaps, as `str::replace` does.
pub open spec fn replace_all(s: Seq<char>, p: Seq<char>, r: Seq<char>) -> Seq<char>
    decreases s.len(),
{
    if p.len() == 0 || s.len() < p.len() {
        s
    } else if s.take(p.len() as int) == p {
        r + replace_all(s.skip(p.len() as int), p, r)
    } else {
        seq![s[0]] + replace_all(s.drop_first(), p, r)
    }
}

/// Replaces every occurrence of `p` (not empty) in `s` by `r`.
fn replace_all_exec(s: &[char], p: &[char], r: &str) -> (res: String)
    requires
        p@.len() > 0,
    ensures
        res@ == replace_all(s@, p@, r@),
{
    let mut out = String::new();
    let mut i: usize = 0;
    let n = s.len();
    let m = p.len();
    proof {
        assert(s@.skip(0) =~= s@);
        assert(Seq::<char>::empty() + replace_all(s@, p@, r@) =~= replace_all(s@, p@, r@));
    }
    while i < n
        invariant
            i <= n == s@.len(),
            m == p@.len() > 0,
            out@ + replace_all(s@.skip(i as int), p@, r@) == replace_all(s@, p@, r@),
        decreases n - i,
    {
        let ghost rest = s@.skip(i as int);
        if n - i < m {
            proof {
                assert(replace_all(rest, p@, r@) == rest);
            }
            let ghost out0 = out@;
            let mut k = i;
            proof {
                assert(out0 + s@.subrange(i as int, i as int) =~= out0);
            }
            while k < n
                invariant
                    i <= k <= n == s@.len(),
                    out@ == out0 + s@.subrange(i as int, k as int),
                decreases n - k,
            {
                proof {
                    assert(out0 + s@.subrange(i as int, k + 1) =~= (out0 + s@.subrange(i as int, k as int)).push(s@[k as int]));
                }
                push_char(&mut out, s[k]);
                k += 1;
            }
            proof {
                assert(s@.skip(i as int) =~= s@.subrange(i as int, n as int));
            }
            return out;
        }
        let mut matched = true;
        let mut j: usize = 0;
        while j < m
            invariant
                j <= m == p@.len(),
                i + m <= n == s@.len(),
                matched ==> forall|t: int| 0 <= t < j ==> s@[i + t] == p@[t],
                !matched ==> exists|t: int| 0 <= t < m && s@[i + t] != p@[t],
            decreases m - j,
        {
            if matched && s[i + j] != p[j] {
                matched = false;
            }
            j += 1;
        }
        if matched {
            proof {
                assert(rest.take(m as int) =~= p@);
                assert(rest.skip(m as int) =~= s@.skip(i + m));
                assert(out@ + r@ + replace_all(s@.skip(i + m), p@, r@) =~= out@ + (r@ + replace_all(
                    s@.skip(i + m),
                    p@,
                    r@,
                )));
            }
            push_str(&mut out, r);
            i += m;
        } else {
            proof {
                let t = choose|t: int| 0 <= t < m && s@[i + t] != p@[t];
                assert(rest.take(m as int)[t] != p@[t]);
                assert(rest.drop_first() =~= s@.skip(i + 1));
                assert(out@.push(s@[i as int]) + replace_all(s@.skip(i + 1), p@, r@) =~= out@ + (seq![
                    s@[i as int],
                ] + replace_all(s@.skip(i + 1), p@, r@)));
            }
            push_char(&mut out, s[i]);
            i += 1;
        }
    }
    proof {
        assert(s@.skip(n as int) =~= Seq::<char>::empty());
        assert(out@ + Seq::<char>::empty() =~= out@);
    }
    out
}

// ---------------------------------------------------------------------------
// RIP-relative operands
// ---------------------------------------------------------------------------

/// The bytes of `rip`.
pub open spec fn rip_bytes() -> Seq<u8> {
    seq![0x72u8, 0x69u8, 0x70u8]
}

/// The last index before `to` that holds byte `x`.
pub open spec fn last_byte_before(b: Seq<u8>, x: u8, to: int) -> Option<int>
    decreases to,
{
    if to <= 0 || to > b.len() {
        None
    } else if b[to - 1] == x {
        Some(to - 1)
    } else {
        last_byte_before(b, x, to - 1)
    }
}

/// In the bytes of the lowercased operands: the first `rip`, the last `[`
/// before it and the first `]` from it on.
pub open spec fn rip_bracket(lb: Seq<u8>) -> Option<(int, int, int)> {
    match first_occ(lb, rip_bytes(), 0, lb.len() as int) {
        None => None,
        Some(r) => match last_byte_before(lb, 0x5B, r) {
            None => None,
            Some(bs) => match first_occ(lb, seq![0x5Du8], r, lb.len() as int) {
                None => None,
                Some(be) => Some((r, bs, be)),
            },
        },
    }
}

proof fn lemma_last_byte_before(b: Seq<u8>, x: u8, to: int)
    ensures
        last_byte_before(b, x, to) matches Some(k) ==> 0 <= k < to && b[k] == x,
    decreases to,
{
    if 0 < to <= b.len() && b[to - 1] != x {
        lemma_last_byte_before(b, x, to - 1);
    }
}

/// The position of `rip` and of the brackets around it (see
/// `rip_bracket`).
fn rip_bracket_exec(lb: &[u8]) -> (r: Option<(usize, usize, usize)>)
    ensures
        r is Some <==> rip_bracket(lb@) is Some,
        r matches Some((a, b, c)) ==> rip_bracket(lb@) == Some((a as int, b as int, c as int)) && b < a
            <= c < lb@.len() && a + 3 <= lb@.len() && lb@[b as int] == 0x5Bu8 && lb@[c as int] == 0x5Du8,
{
    let mut rip: Vec<u8> = Vec::new();
    rip.push(0x72);
    rip.push(0x69);
    rip.push(0x70);
    assert(rip@ =~= rip_bytes());
    let n = lb.len();
    proof {
        crate::bytes::lemma_first_occ(lb@, rip_bytes(), 0, n as int);
    }
    let r = match find_bytes(lb, rip.as_slice(), 0, n) {
        Some(r) => r,
        None => return None,
    };
    let mut k = r;
    while k > 0
        invariant
            k <= r < n == lb@.len(),
            last_byte_before(lb@, 0x5B, r as int) == last_byte_before(lb@, 0x5B, k as int),
        ensures
            k <= r < n == lb@.len(),
            last_byte_before(lb@, 0x5B, r as int) == last_byte_before(lb@, 0x5B, k as int),
            k == 0 || lb@[k - 1] == 0x5Bu8,
        decreases k,
    {
        if lb[k - 1] == 0x5B {
            break;
        }
        k -= 1;
    }
    if k == 0 {
        return None;
    }
    let bs = k - 1;
    let mut close: Vec<u8> = Vec::new();
    close.push(0x5D);
    assert(close@ =~= seq![0x5Du8]);
    proof {
        crate::bytes::lemma_first_occ(lb@, seq![0x5Du8], r as int, n as int);
        lemma_last_byte_before(lb@, 0x5B, r as int);
    }
    match find_bytes(lb, close.as_slice(), r, n) {
        Some(be) => {
            proof {
                assert(lb@.subrange(be as int, be + 1)[0] == lb@[be as int]);
            }
            Some((r, bs, be))
        },
        None => None,
    }
}

/// The operands with the bracket around `rip` replaced by `[name]`, the
/// positions found in the lowercased text applied to the text itself.
/// Where they do not fall on its character boundaries (so that slicing
/// would panic), or there is no such bracket, the operands are kept.
pub open spec fn rip_substituted(ops: Seq<char>, name: Seq<char>) -> Seq<char> {
    let ob = bytes_of(ops);
    match rip_bracket(bytes_of(lowercase(ops))) {
        Some((r, bs, be)) => if be <= ob.len() && boundary(ob, bs + 1) && boundary(ob, be) {
            decode_utf8(ob.take(bs + 1) + bytes_of(name) + ob.skip(be))
        } else {
            ops
        },
        None => ops,
    }
}

/// Replaces the `[rip ...]` bracket of the operands by `[name]` (see
/// `rip_substituted`).
fn substitute_rip_with_symbol(ops: &str, name: &str) -> (res: String)
    ensures
        res@ == rip_substituted(ops@, name@),
{
    let lower = to_lowercase(ops);
    let lb = lower.as_str().as_bytes();
    let ob = ops.as_bytes();
    let rb = rip_bracket_exec(lb);
    proof {
        assert(lb@ == bytes_of(lowercase(ops@)));
        assert(ob@ == bytes_of(ops@));
    }
    match rb {
        None => String::from_str(ops),
        Some((_, bs, be)) => {
            proof {
                assert(lb@ == bytes_of(lowercase(ops@)));
                assert(ob@ == bytes_of(ops@));
            }
            if be <= ob.len() && is_boundary(ob, bs + 1) && is_boundary(ob, be) {
                let mut out = str_byte_range(ops, 0, bs + 1);
                let ghost head0 = out@;
                push_str(&mut out, name);
                let tail = str_byte_range(ops, be, ob.len());
                let ghost head = out@;
                push_str(&mut out, tail.as_str());
                proof {
                    crate::bytes::lemma_bytes_concat(head0, name@);
                    crate::bytes::lemma_bytes_concat(head, tail@);
                    assert(bytes_of(ops@).subrange(0, bs + 1) =~= bytes_of(ops@).take(bs + 1));
                    assert(bytes_of(ops@).subrange(be as int, bytes_of(ops@).len() as int) =~= bytes_of(
                        ops@,
                    ).skip(be as int));
                    assert(bytes_of(out@) =~= bytes_of(ops@).take(bs + 1) + bytes_of(name@) + bytes_of(
                        ops@,
                    ).skip(be as int));
                    vstd::utf8::encode_utf8_decode_utf8(out@);
                }
                out
            } else {
                String::from_str(ops)
            }
        },
    }
}

/// The address a `[rip ± displacement]` operand refers to: the address
/// after the instruction, plus or minus the displacement (hex after `0x`,
/// else decimal), as `i64` arithmetic wrapped to `u64`; an empty
/// displacement refers to the address after the instruction. `None` when
/// there is no such bracket or the displacement does not read, and where
/// the computation would panic: slicing inside a character, or an
/// arithmetic overflow.
pub open spec fn rip_target(ops: Seq<char>, addr: u64, size: u64) -> Option<u64> {
    let lb = bytes_of(lowercase(ops));
    match rip_bracket(lb) {
        None => None,
        Some((r, bs, be)) => if !boundary(lb, bs + 1) {
            None
        } else {
            let inner = trim(decode_utf8(lb.subrange(bs + 1, be)));
            let ib = bytes_of(inner);
            if ib.len() < 3 || !boundary(ib, 3) {
                None
            } else {
                let after = trim(decode_utf8(ib.skip(3)));
                if after.len() == 0 {
                    if addr + size <= u64::MAX {
                        Some((addr + size) as u64)
                    } else {
                        None
                    }
                } else if after[0] == '+' || after[0] == '-' {
                    let hp = trim(after.drop_first());
                    let disp = if hp.len() >= 2 && hp[0] == '0' && hp[1] == 'x' {
                        parse_i64(hp.skip(2), true)
                    } else {
                        parse_i64(hp, false)
                    };
                    match disp {
                        None => None,
                        Some(d) => {
                            let neg = after[0] == '-';
                            if addr + size > u64::MAX || (neg && d == i64::MIN) {
                                None
                            } else {
                                let t = ((addr + size) as u64) as i64 as int + (if neg {
                                    -(d as int)
                                } else {
                                    d as int
                                });
                                if i64::MIN <= t <= i64::MAX {
                                    Some((t as i64) as u64)
                                } else {
                                    None
                                }
                            }
                        },
                    }
                } else {
                    None
                }
            }
        },
    }
}

/// The address a `[rip ± displacement]` operand refers to (see
/// `rip_target`).
fn resolve_rip_relative(ops: &str, addr: u64, size: u64) -> (res: Option<u64>)
    ensures
        res == rip_target(ops@, addr, size),
{
    let lower = to_lowercase(ops);
    let ls = lower.as_str();
    let lb = ls.as_bytes();
    let rb = rip_bracket_exec(lb);
    proof {
        assert(lb@ == bytes_of(lowercase(ops@)));
    }
    let (_, bs, be) = match rb {
        None => return None,
        Some(t) => t,
    };
    if !is_boundary(lb, bs + 1) {
        return None;
    }
    proof {
        assert(!crate::bytes::is_cont(lb@[be as int]));
    }
    let inner_raw = str_byte_range(ls, bs + 1, be);
    proof {
        vstd::utf8::encode_utf8_decode_utf8(inner_raw@);
        assert(inner_raw@ == decode_utf8(lb@.subrange(bs + 1, be as int)));
    }
    let ic = str_chars(inner_raw.as_str());
    let it = trimmed_chars(ic.as_slice());
    let inner = string_from_chars(it.as_slice());
    let ib = inner.as_str().as_bytes();
    if ib.len() < 3 || !is_boundary(ib, 3) {
        return None;
    }
    let after_raw = str_byte_range(inner.as_str(), 3, ib.len());
    proof {
        vstd::utf8::encode_utf8_decode_utf8(after_raw@);
        assert(bytes_of(inner@).subrange(3, bytes_of(inner@).len() as int) =~= bytes_of(inner@).skip(3));
    }
    let ac = str_chars(after_raw.as_str());
    let after = trimmed_chars(ac.as_slice());
    if after.len() == 0 {
        return addr.checked_add(size);
    }
    if !(after[0] == '+' || after[0] == '-') {
        return None;
    }
    let neg = after[0] == '-';
    let mut rest: Vec<char> = Vec::new();
    push_range(&mut rest, after.as_slice(), 1, after.len());
    proof {
        assert(rest@ =~= after@.drop_first());
    }
    let hp = trimmed_chars(rest.as_slice());
    let disp = if hp.len() >= 2 && hp[0] == '0' && hp[1] == 'x' {
        let mut h: Vec<char> = Vec::new();
        push_range(&mut h, hp.as_slice(), 2, hp.len());
        proof {
            assert(h@ =~= hp@.skip(2));
        }
        parse_i64_chars(h.as_slice(), true)
    } else {
        parse_i64_chars(hp.as_slice(), false)
    };
    let d = match disp {
        None => return None,
        Some(d) => d,
    };
    let base = match addr.checked_add(size) {
        None => return None,
        Some(b) => b,
    };
    if neg && d == i64::MIN {
        return None;
    }
    let sd: i64 = if neg {
        -d
    } else {
        d
    };
    let b64 = base as i64;
    match b64.checked_add(sd) {
        None => None,
        Some(t) => Some(t as u64),
    }
}

// ---------------------------------------------------------------------------
// Absolute addresses in operands
// ---------------------------------------------------------------------------

/// An ASCII hexadecimal digit byte.
pub open spec fn is_hex_byte(x: u8) -> bool {
    (0x30 <= x <= 0x39) || (0x41 <= x <= 0x46) || (0x61 <= x <= 0x66)
}

/// Where the run of hexadecimal digit bytes from `i` ends.
pub open spec fn hex_run_end(b: Seq<u8>, i: int) -> int
    decreases b.len() - i,
{
    if 0 <= i < b.len() && is_hex_byte(b[i]) {
        hex_run_end(b, i + 1)
    } else {
        i
    }
}

pub proof fn lemma_hex_run_end(b: Seq<u8>, i: int)
    ensures
        hex_run_end(b, i) >= i,
        0 <= i <= b.len() ==> hex_run_end(b, i) <= b.len(),
        forall|k: int| i <= k < hex_run_end(b, i) ==> is_hex_byte(#[trigger] b[k]),
    decreases b.len() - i,
{
    if 0 <= i < b.len() && is_hex_byte(b[i]) {
        lemma_hex_run_end(b, i + 1);
    }
}

/// The characters of ASCII bytes `from..to`.
pub open spec fn ascii_text(b: Seq<u8>, from: int, to: int) -> Seq<char> {
    Seq::new((to - from) as nat, |k: int| b[from + k] as char)
}

/// Whether a symbol covers the address or lies at or below it.
pub open spec fn near_symbol(syms: Seq<Symbol>, a: u64) -> bool {
    first_covering(syms, a, 0) is Some || nearest_before(syms, a, syms.len() as int) is Some
}

/// Scanning the operand bytes from `i` (while ten bytes are left) for `0x`
/// or `0X` followed by at least eight hexadecimal digits whose value has a
/// symbol near it: that value and the text `0x…` matched.
pub open spec fn abs_scan(syms: Seq<Symbol>, b: Seq<u8>, i: int) -> Option<(u64, Seq<char>)>
    decreases b.len() - i,
{
    if i < 0 || i + 10 > b.len() {
        None
    } else if b[i] == 0x30 && (b[i + 1] == 0x78 || b[i + 1] == 0x58) {
        let e = hex_run_end(b, i + 2);
        proof {
            lemma_hex_run_end(b, i + 2);
        }
        if e - (i + 2) >= 8 {
            match parse_hex_u64(ascii_text(b, i + 2, e)) {
                Some(a) => if near_symbol(syms, a) {
                    Some((a, ascii_text(b, i, e)))
                } else {
                    abs_scan(syms, b, e)
                },
                None => abs_scan(syms, b, e),
            }
        } else {
            abs_scan(syms, b, e)
        }
    } else {
        abs_scan(syms, b, i + 1)
    }
}

/// The characters of ASCII bytes `from..to`, as a string.
fn ascii_string(b: &[u8], from: usize, to: usize) -> (r: String)
    requires
        from <= to <= b@.len(),
    ensures
        r@ == ascii_text(b@, from as int, to as int),
{
    let mut out = String::new();
    let mut k = from;
    while k < to
        invariant
            from <= k <= to <= b@.len(),
            out@ == ascii_text(b@, from as int, k as int),
        decreases to - k,
    {
        push_char(&mut out, b[k] as char);
        proof {
            assert(out@ =~= ascii_text(b@, from as int, k + 1));
        }
        k += 1;
    }
    out
}

impl Disassembler {
    /// The first `0x…` address of eight or more hex digits in the operands
    /// that has a symbol near it, with the text matched (see `abs_scan`).
    pub fn find_absolute_address_with_text(&self, ops: &str) -> (r: Option<(u64, String)>)
        ensures
            match abs_scan(self.syms(), bytes_of(ops@), 0) {
                Some((a, t)) => r matches Some((a2, t2)) && a2 == a && t2@ == t,
                None => r is None,
            },
    {
        let b = ops.as_bytes();
        let n = b.len();
        if n < 10 {
            return None;
        }
        let mut i: usize = 0;
        while i <= n - 10
            invariant
                n == b@.len() >= 10,
                b@ == bytes_of(ops@),
                abs_scan(self.syms(), b@, 0) == abs_scan(self.syms(), b@, i as int),
            decreases n - i,
        {
            if b[i] == 0x30 && (b[i + 1] == 0x78 || b[i + 1] == 0x58) {
                let start = i;
                let mut j = i + 2;
                proof {
                    lemma_hex_run_end(b@, i + 2);
                }
                while j < n && ((0x30 <= b[j] && b[j] <= 0x39) || (0x41 <= b[j] && b[j] <= 0x46) || (0x61
                    <= b[j] && b[j] <= 0x66))
                    invariant
                        start + 2 <= j <= n == b@.len(),
                        hex_run_end(b@, start + 2) == hex_run_end(b@, j as int),
                    decreases n - j,
                {
                    j += 1;
                }
                proof {
                    lemma_hex_run_end(b@, j as int);
                }
                if j - (start + 2) >= 8 {
                    let hs = ascii_string(b, start + 2, j);
                    let hc = str_chars(hs.as_str());
                    proof {
                        assert(hc@.subrange(0, hc@.len() as int) =~= hc@);
                    }
                    match parse_hex_u64_chars(hc.as_slice(), 0, hc.len()) {
                        Some(a) => {
                            let near = self.symbol_at_address(a).is_some() || self.nearest_symbol_before(
                                a,
                            ).is_some();
                            if near {
                                let t = ascii_string(b, start, j);
                                return Some((a, t));
                            }
                        },
                        None => {},
                    }
                }
                i = j;
                if i > n - 10 {
                    return None;
                }
            } else {
                i += 1;
            }
        }
        None
    }
}

proof fn lemma_abs_scan(syms: Seq<Symbol>, b: Seq<u8>, i: int)
    ensures
        abs_scan(syms, b, i) matches Some((a, t)) ==> t.len() >= 10,
    decreases b.len() - i,
{
    if 0 <= i && i + 10 <= b.len() {
        if b[i] == 0x30 && (b[i + 1] == 0x78 || b[i + 1] == 0x58) {
            let e = hex_run_end(b, i + 2);
            lemma_hex_run_end(b, i + 2);
            lemma_abs_scan(syms, b, e);
        } else {
            lemma_abs_scan(syms, b, i + 1);
        }
    }
}

// ---------------------------------------------------------------------------
// Listing lines
// ---------------------------------------------------------------------------

/// Whether a text starts with the character.
pub open spec fn starts_with_char(s: Seq<char>, c: char) -> bool {
    s.len() > 0 && s[0] == c
}

/// A mnemonic whose operand may name a code address: `j…`, `b…` or `call`.
pub open spec fn is_branch_like(m: Seq<char>) -> bool {
    starts_with_char(m, 'j') || starts_with_char(m, 'b') || m == "call"@
}

/// A mnemonic whose target the line records: `j…`, `call`, and `b…` but
/// `bswap`.
pub open spec fn records_target(m: Seq<char>) -> bool {
    starts_with_char(m, 'j') || m == "call"@ || (starts_with_char(m, 'b') && m != "bswap"@)
}

/// A missing text taken as empty.
pub open spec fn opt_text(o: Option<Seq<char>>) -> Seq<char> {
    match o {
        Some(t) => t,
        None => Seq::empty(),
    }
}

/// The operands written symbolically, and the raw operands as a comment:
/// a branch-like instruction's target address; else the address a
/// `[rip ± …]` operand refers to, the bracket replaced by `[name]`; else
/// the first long `0x…` address with a symbol near it, every occurrence of
/// its text replaced. Each only where the address has a symbolic name
/// (see `symbol_ref`); otherwise the operands as they are, no comment.
pub open spec fn resolved_operands(syms: Seq<Symbol>, mn: Seq<char>, ops: Seq<char>, addr: u64, size: u64) -> (
    Seq<char>,
    Option<Seq<char>>,
) {
    let direct = if is_branch_like(mn) {
        match hex_address(ops) {
            Some(t) => symbol_ref(syms, t),
            None => None,
        }
    } else {
        None
    };
    let rip = match rip_target(ops, addr, size) {
        Some(t) => symbol_ref(syms, t),
        None => None,
    };
    if direct is Some {
        (direct->Some_0, Some(ops))
    } else if rip is Some {
        (rip_substituted(ops, rip->Some_0), Some(ops))
    } else {
        match abs_scan(syms, bytes_of(ops), 0) {
            Some((t, text)) => match symbol_ref(syms, t) {
                Some(n) => (replace_all(ops, text, n), Some(ops)),
                None => (ops, None),
            },
            None => (ops, None),
        }
    }
}

/// The address a branch-like instruction names in its operands, which the
/// listing marks as a branch target.
pub open spec fn marked_target(i: (u64, Seq<u8>, Option<Seq<char>>, Option<Seq<char>>)) -> Option<u64> {
    if is_branch_like(opt_text(i.2)) {
        match i.3 {
            Some(o) => hex_address(o),
            None => None,
        }
    } else {
        None
    }
}

/// Whether some instruction marks the address as a branch target.
pub open spec fn is_marked(insns: Seq<(u64, Seq<u8>, Option<Seq<char>>, Option<Seq<char>>)>, a: u64) -> bool {
    exists|k: int| 0 <= k < insns.len() && marked_target(#[trigger] insns[k]) == Some(a)
}

/// The name of a symbol that starts exactly at the address.
pub open spec fn symbol_here(syms: Seq<Symbol>, a: u64) -> Option<Seq<char>> {
    match first_covering(syms, a, 0) {
        Some(k) => if syms[k].address == a {
            Some(syms[k].name@)
        } else {
            None
        },
        None => None,
    }
}

/// The model of a listing line: address, bytes, mnemonic, operands,
/// comment, symbol, whether it is a branch target, the target it records.
pub open spec fn line_view(l: DisasmLine) -> (
    u64,
    Seq<u8>,
    Seq<char>,
    Seq<char>,
    Option<Seq<char>>,
    Option<Seq<char>>,
    bool,
    Option<u64>,
) {
    (
        l.address,
        l.bytes@,
        l.mnemonic@,
        l.operands@,
        match l.comment {
            Some(c) => Some(c@),
            None => None,
        },
        match l.symbol {
            Some(c) => Some(c@),
            None => None,
        },
        l.is_branch_target,
        l.branch_target,
    )
}

/// The line an instruction becomes among the instructions decoded.
pub open spec fn insn_line(
    syms: Seq<Symbol>,
    insns: Seq<(u64, Seq<u8>, Option<Seq<char>>, Option<Seq<char>>)>,
    i: (u64, Seq<u8>, Option<Seq<char>>, Option<Seq<char>>),
) -> (u64, Seq<u8>, Seq<char>, Seq<char>, Option<Seq<char>>, Option<Seq<char>>, bool, Option<u64>) {
    let mn = opt_text(i.2);
    let ops = opt_text(i.3);
    let r = resolved_operands(syms, mn, ops, i.0, i.1.len() as u64);
    (
        i.0,
        i.1,
        mn,
        r.0,
        r.1,
        symbol_here(syms, i.0),
        is_marked(insns, i.0),
        if records_target(mn) {
            hex_address(ops)
        } else {
            None
        },
    )
}

/// The lines of the instructions decoded, one per instruction.
pub open spec fn listing(
    syms: Seq<Symbol>,
    insns: Seq<(u64, Seq<u8>, Option<Seq<char>>, Option<Seq<char>>)>,
) -> Seq<(u64, Seq<u8>, Seq<char>, Seq<char>, Option<Seq<char>>, Option<Seq<char>>, bool, Option<u64>)> {
    Seq::new(insns.len(), |k: int| insn_line(syms, insns, insns[k]))
}

/// The models of listing lines.
pub open spec fn lines_view(v: Seq<DisasmLine>) -> Seq<
    (u64, Seq<u8>, Seq<char>, Seq<char>, Option<Seq<char>>, Option<Seq<char>>, bool, Option<u64>),
> {
    Seq::new(v.len(), |k: int| line_view(v[k]))
}

/// The lines of what capstone decodes from byte `offset` of the binary on
/// (placed at its address), at most `count` instructions: none when the
/// offset is past the bytes, the decoder does not build, or capstone
/// reports an error.
pub open spec fn range_lines(d: Disassembler, offset: int, count: usize) -> Seq<
    (u64, Seq<u8>, Seq<char>, Seq<char>, Option<Seq<char>>, Option<Seq<char>>, bool, Option<u64>),
> {
    if offset < 0 || offset >= d.code().len() || !capstone_builds(d.arch_of()) {
        Seq::empty()
    } else {
        match capstone_insns(d.arch_of(), d.code().skip(offset), (d.base() + offset) as u64, count) {
            Some(insns) => listing(d.syms(), insns),
            None => Seq::empty(),
        }
    }
}

/// Whether a text starts with the character.
fn starts_with_exec(s: &str, c: char) -> (r: bool)
    ensures
        r == starts_with_char(s@, c),
{
    let cs = str_chars(s);
    cs.len() > 0 && cs[0] == c
}

fn is_branch_like_exec(m: &str) -> (r: bool)
    ensures
        r == is_branch_like(m@),
{
    starts_with_exec(m, 'j') || starts_with_exec(m, 'b') || str_eq(m, "call")
}

fn records_target_exec(m: &str) -> (r: bool)
    ensures
        r == records_target(m@),
{
    starts_with_exec(m, 'j') || str_eq(m, "call") || (starts_with_exec(m, 'b') && !str_eq(m, "bswap"))
}

/// A missing text as an empty string.
fn text_or_empty(o: &Option<String>) -> (r: String)
    ensures
        r@ == opt_text(
            match o {
                Some(t) => Some(t@),
                None => None,
            },
        ),
{
    match o {
        Some(t) => t.clone(),
        None => String::new(),
    }
}

impl Disassembler {
    /// The operands written symbolically, and the raw operands as a comment
    /// (see `resolved_operands`).
    pub fn resolve_operands(&self, mn: &str, ops: &str, addr: u64, size: u64) -> (r: (String, Option<String>))
        ensures
            r.0@ == resolved_operands(self.syms(), mn@, ops@, addr, size).0,
            match resolved_operands(self.syms(), mn@, ops@, addr, size).1 {
                Some(c) => r.1 matches Some(c2) && c2@ == c,
                None => r.1 is None,
            },
    {
        if is_branch_like_exec(mn) {
            if let Some(target) = parse_hex_address(ops) {
                if let Some(name) = self.format_symbol_ref(target) {
                    return (name, Some(String::from_str(ops)));
                }
            }
        }
        if let Some(target) = resolve_rip_relative(ops, addr, size) {
            if let Some(name) = self.format_symbol_ref(target) {
                let resolved = substitute_rip_with_symbol(ops, name.as_str());
                return (resolved, Some(String::from_str(ops)));
            }
        }
        proof {
            lemma_abs_scan(self.syms(), bytes_of(ops@), 0);
        }
        if let Some((target, text)) = self.find_absolute_address_with_text(ops) {
            if let Some(name) = self.format_symbol_ref(target) {
                let oc = str_chars(ops);
                let tc = str_chars(text.as_str());
                let resolved = replace_all_exec(oc.as_slice(), tc.as_slice(), name.as_str());
                return (resolved, Some(String::from_str(ops)));
            }
        }
        (String::from_str(ops), None)
    }
}

/// The target a branch-like instruction names (see `marked_target`).
fn marked_target_exec(i: &RawInsn) -> (r: Option<u64>)
    ensures
        r == marked_target(insn_spec(*i)),
{
    let mn = text_or_empty(&i.mnemonic);
    if is_branch_like_exec(mn.as_str()) {
        match &i.op_str {
            Some(o) => parse_hex_address(o.as_str()),
            None => None,
        }
    } else {
        None
    }
}

/// Whether the list holds the address.
fn holds_address(v: &Vec<u64>, a: u64) -> (r: bool)
    ensures
        r == v@.contains(a),
{
    let mut k: usize = 0;
    while k < v.len()
        invariant
            k <= v@.len(),
            forall|j: int| 0 <= j < k ==> v@[j] != a,
        decreases v.len() - k,
    {
        if v[k] == a {
            return true;
        }
        k += 1;
    }
    false
}

/// A copy of bytes.
fn copy_bytes(b: &Vec<u8>) -> (r: Vec<u8>)
    ensures
        r@ == b@,
{
    let mut out: Vec<u8> = Vec::new();
    let mut k: usize = 0;
    while k < b.len()
        invariant
            k <= b@.len(),
            out@ == b@.take(k as int),
        decreases b.len() - k,
    {
        out.push(b[k]);
        proof {
            assert(b@.take(k + 1) =~= b@.take(k as int).push(b@[k as int]));
        }
        k += 1;
    }
    assert(b@.take(b@.len() as int) =~= b@);
    out
}

impl Disassembler {
    /// The line an instruction becomes, given the branch targets marked by
    /// the instructions decoded with it (see `insn_line`).
    fn insn_to_line(&self, insn: &RawInsn, targets: &Vec<u64>, Ghost(all): Ghost<Seq<(u64, Seq<u8>, Option<Seq<char>>, Option<Seq<char>>)>>) -> (r: DisasmLine)
        requires
            forall|a: u64| targets@.contains(a) <==> is_marked(all, a),
        ensures
            line_view(r) == insn_line(self.syms(), all, insn_spec(*insn)),
    {
        let addr = insn.address;
        let size = insn.bytes.len() as u64;
        let symbol = match self.symbol_at_address(addr) {
            Some(s) => if s.address == addr {
                Some(s.name.clone())
            } else {
                None
            },
            None => None,
        };
        let ops = text_or_empty(&insn.op_str);
        let mn = text_or_empty(&insn.mnemonic);
        let branch_target = if records_target_exec(mn.as_str()) {
            parse_hex_address(ops.as_str())
        } else {
            None
        };
        let (operands, comment) = self.resolve_operands(mn.as_str(), ops.as_str(), addr, size);
        let is_target = holds_address(targets, addr);
        let line = DisasmLine {
            address: addr,
            bytes: copy_bytes(&insn.bytes),
            mnemonic: mn,
            operands,
            comment,
            symbol,
            is_branch_target: is_target,
            branch_target,
        };
        proof {
            assert(line_view(line).5 == symbol_here(self.syms(), addr));
        }
        line
    }

    /// The listing lines of decoded instructions (see `listing`): branch
    /// targets marked, operands written symbolically.
    pub fn insns_to_lines(&self, insns: &Vec<RawInsn>) -> (r: Vec<DisasmLine>)
        ensures
            lines_view(r@) == listing(self.syms(), insns_spec(insns@)),
    {
        let ghost all = insns_spec(insns@);
        let mut targets: Vec<u64> = Vec::new();
        let mut i: usize = 0;
        while i < insns.len()
            invariant
                i <= insns@.len(),
                all == insns_spec(insns@),
                forall|a: u64| targets@.contains(a) <==> exists|k: int| 0 <= k < i && marked_target(#[trigger] all[k]) == Some(a),
            decreases insns.len() - i,
        {
            let t = marked_target_exec(&insns[i]);
            proof {
                assert(all[i as int] == insn_spec(insns@[i as int]));
            }
            match t {
                Some(a) => {
                    let ghost prev = targets@;
                    targets.push(a);
                    proof {
                        assert forall|x: u64| targets@.contains(x) <==> exists|k: int| 0 <= k < i + 1 && marked_target(#[trigger] all[k]) == Some(x) by {
                            if targets@.contains(x) && x != a {
                                let j = choose|j: int| 0 <= j < targets@.len() && targets@[j] == x;
                                assert(prev.contains(x)) by {
                                    assert(targets@[j] == x);
                                    assert(j < prev.len());
                                    assert(prev[j] == x);
                                }
                            }
                            if x == a {
                                assert(targets@[targets@.len() - 1] == a);
                            }
                            if prev.contains(x) {
                                let j = choose|j: int| 0 <= j < prev.len() && prev[j] == x;
                                assert(targets@[j] == x);
                            }
                        }
                    }
                },
                None => {
                    proof {
                        assert forall|x: u64| targets@.contains(x) <==> exists|k: int| 0 <= k < i + 1 && marked_target(#[trigger] all[k]) == Some(x) by {
                            if exists|k: int| 0 <= k < i + 1 && marked_target(#[trigger] all[k]) == Some(x) {
                                let k = choose|k: int| 0 <= k < i + 1 && marked_target(#[trigger] all[k]) == Some(x);
                                assert(k < i);
                            }
                        }
                    }
                },
            }
            i += 1;
        }
        let mut lines: Vec<DisasmLine> = Vec::new();
        let mut j: usize = 0;
        while j < insns.len()
            invariant
                j <= insns@.len(),
                all == insns_spec(insns@),
                forall|a: u64| targets@.contains(a) <==> is_marked(all, a),
                lines@.len() == j,
                forall|k: int| 0 <= k < j ==> line_view(#[trigger] lines@[k]) == insn_line(self.syms(), all, all[k]),
            decreases insns.len() - j,
        {
            let line = self.insn_to_line(&insns[j], &targets, Ghost(all));
            lines.push(line);
            j += 1;
        }
        proof {
            assert(lines_view(lines@) =~= listing(self.syms(), all));
        }
        lines
    }

    /// Decodes up to `count` instructions from byte `offset` on and writes
    /// them as listing lines (see `insns_to_lines`); no lines when the
    /// offset is past the bytes, the decoder cannot be built, or capstone
    /// reports an error (a count of 0 is one).
    pub fn disassemble_range(&self, offset: usize, count: usize) -> (r: Vec<DisasmLine>)
        requires
            offset < self.code().len() ==> self.base() + offset <= u64::MAX,
        ensures
            lines_view(r@) == range_lines(*self, offset as int, count),
            count == 0 ==> r@.len() == 0,
    {
        let code = self.bytes();
        if offset >= code.len() {
            let r = Vec::new();
            assert(lines_view(r@) =~= Seq::empty());
            return r;
        }
        let engine = match capstone_engine(self.arch()) {
            Some(e) => e,
            None => {
                let r = Vec::new();
                assert(lines_view(r@) =~= Seq::empty());
                return r;
            },
        };
        let mut slice: Vec<u8> = Vec::new();
        let mut k = offset;
        while k < code.len()
            invariant
                offset <= k <= code@.len(),
                slice@ == code@.subrange(offset as int, k as int),
            decreases code.len() - k,
        {
            slice.push(code[k]);
            proof {
                assert(code@.subrange(offset as int, k + 1) =~= code@.subrange(offset as int, k as int).push(code@[k as int]));
            }
            k += 1;
        }
        proof {
            assert(slice@ =~= self.code().skip(offset as int));
        }
        let addr = self.offset_to_address(offset);
        match capstone_disasm(&engine, slice.as_slice(), addr, count) {
            Some(insns) => self.insns_to_lines(&insns),
            None => {
                let r = Vec::new();
                assert(lines_view(r@) =~= Seq::empty());
                r
            },
        }
    }

    /// Disassembles from a virtual address (see `disassemble_range`); no
    /// lines for an address outside the bytes.
    pub fn disassemble_at_address(&self, address: u64, count: usize) -> (r: Vec<DisasmLine>)
        ensures
            lines_view(r@) == (if address >= self.base() && ((address - self.base()) as usize) < self.code().len() {
                range_lines(*self, (address - self.base()) as usize as int, count)
            } else {
                Seq::empty()
            }),
    {
        match self.address_to_offset(address) {
            Some(off) => {
                proof {
                    let x: u64 = (address - self.base()) as u64;
                    assert(x as usize == off);
                    assert((x as usize) as u64 <= x) by (bit_vector);
                    assert(self.base() + off <= u64::MAX);
                }
                self.disassemble_range(off, count)
            },
            None => {
                let r = Vec::new();
                assert(lines_view(r@) =~= Seq::empty());
                r
            },
        }
    }
}

} // verus!
