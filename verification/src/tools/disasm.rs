//! Disassembly views: the bytes and symbols of a binary, symbol lookup and
//! symbolic references, and the branch arrows drawn beside the listing.
use vstd::prelude::*;
use crate::num::{hex_number, parse_hex_u64, parse_hex_u64_chars, push_hex_number};
use crate::text::{chars_contain, chars_eq, contains, occurs_at, push_char, str_chars, str_eq, trim};
use crate::unicode::{lowercase, to_lowercase};
use crate::bytes::{string_from_utf8_lossy, utf8_lossy};
use vstd::utf8::{decode_utf8, valid_utf8};

verus! {

/// An instruction set the disassembler decodes.
#[derive(Debug, Clone, Copy, PartialEq, Eq, Structural)]
pub enum DisasmArch {
    X86_32,
    X86_64,
    ARM,
    AArch64,
}

/// How an architecture is shown.
pub open spec fn arch_label(a: DisasmArch) -> Seq<char> {
    match a {
        DisasmArch::X86_32 => "x86-32"@,
        DisasmArch::X86_64 => "x86-64"@,
        DisasmArch::ARM => "ARM"@,
        DisasmArch::AArch64 => "AArch64"@,
    }
}

impl DisasmArch {
    /// The architecture's display name.
    pub fn label(&self) -> (res: String)
        ensures
            res@ == arch_label(*self),
    {
        match self {
            DisasmArch::X86_32 => String::from_str("x86-32"),
            DisasmArch::X86_64 => String::from_str("x86-64"),
            DisasmArch::ARM => String::from_str("ARM"),
            DisasmArch::AArch64 => String::from_str("AArch64"),
        }
    }
}

/// A named address range of the binary; a size of 0 marks a single address.
#[derive(Debug)]
pub struct Symbol {
    pub name: String,
    pub address: u64,
    pub size: u64,
}

/// One decoded instruction as the listing shows it.
#[derive(Debug, Clone)]
pub struct DisasmLine {
    pub address: u64,
    pub bytes: Vec<u8>,
    pub mnemonic: String,
    pub operands: String,
    pub comment: Option<String>,
    pub symbol: Option<String>,
    pub is_branch_target: bool,
    /// The target of a branch or jump (not a call).
    pub branch_target: Option<u64>,
}

/// An arrow from a jump to its target, both in the visible lines.
#[derive(Debug, Clone, Copy)]
pub struct BranchArrow {
    /// Index of the jump among the visible lines.
    pub from_line: usize,
    /// Index of the target among the visible lines.
    pub to_line: usize,
    /// The lane it is drawn in: 0 next to the code, higher further left.
    pub lane: usize,
    /// Whether it points up.
    pub goes_up: bool,
}

// ---------------------------------------------------------------------------
// Branch arrows
// ---------------------------------------------------------------------------

/// Jumps get arrows (`j…`, and `b…` but `bswap`); calls do not.
pub open spec fn is_jump_mnemonic(m: Seq<char>) -> bool {
    m.len() > 0 && (m[0] == 'j' || (m[0] == 'b' && m != "bswap"@))
}

/// The last of the first `n` lines at address `addr`.
pub open spec fn line_at(lines: Seq<DisasmLine>, addr: u64, n: int) -> Option<int>
    decreases n,
{
    if n <= 0 {
        None
    } else if lines[n - 1].address == addr {
        Some(n - 1)
    } else {
        line_at(lines, addr, n - 1)
    }
}

/// The (jump, target) pairs among the first `n` lines whose target is
/// another visible line, in the order of the jumps.
pub open spec fn jump_pairs(lines: Seq<DisasmLine>, n: int) -> Seq<(usize, usize)>
    decreases n,
{
    if n <= 0 {
        seq![]
    } else {
        let prev = jump_pairs(lines, n - 1);
        let l = lines[n - 1];
        match l.branch_target {
            Some(t) => if is_jump_mnemonic(l.mnemonic@) {
                match line_at(lines, t, lines.len() as int) {
                    Some(j) => if j != n - 1 {
                        prev.push(((n - 1) as usize, j as usize))
                    } else {
                        prev
                    },
                    None => prev,
                }
            } else {
                prev
            },
            None => prev,
        }
    }
}

/// The rows an arrow spans.
pub open spec fn span_of(p: (usize, usize)) -> int {
    if p.0 < p.1 {
        p.1 - p.0
    } else {
        p.0 - p.1
    }
}

/// `x` placed after every pair whose span is not longer.
pub open spec fn insert_by_span(s: Seq<(usize, usize)>, x: (usize, usize)) -> Seq<(usize, usize)>
    decreases s.len(),
{
    if s.len() == 0 {
        seq![x]
    } else if span_of(x) < span_of(s[0]) {
        seq![x] + s
    } else {
        seq![s[0]] + insert_by_span(s.drop_first(), x)
    }
}

/// The pairs stably sorted by span: shorter arrows first, equal spans in
/// their order.
pub open spec fn sort_by_span(s: Seq<(usize, usize)>) -> Seq<(usize, usize)>
    decreases s.len(),
{
    if s.len() == 0 {
        seq![]
    } else {
        insert_by_span(sort_by_span(s.drop_last()), s.last())
    }
}

pub open spec fn lo_row(f: usize, t: usize) -> usize {
    if f < t {
        f
    } else {
        t
    }
}

pub open spec fn hi_row(f: usize, t: usize) -> usize {
    if f < t {
        t
    } else {
        f
    }
}

/// No arrow of `prev` in lane `l` shares a row with `lo..=hi`.
pub open spec fn lane_free(prev: Seq<BranchArrow>, lo: int, hi: int, l: int) -> bool {
    forall|k: int|
        0 <= k < prev.len() && #[trigger] prev[k].lane == l ==> !(lo <= hi_row(
            prev[k].from_line,
            prev[k].to_line,
        ) && hi >= lo_row(prev[k].from_line, prev[k].to_line))
}

/// The lowest lane from `l` on that is free for `lo..=hi`.
pub open spec fn lowest_free_lane(prev: Seq<BranchArrow>, lo: int, hi: int, l: int) -> int
    decreases prev.len() - l,
{
    if l >= prev.len() || lane_free(prev, lo, hi, l) {
        l
    } else {
        lowest_free_lane(prev, lo, hi, l + 1)
    }
}

/// The arrows for the pairs in turn, each in the lowest lane where it
/// shares no row with an arrow before it.
pub open spec fn assign_lanes(pairs: Seq<(usize, usize)>) -> Seq<BranchArrow>
    decreases pairs.len(),
{
    if pairs.len() == 0 {
        seq![]
    } else {
        let prev = assign_lanes(pairs.drop_last());
        let (f, t) = pairs.last();
        prev.push(
            BranchArrow {
                from_line: f,
                to_line: t,
                lane: lowest_free_lane(prev, lo_row(f, t) as int, hi_row(f, t) as int, 0) as usize,
                goes_up: t < f,
            },
        )
    }
}

fn is_jump(m: &str) -> (res: bool)
    ensures
        res == is_jump_mnemonic(m@),
{
    let cs = str_chars(m);
    if cs.len() == 0 {
        return false;
    }
    cs[0] == 'j' || (cs[0] == 'b' && !str_eq(m, "bswap"))
}

fn find_line(lines: &[DisasmLine], addr: u64) -> (res: Option<usize>)
    ensures
        res == (match line_at(lines@, addr, lines@.len() as int) {
            Some(j) => Some(j as usize),
            None => None::<usize>,
        }),
        res matches Some(j) ==> j < lines@.len() && line_at(lines@, addr, lines@.len() as int)
            == Some(j as int),
{
    let mut n = lines.len();
    while n > 0
        invariant
            n <= lines@.len(),
            line_at(lines@, addr, lines@.len() as int) == line_at(lines@, addr, n as int),
        decreases n,
    {
        if lines[n - 1].address == addr {
            return Some(n - 1);
        }
        n = n - 1;
    }
    None
}

fn span_exec(p: (usize, usize)) -> (res: usize)
    ensures
        res == span_of(p),
{
    if p.0 < p.1 {
        p.1 - p.0
    } else {
        p.0 - p.1
    }
}

fn insert_pair(v: &mut Vec<(usize, usize)>, x: (usize, usize))
    ensures
        final(v)@ == insert_by_span(old(v)@, x),
{
    let sx = span_exec(x);
    let mut i: usize = 0;
    assert(v@.take(0) =~= Seq::<(usize, usize)>::empty());
    assert(v@.skip(0) =~= v@);
    while i < v.len() && span_exec(v[i]) <= sx
        invariant
            i <= v@.len(),
            sx == span_of(x),
            insert_by_span(v@, x) == v@.take(i as int) + insert_by_span(v@.skip(i as int), x),
        decreases v.len() - i,
    {
        proof {
            assert(v@.skip(i as int).drop_first() =~= v@.skip(i + 1));
            assert(v@.take(i + 1) =~= v@.take(i as int) + seq![v@[i as int]]);
            assert(v@.take(i as int) + insert_by_span(v@.skip(i as int), x) =~= v@.take(i + 1)
                + insert_by_span(v@.skip(i + 1), x));
        }
        i = i + 1;
    }
    let ghost before = v@;
    proof {
        if i < before.len() {
            assert(before.skip(i as int)[0] == before[i as int]);
        }
    }
    v.insert(i, x);
    assert(v@ =~= before.take(i as int) + insert_by_span(before.skip(i as int), x));
}

fn lane_is_free(arrows: &Vec<BranchArrow>, lo: usize, hi: usize, lane: usize) -> (res: bool)
    ensures
        res == lane_free(arrows@, lo as int, hi as int, lane as int),
{
    let mut k: usize = 0;
    while k < arrows.len()
        invariant
            k <= arrows@.len(),
            forall|j: int|
                0 <= j < k && #[trigger] arrows@[j].lane == lane ==> !(lo <= hi_row(
                    arrows@[j].from_line,
                    arrows@[j].to_line,
                ) && hi >= lo_row(arrows@[j].from_line, arrows@[j].to_line)),
        decreases arrows.len() - k,
    {
        let a = arrows[k];
        let amin = if a.from_line < a.to_line {
            a.from_line
        } else {
            a.to_line
        };
        let amax = if a.from_line < a.to_line {
            a.to_line
        } else {
            a.from_line
        };
        if a.lane == lane && lo <= amax && hi >= amin {
            return false;
        }
        k = k + 1;
    }
    true
}

/// The arrows from the visible jumps to their visible targets (the last
/// line at a target address), shorter arrows first, each in the lowest lane
/// where it crosses no row of an arrow before it.
pub fn compute_branch_arrows(lines: &[DisasmLine]) -> (res: Vec<BranchArrow>)
    ensures
        res@ == assign_lanes(sort_by_span(jump_pairs(lines@, lines@.len() as int))),
{
    let mut pairs: Vec<(usize, usize)> = Vec::new();
    let mut i: usize = 0;
    while i < lines.len()
        invariant
            i <= lines@.len(),
            pairs@ == sort_by_span(jump_pairs(lines@, i as int)),
        decreases lines.len() - i,
    {
        let line = &lines[i];
        proof {
            assert(jump_pairs(lines@, i + 1) == {
                let prev = jump_pairs(lines@, i as int);
                let l = lines@[i as int];
                match l.branch_target {
                    Some(t) => if is_jump_mnemonic(l.mnemonic@) {
                        match line_at(lines@, t, lines@.len() as int) {
                            Some(j) => if j != i {
                                prev.push((i, j as usize))
                            } else {
                                prev
                            },
                            None => prev,
                        }
                    } else {
                        prev
                    },
                    None => prev,
                }
            });
        }
        let jump = is_jump(line.mnemonic.as_str());
        if jump {
            match line.branch_target {
                Some(target) => match find_line(lines, target) {
                    Some(target_idx) => {
                        if target_idx != i {
                            let ghost ps = jump_pairs(lines@, i as int).push((i, target_idx));
                            proof {
                                assert(ps.drop_last() =~= jump_pairs(lines@, i as int));
                                assert(jump_pairs(lines@, i + 1) == ps);
                            }
                            insert_pair(&mut pairs, (i, target_idx));
                        } else {
                            assert(jump_pairs(lines@, i + 1) == jump_pairs(lines@, i as int));
                        }
                    },
                    None => {
                        assert(jump_pairs(lines@, i + 1) == jump_pairs(lines@, i as int));
                    },
                },
                None => {
                    assert(jump_pairs(lines@, i + 1) == jump_pairs(lines@, i as int));
                },
            }
        } else {
            assert(jump_pairs(lines@, i + 1) == jump_pairs(lines@, i as int));
        }
        assert(pairs@ == sort_by_span(jump_pairs(lines@, i + 1)));
        i = i + 1;
    }
    let ghost sorted = pairs@;
    let mut result: Vec<BranchArrow> = Vec::new();
    let mut j: usize = 0;
    while j < pairs.len()
        invariant
            j <= pairs@.len(),
            pairs@ == sorted,
            result@ == assign_lanes(sorted.take(j as int)),
            result@.len() == j,
        decreases pairs.len() - j,
    {
        let (from, to) = pairs[j];
        let min_row = if from < to {
            from
        } else {
            to
        };
        let max_row = if from < to {
            to
        } else {
            from
        };
        let mut lane: usize = 0;
        while lane < result.len() && !lane_is_free(&result, min_row, max_row, lane)
            invariant
                lane <= result@.len(),
                lowest_free_lane(result@, min_row as int, max_row as int, lane as int)
                    == lowest_free_lane(result@, min_row as int, max_row as int, 0),
            decreases result.len() - lane,
        {
            lane = lane + 1;
        }
        proof {
            assert(sorted.take(j + 1).drop_last() =~= sorted.take(j as int));
        }
        result.push(BranchArrow { from_line: from, to_line: to, lane, goes_up: to < from });
        j = j + 1;
    }
    assert(sorted.take(sorted.len() as int) =~= sorted);
    result
}

/// The char drawn in an arrow's lane on row `row`: a corner at its ends,
/// a bar between them, nothing (`None`) elsewhere.
pub open spec fn arrow_char(a: BranchArrow, row: usize) -> Option<char> {
    if row == a.from_line {
        Some(if a.goes_up { '└' } else { '┌' })
    } else if row == a.to_line {
        Some(if a.goes_up { '┌' } else { '└' })
    } else if lo_row(a.from_line, a.to_line) < row < hi_row(a.from_line, a.to_line) {
        Some('│')
    } else {
        None
    }
}

/// The lanes of row `row` after drawing the first `n` arrows: lane 0 is the
/// rightmost; later arrows draw over earlier ones; arrows in lanes past the
/// last are left out.
pub open spec fn lane_chars(arrows: Seq<BranchArrow>, row: usize, lanes: usize, n: int) -> Seq<char>
    decreases n,
{
    if n <= 0 {
        Seq::new(lanes as nat, |i: int| ' ')
    } else {
        let prev = lane_chars(arrows, row, lanes, n - 1);
        let a = arrows[n - 1];
        if a.lane < lanes {
            match arrow_char(a, row) {
                Some(c) => prev.update(lanes - 1 - a.lane, c),
                None => prev,
            }
        } else {
            prev
        }
    }
}

/// Whether some arrow points at row `row`.
pub open spec fn is_arrow_target(arrows: Seq<BranchArrow>, row: usize) -> bool {
    exists|k: int| 0 <= k < arrows.len() && #[trigger] arrows[k].to_line == row
}

/// The arrow column of row `line_idx`: one char per lane, then `→` where an
/// arrow points at the row and a space elsewhere; empty without lanes.
pub fn render_arrow_column(line_idx: usize, arrows: &[BranchArrow], num_lanes: usize) -> (res: String)
    ensures
        num_lanes == 0 ==> res@ == Seq::<char>::empty(),
        num_lanes > 0 ==> res@ == lane_chars(arrows@, line_idx, num_lanes, arrows@.len() as int).push(
            if is_arrow_target(arrows@, line_idx) {
                '→'
            } else {
                ' '
            },
        ),
{
    if num_lanes == 0 {
        return String::new();
    }
    let mut chars: Vec<char> = Vec::new();
    let mut i: usize = 0;
    while i < num_lanes
        invariant
            i <= num_lanes,
            chars@ == Seq::new(i as nat, |j: int| ' '),
        decreases num_lanes - i,
    {
        chars.push(' ');
        i = i + 1;
    }
    let mut k: usize = 0;
    let mut is_target = false;
    while k < arrows.len()
        invariant
            k <= arrows@.len(),
            chars@ == lane_chars(arrows@, line_idx, num_lanes, k as int),
            chars@.len() == num_lanes,
            is_target == exists|j: int| 0 <= j < k && #[trigger] arrows@[j].to_line == line_idx,
        decreases arrows.len() - k,
    {
        let a = arrows[k];
        if a.to_line == line_idx {
            is_target = true;
        }
        if a.lane < num_lanes {
            let col = num_lanes - 1 - a.lane;
            let min_row = if a.from_line < a.to_line {
                a.from_line
            } else {
                a.to_line
            };
            let max_row = if a.from_line < a.to_line {
                a.to_line
            } else {
                a.from_line
            };
            if line_idx == a.from_line {
                chars.set(col, if a.goes_up { '└' } else { '┌' });
            } else if line_idx == a.to_line {
                chars.set(col, if a.goes_up { '┌' } else { '└' });
            } else if line_idx > min_row && line_idx < max_row {
                chars.set(col, '│');
            }
        }
        k = k + 1;
    }
    let mut result = crate::text::string_from_chars(chars.as_slice());
    if is_target {
        crate::text::push_char(&mut result, '→');
    } else {
        crate::text::push_char(&mut result, ' ');
    }
    result
}

// ---------------------------------------------------------------------------
// The binary and its symbols
// ---------------------------------------------------------------------------

/// Whether a symbol covers an address: its range, or its own address when
/// it has no size.
pub open spec fn covers(s: Symbol, addr: u64) -> bool {
    if s.size > 0 {
        s.address <= addr && addr < s.address + s.size
    } else {
        addr == s.address
    }
}

/// The first symbol from `i` on that covers `addr`.
pub open spec fn first_covering(syms: Seq<Symbol>, addr: u64, i: int) -> Option<int>
    decreases syms.len() - i,
{
    if i < 0 || i >= syms.len() {
        None
    } else if covers(syms[i], addr) {
        Some(i)
    } else {
        first_covering(syms, addr, i + 1)
    }
}

/// The first symbol from `i` on whose lowercased name equals `lower`
/// (`exact`) or contains it.
pub open spec fn first_named(syms: Seq<Symbol>, lower: Seq<char>, exact: bool, i: int) -> Option<int>
    decreases syms.len() - i,
{
    if i < 0 || i >= syms.len() {
        None
    } else if (if exact {
        lowercase(syms[i].name@) == lower
    } else {
        contains(lowercase(syms[i].name@), lower)
    }) {
        Some(i)
    } else {
        first_named(syms, lower, exact, i + 1)
    }
}

/// What `first_named` finds: the first symbol from `i` on whose
/// lowercased name equals `lower` (`exact`) or contains it, and one is
/// found where there is such a symbol.
proof fn lemma_first_named(syms: Seq<Symbol>, lower: Seq<char>, exact: bool, i: int)
    requires
        0 <= i,
    ensures
        first_named(syms, lower, exact, i) matches Some(k) ==> i <= k < syms.len() && (if exact {
            lowercase(syms[k].name@) == lower
        } else {
            contains(lowercase(syms[k].name@), lower)
        }),
        first_named(syms, lower, exact, i) matches Some(k) ==> forall|j: int|
            i <= j < k ==> !(if exact {
                lowercase(#[trigger] syms[j].name@) == lower
            } else {
                contains(lowercase(syms[j].name@), lower)
            }),
        first_named(syms, lower, exact, i) is None ==> forall|k: int|
            i <= k < syms.len() ==> !(if exact {
                lowercase(#[trigger] syms[k].name@) == lower
            } else {
                contains(lowercase(syms[k].name@), lower)
            }),
    decreases syms.len() - i,
{
    if i < syms.len() {
        lemma_first_named(syms, lower, exact, i + 1);
    }
}

/// Looking a symbol up by name prefers an exact match: where some symbol's
/// name equals the name sought ignoring case, the symbol found is the
/// first with such a name; else, where some name contains it ignoring case, the symbol found
/// is one of those; else none is found.
pub proof fn law_find_symbol_prefers_exact(syms: Seq<Symbol>, name: Seq<char>, res: Option<Symbol>)
    requires
        match first_named(syms, lowercase(name), true, 0) {
            Some(k) => res == Some(syms[k]),
            None => match first_named(syms, lowercase(name), false, 0) {
                Some(k) => res == Some(syms[k]),
                None => res is None,
            },
        },
    ensures
        (exists|k: int| 0 <= k < syms.len() && lowercase(#[trigger] syms[k].name@) == lowercase(name))
            ==> (res matches Some(sym) && lowercase(sym.name@) == lowercase(name)),
        (exists|k: int| 0 <= k < syms.len() && lowercase(#[trigger] syms[k].name@) == lowercase(name))
            ==> exists|k: int|
            0 <= k < syms.len() && res == Some(#[trigger] syms[k]) && forall|j: int|
                0 <= j < k ==> lowercase(#[trigger] syms[j].name@) != lowercase(name),
        !(exists|k: int| 0 <= k < syms.len() && lowercase(#[trigger] syms[k].name@) == lowercase(name))
            && (exists|k: int| 0 <= k < syms.len() && contains(lowercase(#[trigger] syms[k].name@), lowercase(name)))
            ==> (res matches Some(sym) && contains(lowercase(sym.name@), lowercase(name))),
        !(exists|k: int| 0 <= k < syms.len() && contains(lowercase(#[trigger] syms[k].name@), lowercase(name)))
            ==> res is None,
{
    let lower = lowercase(name);
    lemma_first_named(syms, lower, true, 0);
    lemma_first_named(syms, lower, false, 0);
    if exists|k: int| 0 <= k < syms.len() && lowercase(#[trigger] syms[k].name@) == lower {
        let k = choose|k: int| 0 <= k < syms.len() && lowercase(#[trigger] syms[k].name@) == lower;
        assert(lowercase(syms[k].name@) == lower);
    }
    if exists|k: int| 0 <= k < syms.len() && contains(lowercase(#[trigger] syms[k].name@), lower) {
        let k = choose|k: int| 0 <= k < syms.len() && contains(lowercase(#[trigger] syms[k].name@), lower);
        assert(contains(lowercase(syms[k].name@), lower));
    }
    if !(exists|k: int| 0 <= k < syms.len() && contains(lowercase(#[trigger] syms[k].name@), lower)) {
        if let Some(k) = first_named(syms, lower, true, 0) {
            assert(lowercase(syms[k].name@) == lower);
            assert(occurs_at(lower, lower, 0)) by {
                assert(lower.subrange(0, lower.len() as int) =~= lower);
            }
            assert(contains(lowercase(syms[k].name@), lower));
        }
    }
}

/// Among the first `n` symbols, the last one with the highest address not
/// above `addr`.
pub open spec fn nearest_before(syms: Seq<Symbol>, addr: u64, n: int) -> Option<int>
    decreases n,
{
    if n <= 0 {
        None
    } else {
        let b = nearest_before(syms, addr, n - 1);
        if syms[n - 1].address <= addr && (match b {
            Some(k) => syms[k].address <= syms[n - 1].address,
            None => true,
        }) {
            Some(n - 1)
        } else {
            b
        }
    }
}

proof fn lemma_first_covering(syms: Seq<Symbol>, addr: u64, i: int)
    ensures
        first_covering(syms, addr, i) matches Some(k) ==> i <= k < syms.len() && covers(
            syms[k],
            addr,
        ),
    decreases syms.len() - i,
{
    if 0 <= i < syms.len() && !covers(syms[i], addr) {
        lemma_first_covering(syms, addr, i + 1);
    }
}

proof fn lemma_nearest_before(syms: Seq<Symbol>, addr: u64, n: int)
    requires
        n <= syms.len(),
    ensures
        nearest_before(syms, addr, n) matches Some(k) ==> 0 <= k < n && syms[k].address <= addr,
    decreases n,
{
    if n > 0 {
        lemma_nearest_before(syms, addr, n - 1);
    }
}

/// `name+0x<offset>`.
pub open spec fn offset_ref(name: Seq<char>, offset: nat) -> Seq<char> {
    name + seq!['+', '0', 'x'] + hex_number(offset)
}

/// How an address is written symbolically: the covering symbol's name, with
/// the offset into it; else the nearest symbol below it within 64 KiB, with
/// the offset; else nothing.
pub open spec fn symbol_ref(syms: Seq<Symbol>, target: u64) -> Option<Seq<char>> {
    match first_covering(syms, target, 0) {
        Some(k) => Some(
            if syms[k].address == target {
                syms[k].name@
            } else {
                offset_ref(syms[k].name@, (target - syms[k].address) as nat)
            },
        ),
        None => match nearest_before(syms, target, syms.len() as int) {
            Some(k) => if target - syms[k].address < 0x10000 {
                Some(offset_ref(syms[k].name@, (target - syms[k].address) as nat))
            } else {
                None
            },
            None => None,
        },
    }
}

/// A branch target or address as the listing writes it: `0x` and hex
/// digits, or bare hex digits, around whitespace.
pub open spec fn hex_address(s: Seq<char>) -> Option<u64> {
    let t = trim(s);
    if t.len() >= 2 && t[0] == '0' && t[1] == 'x' {
        parse_hex_u64(t.skip(2))
    } else {
        parse_hex_u64(t)
    }
}

/// Parses an address written in hex, with or without `0x`.
pub fn parse_hex_address(s: &str) -> (res: Option<u64>)
    ensures
        res == hex_address(s@),
{
    let cs = str_chars(s);
    let t = crate::text::trimmed_chars(cs.as_slice());
    if t.len() >= 2 && t[0] == '0' && t[1] == 'x' {
        assert(t@.subrange(2, t@.len() as int) =~= t@.skip(2));
        parse_hex_u64_chars(t.as_slice(), 2, t.len())
    } else {
        assert(t@.subrange(0, t@.len() as int) =~= t@);
        parse_hex_u64_chars(t.as_slice(), 0, t.len())
    }
}

/// A binary to disassemble: its code bytes, the address of the first, the
/// instruction set and the symbols known.
pub struct Disassembler {
    bytes: Vec<u8>,
    base_address: u64,
    arch: DisasmArch,
    symbols: Vec<Symbol>,
}

impl Disassembler {
    pub closed spec fn code(self) -> Seq<u8> {
        self.bytes@
    }

    pub closed spec fn base(self) -> u64 {
        self.base_address
    }

    pub closed spec fn arch_of(self) -> DisasmArch {
        self.arch
    }

    pub closed spec fn syms(self) -> Seq<Symbol> {
        self.symbols@
    }

    /// Raw bytes at `base_address`, without symbols.
    pub fn from_bytes(bytes: Vec<u8>, arch: DisasmArch, base_address: u64) -> (res: Self)
        ensures
            res.code() == bytes@,
            res.base() == base_address,
            res.arch_of() == arch,
            res.syms().len() == 0,
    {
        Disassembler { bytes, base_address, arch, symbols: Vec::new() }
    }

    /// A binary with the given symbols.
    pub fn with_symbols(bytes: Vec<u8>, arch: DisasmArch, base_address: u64, symbols: Vec<Symbol>) -> (res: Self)
        ensures
            res.code() == bytes@,
            res.base() == base_address,
            res.arch_of() == arch,
            res.syms() == symbols@,
    {
        Disassembler { bytes, base_address, arch, symbols }
    }

    /// The first symbol whose name equals `name` ignoring case, else the
    /// first whose name contains it ignoring case.
    pub fn find_symbol(&self, name: &str) -> (res: Option<&Symbol>)
        ensures
            match first_named(self.syms(), lowercase(name@), true, 0) {
                Some(k) => res == Some(&self.syms()[k]),
                None => match first_named(self.syms(), lowercase(name@), false, 0) {
                    Some(k) => res == Some(&self.syms()[k]),
                    None => res is None,
                },
            },
    {
        let lower_s = to_lowercase(name);
        let lower = str_chars(lower_s.as_str());
        let mut i: usize = 0;
        while i < self.symbols.len()
            invariant
                i <= self.symbols@.len(),
                lower@ == lowercase(name@),
                first_named(self.symbols@, lower@, true, 0) == first_named(
                    self.symbols@,
                    lower@,
                    true,
                    i as int,
                ),
            decreases self.symbols.len() - i,
        {
            let n = to_lowercase(self.symbols[i].name.as_str());
            let nc = str_chars(n.as_str());
            if chars_eq(nc.as_slice(), lower.as_slice()) {
                return Some(&self.symbols[i]);
            }
            i = i + 1;
        }
        let mut j: usize = 0;
        while j < self.symbols.len()
            invariant
                j <= self.symbols@.len(),
                lower@ == lowercase(name@),
                first_named(self.symbols@, lower@, true, 0) is None,
                first_named(self.symbols@, lower@, false, 0) == first_named(
                    self.symbols@,
                    lower@,
                    false,
                    j as int,
                ),
            decreases self.symbols.len() - j,
        {
            let n = to_lowercase(self.symbols[j].name.as_str());
            let nc = str_chars(n.as_str());
            if chars_contain(nc.as_slice(), lower.as_slice()) {
                return Some(&self.symbols[j]);
            }
            j = j + 1;
        }
        None
    }

    /// The first symbol that covers the address.
    pub fn symbol_at_address(&self, addr: u64) -> (res: Option<&Symbol>)
        ensures
            match first_covering(self.syms(), addr, 0) {
                Some(k) => res == Some(&self.syms()[k]),
                None => res is None,
            },
    {
        let mut i: usize = 0;
        while i < self.symbols.len()
            invariant
                i <= self.symbols@.len(),
                first_covering(self.symbols@, addr, 0) == first_covering(
                    self.symbols@,
                    addr,
                    i as int,
                ),
            decreases self.symbols.len() - i,
        {
            let s = &self.symbols[i];
            let hit = if s.size > 0 {
                addr >= s.address && addr - s.address < s.size
            } else {
                addr == s.address
            };
            if hit {
                return Some(s);
            }
            i = i + 1;
        }
        None
    }

    pub fn set_base_address(&mut self, addr: u64)
        ensures
            final(self).base() == addr,
            final(self).code() == old(self).code(),
            final(self).arch_of() == old(self).arch_of(),
            final(self).syms() == old(self).syms(),
    {
        self.base_address = addr;
    }

    pub fn set_arch(&mut self, arch: DisasmArch)
        ensures
            final(self).arch_of() == arch,
            final(self).base() == old(self).base(),
            final(self).code() == old(self).code(),
            final(self).syms() == old(self).syms(),
    {
        self.arch = arch;
    }

    /// The offset of an address into the bytes, if it falls inside them
    /// (the distance from the base taken as a `usize`).
    pub fn address_to_offset(&self, addr: u64) -> (res: Option<usize>)
        ensures
            res == (if addr >= self.base() && ((addr - self.base()) as usize) < self.code().len() {
                Some((addr - self.base()) as usize)
            } else {
                None
            }),
    {
        if addr >= self.base_address {
            #[verifier::truncate]
            let off = (addr - self.base_address) as usize;
            if off < self.bytes.len() {
                Some(off)
            } else {
                None
            }
        } else {
            None
        }
    }

    /// The address of an offset into the bytes.
    pub fn offset_to_address(&self, offset: usize) -> (res: u64)
        requires
            self.base() + offset <= u64::MAX,
        ensures
            res == self.base() + offset,
    {
        self.base_address + offset as u64
    }

    pub fn base_address(&self) -> (res: u64)
        ensures
            res == self.base(),
    {
        self.base_address
    }

    pub fn arch(&self) -> (res: DisasmArch)
        ensures
            res == self.arch_of(),
    {
        self.arch
    }

    pub fn bytes(&self) -> (res: &[u8])
        ensures
            res@ == self.code(),
    {
        self.bytes.as_slice()
    }

    pub fn symbols(&self) -> (res: &[Symbol])
        ensures
            res@ == self.syms(),
    {
        self.symbols.as_slice()
    }

    pub fn add_symbol(&mut self, name: String, address: u64, size: u64)
        ensures
            final(self).syms() == old(self).syms().push(Symbol { name, address, size }),
            final(self).code() == old(self).code(),
            final(self).base() == old(self).base(),
            final(self).arch_of() == old(self).arch_of(),
    {
        self.symbols.push(Symbol { name, address, size });
    }

    /// Overwrites the bytes from `offset` on with `data`, as far as the
    /// bytes reach.
    pub fn write_bytes(&mut self, offset: usize, data: &[u8])
        requires
            data@.len() == 0 || offset + data@.len() - 1 <= usize::MAX,
        ensures
            final(self).code() == Seq::new(
                old(self).code().len(),
                |j: int|
                    if offset <= j < offset + data@.len() {
                        data@[j - offset]
                    } else {
                        old(self).code()[j]
                    },
            ),
            final(self).base() == old(self).base(),
            final(self).arch_of() == old(self).arch_of(),
            final(self).syms() == old(self).syms(),
    {
        let mut i: usize = 0;
        while i < data.len()
            invariant
                i <= data@.len(),
                data@.len() == 0 || offset + data@.len() - 1 <= usize::MAX,
                self.bytes@.len() == old(self).bytes@.len(),
                self.base_address == old(self).base_address,
                self.arch == old(self).arch,
                self.symbols@ == old(self).symbols@,
                forall|j: int|
                    0 <= j < self.bytes@.len() ==> #[trigger] self.bytes@[j] == if offset <= j
                        < offset + i {
                        data@[j - offset]
                    } else {
                        old(self).bytes@[j]
                    },
            decreases data.len() - i,
        {
            if offset + i < self.bytes.len() {
                self.bytes.set(offset + i, data[i]);
            }
            i = i + 1;
        }
        assert(self.bytes@ =~= Seq::new(
            old(self).bytes@.len(),
            |j: int|
                if offset <= j < offset + data@.len() {
                    data@[j - offset]
                } else {
                    old(self).bytes@[j]
                },
        ));
    }

    /// The last symbol with the highest address not above `addr`.
    pub(crate) fn nearest_symbol_before(&self, addr: u64) -> (res: Option<&Symbol>)
        ensures
            match nearest_before(self.syms(), addr, self.syms().len() as int) {
                Some(k) => 0 <= k < self.syms().len() && res == Some(&self.syms()[k]),
                None => res is None,
            },
    {
        let mut best: Option<usize> = None;
        let mut i: usize = 0;
        while i < self.symbols.len()
            invariant
                i <= self.symbols@.len(),
                best == (match nearest_before(self.symbols@, addr, i as int) {
                    Some(k) => Some(k as usize),
                    None => None::<usize>,
                }),
                nearest_before(self.symbols@, addr, i as int) matches Some(k) ==> 0 <= k < i,
            decreases self.symbols.len() - i,
        {
            let a = self.symbols[i].address;
            if a <= addr {
                match best {
                    Some(b) => {
                        if self.symbols[b].address <= a {
                            best = Some(i);
                        }
                    },
                    None => {
                        best = Some(i);
                    },
                }
            }
            i = i + 1;
        }
        match best {
            Some(b) => Some(&self.symbols[b]),
            None => None,
        }
    }

    /// The address written symbolically (see `symbol_ref`).
    pub fn format_symbol_ref(&self, target: u64) -> (res: Option<String>)
        ensures
            match symbol_ref(self.syms(), target) {
                Some(t) => res matches Some(r) && r@ == t,
                None => res is None,
            },
    {
        proof {
            lemma_first_covering(self.syms(), target, 0);
            lemma_nearest_before(self.syms(), target, self.syms().len() as int);
        }
        if let Some(sym) = self.symbol_at_address(target) {
            if sym.address == target {
                return Some(sym.name.clone());
            }
            let offset = target - sym.address;
            return Some(Self::offset_text(&sym.name, offset));
        }
        if let Some(sym) = self.nearest_symbol_before(target) {
            let offset = target - sym.address;
            if offset < 0x10000 {
                return Some(Self::offset_text(&sym.name, offset));
            }
        }
        None
    }

    fn offset_text(name: &String, offset: u64) -> (res: String)
        ensures
            res@ == offset_ref(name@, offset as nat),
    {
        let mut out = name.clone();
        push_char(&mut out, '+');
        push_char(&mut out, '0');
        push_char(&mut out, 'x');
        push_hex_number(&mut out, offset);
        out
    }
}

// ---------------------------------------------------------------------------
// PE files: the COFF symbol table and the CodeView debug record
// ---------------------------------------------------------------------------

/// A little-endian `u16` at byte `o`.
pub open spec fn le16(d: Seq<u8>, o: int) -> nat {
    d[o] as nat + d[o + 1] as nat * 256
}

/// A little-endian `u32` at byte `o`.
pub open spec fn le32(d: Seq<u8>, o: int) -> nat {
    le16(d, o) + le16(d, o + 2) * 65536
}

fn read_le16(d: &[u8], o: u64) -> (res: u64)
    requires
        o + 2 <= d@.len(),
    ensures
        res == le16(d@, o as int),
{
    let i = o as usize;
    d[i] as u64 + d[i + 1] as u64 * 256
}

fn read_le32(d: &[u8], o: u64) -> (res: u64)
    requires
        o + 4 <= d@.len(),
    ensures
        res == le32(d@, o as int),
        res <= u32::MAX,
{
    let n = d.len();
    assert(o + 4 <= n);
    read_le16(d, o) + read_le16(d, o + 2) * 65536
}

/// The first index in `from..to` holding a 0 byte, or `dflt`.
pub open spec fn zero_or(d: Seq<u8>, from: int, to: int, dflt: int) -> int
    decreases to - from,
{
    if from >= to {
        dflt
    } else if d[from] == 0 {
        from
    } else {
        zero_or(d, from + 1, to, dflt)
    }
}

fn find_zero(d: &[u8], from: u64, to: u64, dflt: u64) -> (res: u64)
    requires
        from <= to <= d@.len(),
    ensures
        res == zero_or(d@, from as int, to as int, dflt as int),
{
    let mut i = from;
    while i < to
        invariant
            from <= i <= to <= d@.len(),
            zero_or(d@, from as int, to as int, dflt as int) == zero_or(
                d@,
                i as int,
                to as int,
                dflt as int,
            ),
        decreases to - i,
    {
        if d[i as usize] == 0 {
            return i;
        }
        i = i + 1;
    }
    dflt
}

/// A symbol as plain values: name, address, size.
pub open spec fn sym_view(s: Symbol) -> (Seq<char>, u64, u64) {
    (s.name@, s.address, s.size)
}

pub open spec fn syms_view(s: Seq<Symbol>) -> Seq<(Seq<char>, u64, u64)> {
    s.map_values(|x: Symbol| sym_view(x))
}

/// The symbols with `(name, address)` appended, unless one with that address
/// (and, with `by_name`, that name) is there already.
pub open spec fn add_unique(
    syms: Seq<(Seq<char>, u64, u64)>,
    name: Seq<char>,
    address: u64,
    size: u64,
    by_name: bool,
) -> Seq<(Seq<char>, u64, u64)> {
    if exists|k: int|
        0 <= k < syms.len() && #[trigger] syms[k].1 == address && (!by_name || syms[k].0
            == name) {
        syms
    } else {
        syms.push((name, address, size))
    }
}

/// Appends a symbol unless one with its address (and, with `by_name`, its
/// name) is there already.
fn push_unique(symbols: &mut Vec<Symbol>, name: String, address: u64, size: u64, by_name: bool)
    ensures
        syms_view(final(symbols)@) == add_unique(
            syms_view(old(symbols)@),
            name@,
            address,
            size,
            by_name,
        ),
{
    let mut k: usize = 0;
    while k < symbols.len()
        invariant
            k <= symbols@.len(),
            forall|j: int|
                0 <= j < k ==> !(#[trigger] symbols@[j].address == address && (!by_name
                    || symbols@[j].name@ == name@)),
        decreases symbols.len() - k,
    {
        if symbols[k].address == address && (!by_name || symbols[k].name == name) {
            assert(syms_view(symbols@)[k as int].1 == address);
            return ;
        }
        k = k + 1;
    }
    let ghost before = symbols@;
    symbols.push(Symbol { name, address, size });
    assert(syms_view(symbols@) =~= syms_view(before).push((name@, address, size)));
    assert(!exists|j: int|
        0 <= j < syms_view(before).len() && #[trigger] syms_view(before)[j].1 == address && (
        !by_name || syms_view(before)[j].0 == name@));
}

/// The value of a little-endian `i16`.
pub open spec fn as_i16(v: nat) -> int {
    if v >= 32768 {
        v - 65536
    } else {
        v as int
    }
}

/// The name of COFF symbol entry `e`: inline in its first 8 bytes up to a
/// 0 byte, or, where its first 4 bytes are 0, in the string table at the
/// offset in the next 4, up to a 0 byte (empty where none follows); `None`
/// where that offset lies past the data.
pub open spec fn coff_name(d: Seq<u8>, e: int, strtab: int) -> Option<Seq<u8>> {
    if d[e] == 0 && d[e + 1] == 0 && d[e + 2] == 0 && d[e + 3] == 0 {
        let a = strtab + le32(d, e + 4);
        if a < d.len() {
            Some(d.subrange(a, zero_or(d, a, d.len() as int, a)))
        } else {
            None
        }
    } else {
        Some(d.subrange(e, zero_or(d, e, e + 8, e + 8)))
    }
}

/// The symbols of the COFF entries from `i` on, appended to `acc`: each
/// external or static symbol (storage class 2 or 3) of a real section whose
/// name is not empty and does not start with `.`, at the image base plus
/// its section's address plus its value, unless it is there already; aux
/// entries are skipped. `None` where an address would pass `u64::MAX`.
pub open spec fn coff_symbols(
    d: Seq<u8>,
    base: u64,
    secs: Seq<u32>,
    symtab: int,
    num: int,
    strtab: int,
    i: int,
    acc: Seq<(Seq<char>, u64, u64)>,
) -> Option<Seq<(Seq<char>, u64, u64)>>
    decreases num + 256 - i,
{
    if i < 0 || i >= num || symtab + i * 18 + 18 > d.len() {
        Some(acc)
    } else {
        let e = symtab + i * 18;
        let secnum = as_i16(le16(d, e + 12));
        let sc = d[e + 16];
        let next = i + 1 + d[e + 17];
        if (sc == 2 || sc == 3) && secnum > 0 {
            match coff_name(d, e, strtab) {
                Some(nb) => {
                    let name = utf8_lossy(nb);
                    if name.len() > 0 && name[0] != '.' {
                        let sec_va: int = if secnum - 1 < secs.len() {
                            secs[secnum - 1] as int
                        } else {
                            0
                        };
                        let vaddr = base + sec_va + le32(d, e + 8);
                        if vaddr > u64::MAX {
                            None
                        } else {
                            coff_symbols(
                                d,
                                base,
                                secs,
                                symtab,
                                num,
                                strtab,
                                next,
                                add_unique(acc, name, vaddr as u64, 0, true),
                            )
                        }
                    } else {
                        coff_symbols(d, base, secs, symtab, num, strtab, next, acc)
                    }
                },
                None => coff_symbols(d, base, secs, symtab, num, strtab, next, acc),
            }
        } else {
            coff_symbols(d, base, secs, symtab, num, strtab, next, acc)
        }
    }
}

/// The symbols a PE file's COFF symbol table adds to `acc` (see
/// `coff_symbols`); `acc` where the headers do not reach or there is no
/// table.
pub open spec fn pe_coff_symbols(
    d: Seq<u8>,
    base: u64,
    secs: Seq<u32>,
    acc: Seq<(Seq<char>, u64, u64)>,
) -> Option<Seq<(Seq<char>, u64, u64)>> {
    if d.len() < 0x40 {
        Some(acc)
    } else {
        let pe = le32(d, 0x3C) as int;
        if pe + 24 > d.len() {
            Some(acc)
        } else {
            let coff = pe + 4;
            let num = le32(d, coff + 12) as int;
            let symtab = le32(d, coff + 8) as int;
            if num == 0 || symtab == 0 {
                Some(acc)
            } else {
                coff_symbols(d, base, secs, symtab, num, symtab + num * 18, 0, acc)
            }
        }
    }
}

impl Disassembler {
    /// Adds the symbols of a PE file's COFF symbol table (see
    /// `coff_symbols`); `section_vaddrs` are the virtual addresses of its
    /// sections, in order.
    pub fn parse_pe_coff_symbols(
        data: &[u8],
        image_base: u64,
        section_vaddrs: &[u32],
        symbols: &mut Vec<Symbol>,
    )
        requires
            pe_coff_symbols(data@, image_base, section_vaddrs@, syms_view(old(symbols)@)) is Some,
        ensures
            Some(syms_view(final(symbols)@)) == pe_coff_symbols(
                data@,
                image_base,
                section_vaddrs@,
                syms_view(old(symbols)@),
            ),
    {
        let len = data.len() as u64;
        if len < 0x40 {
            return ;
        }
        let pe_offset = read_le32(data, 0x3C);
        if pe_offset + 24 > len {
            return ;
        }
        let coff_start = pe_offset + 4;
        let num_symbols = read_le32(data, coff_start + 12);
        let sym_table_offset = read_le32(data, coff_start + 8);
        if num_symbols == 0 || sym_table_offset == 0 {
            return ;
        }
        let str_table_offset = sym_table_offset + num_symbols * 18;
        let ghost d = data@;
        let mut i: u64 = 0;
        while i < num_symbols && sym_table_offset + i * 18 + 18 <= len
            invariant
                d == data@,
                pe_coff_symbols(d, image_base, section_vaddrs@, syms_view(old(symbols)@)) is Some,
                len == d.len(),
                sym_table_offset <= u32::MAX,
                num_symbols <= u32::MAX,
                str_table_offset == sym_table_offset + num_symbols * 18,
                i <= num_symbols + 256,
                pe_coff_symbols(d, image_base, section_vaddrs@, syms_view(old(symbols)@))
                    == coff_symbols(
                    d,
                    image_base,
                    section_vaddrs@,
                    sym_table_offset as int,
                    num_symbols as int,
                    str_table_offset as int,
                    i as int,
                    syms_view(symbols@),
                ),
            decreases num_symbols + 256 - i,
        {
            let entry_offset = sym_table_offset + i * 18;
            let section_number = read_le16(data, entry_offset + 12);
            let storage_class = data[(entry_offset + 16) as usize];
            let aux_count = data[(entry_offset + 17) as usize] as u64;
            let value = read_le32(data, entry_offset + 8);
            let next = i + 1 + aux_count;
            if (storage_class == 2 || storage_class == 3) && section_number > 0 && section_number
                < 32768 {
                let e = entry_offset as usize;
                let name_bytes: Option<(u64, u64)> = if data[e] == 0 && data[e + 1] == 0 && data[e
                    + 2] == 0 && data[e + 3] == 0 {
                    let abs_offset = str_table_offset + read_le32(data, entry_offset + 4);
                    if abs_offset < len {
                        let z = find_zero(data, abs_offset, len, abs_offset);
                        proof {
                            lemma_zero_or(d, abs_offset as int, len as int, abs_offset as int);
                        }
                        Some((abs_offset, z))
                    } else {
                        None
                    }
                } else {
                    let z = find_zero(data, entry_offset, entry_offset + 8, entry_offset + 8);
                    proof {
                        lemma_zero_or(d, entry_offset as int, entry_offset + 8, entry_offset + 8);
                    }
                    Some((entry_offset, z))
                };
                match name_bytes {
                    Some((from, to)) => {
                        let nb = byte_range(data, from, to);
                        let name = string_from_utf8_lossy(nb.as_slice());
                        let first_ok = {
                            let cs = str_chars(name.as_str());
                            cs.len() > 0 && cs[0] != '.'
                        };
                        if first_ok {
                            let idx = (section_number - 1) as usize;
                            let sec_va: u64 = if idx < section_vaddrs.len() {
                                section_vaddrs[idx] as u64
                            } else {
                                0
                            };
                            let vaddr = image_base + sec_va + value;
                            push_unique(symbols, name, vaddr, 0, true);
                        }
                    },
                    None => {},
                }
            }
            i = next;
        }
    }
}

/// The file offset of an RVA, through the first of the `num` section headers
/// at `start` (40 bytes each, as far as they lie in the data) whose virtual
/// range holds it: `Some(None)` where none does, `None` where a sum of the
/// header's fields would pass `u32::MAX` on the way.
pub open spec fn rva_offset(d: Seq<u8>, start: int, num: int, rva: int, i: int) -> Option<Option<int>>
    decreases num - i,
{
    if i < 0 || i >= num || start + i * 40 + 40 > d.len() {
        Some(None)
    } else {
        let so = start + i * 40;
        let va = le32(d, so + 12) as int;
        let rs = le32(d, so + 16) as int;
        let rp = le32(d, so + 20) as int;
        if rva >= va {
            if va + rs > u32::MAX {
                None
            } else if rva < va + rs {
                if rp + (rva - va) > u32::MAX {
                    None
                } else {
                    Some(Some(rp + (rva - va)))
                }
            } else {
                rva_offset(d, start, num, rva, i + 1)
            }
        } else {
            rva_offset(d, start, num, rva, i + 1)
        }
    }
}

/// The PDB path of the first CodeView (type 2) entry among the `n` debug
/// directory entries at `off` (28 bytes each, as far as they lie in the
/// data) whose record starts with `RSDS`: the bytes 24 on in the record, up
/// to a 0 byte (at most 260 where none follows).
pub open spec fn codeview_path(d: Seq<u8>, off: int, n: int, i: int) -> Option<Seq<u8>>
    decreases n - i,
{
    if i < 0 || i >= n || off + i * 28 + 28 > d.len() {
        None
    } else {
        let e = off + i * 28;
        let cv = le32(d, e + 24) as int;
        if le32(d, e + 12) == 2 && cv + 24 <= d.len() && d[cv] == 0x52 && d[cv + 1] == 0x53
            && d[cv + 2] == 0x44 && d[cv + 3] == 0x53 {
            let ps = cv + 24;
            let cap = if d.len() < ps + 260 {
                d.len() as int
            } else {
                ps + 260
            };
            Some(d.subrange(ps, zero_or(d, ps, d.len() as int, cap)))
        } else {
            codeview_path(d, off, n, i + 1)
        }
    }
}

/// The PDB path bytes a PE file's debug directory names: `Some(None)` where
/// there are none (headers out of reach, an unknown optional-header magic,
/// no debug directory, no section holding it, no CodeView record); `None`
/// where reading them would fail (the magic past the data, or a section
/// address sum past `u32::MAX`).
pub open spec fn pdb_path_bytes(d: Seq<u8>) -> Option<Option<Seq<u8>>> {
    if d.len() < 0x40 {
        Some(None)
    } else {
        let coff = le32(d, 0x3C) as int + 4;
        if coff + 20 > d.len() {
            Some(None)
        } else {
            let opt_size = le16(d, coff + 16) as int;
            let opt = coff + 20;
            if opt + opt_size > d.len() {
                Some(None)
            } else if opt + 2 > d.len() {
                None
            } else {
                let magic = le16(d, opt);
                let dde = if magic == 0x10b {
                    opt + 144
                } else {
                    opt + 160
                };
                if (magic != 0x10b && magic != 0x20b) || dde + 8 > d.len() {
                    Some(None)
                } else {
                    let rva = le32(d, dde) as int;
                    let size = le32(d, dde + 4) as int;
                    if rva == 0 || size == 0 {
                        Some(None)
                    } else {
                        match rva_offset(d, opt + opt_size, le16(d, coff + 2) as int, rva, 0) {
                            None => None,
                            Some(None) => Some(None),
                            Some(Some(off)) => Some(codeview_path(d, off, size / 28, 0)),
                        }
                    }
                }
            }
        }
    }
}

fn rva_to_offset(data: &[u8], sections_start: u64, num_sections: u64, rva: u64) -> (res: Option<Option<u64>>)
    requires
        sections_start <= u32::MAX * 4,
        num_sections <= u16::MAX,
        rva <= u32::MAX,
    ensures
        rva_offset(data@, sections_start as int, num_sections as int, rva as int, 0) == match res {
            Some(Some(o)) => Some(Some(o as int)),
            Some(None) => Some(None::<int>),
            None => None::<Option<int>>,
        },
        res matches Some(Some(o)) ==> o <= u32::MAX,
{
    let len = data.len() as u64;
    let mut i: u64 = 0;
    while i < num_sections && sections_start + i * 40 + 40 <= len
        invariant
            i <= num_sections <= u16::MAX,
            sections_start <= u32::MAX * 4,
            rva <= u32::MAX,
            len == data@.len(),
            rva_offset(data@, sections_start as int, num_sections as int, rva as int, 0)
                == rva_offset(data@, sections_start as int, num_sections as int, rva as int, i as int),
        decreases num_sections - i,
    {
        let sec_off = sections_start + i * 40;
        let sec_va = read_le32(data, sec_off + 12);
        let sec_raw_size = read_le32(data, sec_off + 16);
        let sec_raw_ptr = read_le32(data, sec_off + 20);
        if rva >= sec_va {
            if sec_va + sec_raw_size > 0xFFFF_FFFFu64 {
                return None;
            }
            if rva < sec_va + sec_raw_size {
                if sec_raw_ptr + (rva - sec_va) > 0xFFFF_FFFFu64 {
                    return None;
                }
                return Some(Some(sec_raw_ptr + (rva - sec_va)));
            }
        }
        i = i + 1;
    }
    Some(None)
}

/// The PDB path named by a PE file's CodeView debug record, as text: `None`
/// where reading it would fail (see `pdb_path_bytes`), else what
/// `extract_pdb_path_from_pe` gives.
pub fn pdb_path_in_pe(data: &[u8]) -> (res: Option<Option<String>>)
    ensures
        match pdb_path_bytes(data@) {
            None => res is None,
            Some(None) => res matches Some(r) && r is None,
            Some(Some(b)) => res matches Some(Some(r)) && r@ == utf8_lossy(b) && (valid_utf8(b)
                ==> r@ == decode_utf8(b)),
        },
{
    let len = data.len() as u64;
    if len < 0x40 {
        return Some(None);
    }
    let pe_offset = read_le32(data, 0x3C);
    let coff_start = pe_offset + 4;
    if coff_start + 20 > len {
        return Some(None);
    }
    let opt_header_size = read_le16(data, coff_start + 16);
    let opt_start = coff_start + 20;
    if opt_start + opt_header_size > len {
        return Some(None);
    }
    if opt_start + 2 > len {
        return None;
    }
    let magic = read_le16(data, opt_start);
    let debug_dir_entry_offset = if magic == 0x10b {
        opt_start + 144
    } else if magic == 0x20b {
        opt_start + 160
    } else {
        return Some(None);
    };
    if debug_dir_entry_offset + 8 > len {
        return Some(None);
    }
    let debug_rva = read_le32(data, debug_dir_entry_offset);
    let debug_size = read_le32(data, debug_dir_entry_offset + 4);
    if debug_rva == 0 || debug_size == 0 {
        return Some(None);
    }
    let num_sections = read_le16(data, coff_start + 2);
    let sections_start = opt_start + opt_header_size;
    let debug_file_offset = match rva_to_offset(data, sections_start, num_sections, debug_rva) {
        Some(Some(o)) => o,
        Some(None) => return Some(None),
        None => return None,
    };
    let num_entries = debug_size / 28;
    let ghost d = data@;
    let mut i: u64 = 0;
    while i < num_entries && debug_file_offset + i * 28 + 28 <= len
        invariant
            d == data@,
            len == d.len(),
            debug_file_offset <= u32::MAX,
            num_entries <= u32::MAX,
            i <= num_entries,
            pdb_path_bytes(d) == Some(
                codeview_path(d, debug_file_offset as int, num_entries as int, 0),
            ),
            codeview_path(d, debug_file_offset as int, num_entries as int, 0) == codeview_path(
                d,
                debug_file_offset as int,
                num_entries as int,
                i as int,
            ),
        decreases num_entries - i,
    {
        let entry_off = debug_file_offset + i * 28;
        let entry_type = read_le32(data, entry_off + 12);
        let cv_offset = read_le32(data, entry_off + 24);
        if entry_type == 2 && cv_offset + 24 <= len {
            let c = cv_offset as usize;
            if data[c] == 0x52 && data[c + 1] == 0x53 && data[c + 2] == 0x44 && data[c + 3]
                == 0x53 {
                let path_start = cv_offset + 24;
                let cap = if len < path_start + 260 {
                    len
                } else {
                    path_start + 260
                };
                let path_end = find_zero(data, path_start, len, cap);
                proof {
                    lemma_zero_or(d, path_start as int, len as int, cap as int);
                }
                let pb = byte_range(data, path_start, path_end);
                assert(codeview_path(d, debug_file_offset as int, num_entries as int, i as int)
                    == Some(pb@));
                return Some(Some(string_from_utf8_lossy(pb.as_slice())));
            }
        }
        i = i + 1;
    }
    Some(None)
}

impl Disassembler {
    /// The PDB path named by a PE file's CodeView debug record (see
    /// `pdb_path_bytes`), as text.
    pub fn extract_pdb_path_from_pe(data: &[u8]) -> (res: Option<String>)
        requires
            pdb_path_bytes(data@) is Some,
        ensures
            match pdb_path_bytes(data@) {
                Some(Some(b)) => res matches Some(r) && r@ == utf8_lossy(b) && (valid_utf8(b)
                    ==> r@ == decode_utf8(b)),
                _ => res is None,
            },
    {
        match pdb_path_in_pe(data) {
            Some(r) => r,
            None => None,
        }
    }
}

proof fn lemma_zero_or(d: Seq<u8>, from: int, to: int, dflt: int)
    requires
        0 <= from <= to <= d.len(),
    ensures
        zero_or(d, from, to, dflt) == dflt || from <= zero_or(d, from, to, dflt) < to,
    decreases to - from,
{
    if from < to && d[from] != 0 {
        lemma_zero_or(d, from + 1, to, dflt);
    }
}

/// `d[from..to]` as a vector.
pub(crate) fn byte_range(d: &[u8], from: u64, to: u64) -> (res: Vec<u8>)
    requires
        from <= to <= d@.len(),
    ensures
        res@ == d@.subrange(from as int, to as int),
{
    let mut out: Vec<u8> = Vec::new();
    let mut i = from;
    while i < to
        invariant
            from <= i <= to <= d@.len(),
            out@ == d@.subrange(from as int, i as int),
        decreases to - i,
    {
        out.push(d[i as usize]);
        i = i + 1;
    }
    out
}

} // verus!
