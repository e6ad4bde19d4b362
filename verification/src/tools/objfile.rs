//! Opening an executable for disassembly: what goblin reads from an ELF, PE
//! or Mach-O file, held as plain values, and the disassembler it gives.
use vstd::prelude::*;
use crate::bytes::{string_from_utf8, string_from_utf8_lossy, utf8_lossy};
use vstd::utf8::{decode_utf8, valid_utf8};
use crate::num::{decimal, push_decimal};
use crate::text::{chars_start_with, push_str, starts_with, str_chars, str_eq};
use crate::tools::disasm::{
    add_unique, as_i16, byte_range, coff_name, coff_symbols, le16, le32, pe_coff_symbols, syms_view,
    DisasmArch, Disassembler, Symbol,
};

verus! {

#[verifier::external_type_specification]
#[verifier::external_body]
pub struct ExElf<'a>(goblin::elf::Elf<'a>);

#[verifier::external_type_specification]
#[verifier::external_body]
pub struct ExPe<'a>(goblin::pe::PE<'a>);

#[verifier::external_type_specification]
#[verifier::external_body]
pub struct ExMachO<'a>(goblin::mach::MachO<'a>);

#[verifier::external_type_specification]
#[verifier::external_body]
pub struct ExMultiArch<'a>(goblin::mach::MultiArch<'a>);

/// An ELF symbol: its name where the string table holds one, its value and
/// its size.
pub struct ObjSymbol {
    pub name: Option<String>,
    pub value: u64,
    pub size: u64,
}

/// An ELF section header: its name where the string table holds one, its
/// file offset, its size and its address.
pub struct ElfSection {
    pub name: Option<String>,
    pub offset: u64,
    pub size: u64,
    pub address: u64,
}

/// A PE section header: its 8 name bytes, its address relative to the
/// image base, and where its raw data lies in the file.
pub struct PeSection {
    pub name: Vec<u8>,
    pub virtual_address: u32,
    pub size_of_raw_data: u32,
    pub pointer_to_raw_data: u32,
}

/// A Mach-O section: its 16 name bytes, its address, its size and its file
/// offset.
pub struct MachSection {
    pub sectname: Vec<u8>,
    pub addr: u64,
    pub size: u64,
    pub offset: u32,
}

/// What a Mach-O image holds for disassembly: its CPU type, its entry
/// address, its symbol table entries (`None` for one that cannot be read)
/// and the sections of each segment (`None` where they cannot be read).
pub struct MachInfo {
    pub cputype: u32,
    pub entry: u64,
    pub symbols: Vec<Option<(String, u64)>>,
    pub segments: Vec<Option<Vec<MachSection>>>,
}

/// What goblin reads from a file's headers, as plain values.
pub enum ObjectInfo {
    Elf { machine: u16, entry: u64, symbols: Vec<ObjSymbol>, sections: Vec<ElfSection> },
    Pe {
        is_64: bool,
        image_base: u64,
        entry: u64,
        exports: Vec<(Option<String>, u64)>,
        sections: Vec<PeSection>,
    },
    Mach(MachInfo),
    /// A fat Mach-O: the (offset, size) of each architecture's slice, or
    /// the message of the error reading them.
    Fat(Result<Vec<(u32, u32)>, String>),
    Other,
}

// ---------------------------------------------------------------------------
// The goblin calls
// ---------------------------------------------------------------------------

/// What `goblin::Object::parse` reads from some bytes, or its error's
/// message; a function of the bytes alone, named.
pub uninterp spec fn goblin_object(data: Seq<u8>) -> Result<ObjectInfo, String>;

/// What `goblin::mach::MachO::parse` (at offset 0) reads from some bytes,
/// or its error's message; named.
pub uninterp spec fn goblin_macho(data: Seq<u8>) -> Result<MachInfo, String>;

/// `goblin::Object::parse`: the headers of an ELF, PE, Mach-O or fat
/// Mach-O file as plain values (`Other` for any other kind goblin knows),
/// or the message of its error. The contract only names the result.
#[verifier::external_body]
pub(crate) fn parse_object(data: &[u8]) -> (res: Result<ObjectInfo, String>)
    ensures
        res == goblin_object(data@),
{
    match goblin::Object::parse(data) {
        Ok(goblin::Object::Elf(elf)) => Ok(elf_info(&elf)),
        Ok(goblin::Object::PE(pe)) => Ok(pe_info(&pe)),
        Ok(goblin::Object::Mach(goblin::mach::Mach::Binary(m))) => Ok(ObjectInfo::Mach(mach_info(&m))),
        Ok(goblin::Object::Mach(goblin::mach::Mach::Fat(f))) => Ok(fat_info(&f)),
        Ok(_) => Ok(ObjectInfo::Other),
        Err(e) => Err(e.to_string()),
    }
}

/// `goblin::mach::MachO::parse` at offset 0: a Mach-O image as plain
/// values, or the message of its error. The contract only names the result.
#[verifier::external_body]
pub(crate) fn parse_macho(data: &[u8]) -> (res: Result<MachInfo, String>)
    ensures
        res == goblin_macho(data@),
{
    match goblin::mach::MachO::parse(data, 0) {
        Ok(m) => Ok(mach_info(&m)),
        Err(e) => Err(e.to_string()),
    }
}

/// A parsed ELF file's symbols, the symbol table then the dynamic one, each
/// name looked up in its string table.
#[verifier::external_body]
fn elf_symbol_list(elf: &goblin::elf::Elf) -> Vec<ObjSymbol> {
    let syms = elf.syms.iter().map(|s| (elf.strtab.get_at(s.st_name), s));
    let dynsyms = elf.dynsyms.iter().map(|s| (elf.dynstrtab.get_at(s.st_name), s));
    syms.chain(dynsyms).map(|(n, s)| ObjSymbol {
        name: n.map(|n| n.to_string()), value: s.st_value, size: s.st_size }).collect()
}

/// A parsed ELF file's machine, entry, symbols and section headers, each
/// section name looked up in its string table.
#[verifier::external_body]
fn elf_info(elf: &goblin::elf::Elf) -> ObjectInfo {
    ObjectInfo::Elf {
        machine: elf.header.e_machine,
        entry: elf.header.e_entry,
        symbols: elf_symbol_list(elf),
        sections: elf.section_headers.iter().map(|h| ElfSection {
            name: elf.shdr_strtab.get_at(h.sh_name).map(|n| n.to_string()),
            offset: h.sh_offset, size: h.sh_size, address: h.sh_addr }).collect(),
    }
}

/// A parsed PE file's bitness, image base, entry, exports (name and RVA)
/// and section headers.
#[verifier::external_body]
fn pe_info(pe: &goblin::pe::PE) -> ObjectInfo {
    ObjectInfo::Pe {
        is_64: pe.is_64,
        image_base: pe.image_base as u64,
        entry: pe.entry as u64,
        exports: pe.exports.iter().map(|e| (e.name.map(|n| n.to_string()), e.rva as u64)).collect(),
        sections: pe.sections.iter().map(|s| PeSection { name: s.name.to_vec(),
            virtual_address: s.virtual_address, size_of_raw_data: s.size_of_raw_data,
            pointer_to_raw_data: s.pointer_to_raw_data }).collect(),
    }
}

/// A parsed Mach-O image's CPU type, entry, symbols and sections.
#[verifier::external_body]
fn mach_info(m: &goblin::mach::MachO) -> MachInfo {
    MachInfo {
        cputype: m.header.cputype(),
        entry: m.entry,
        symbols: m.symbols.iter().flat_map(|s| s.iter())
            .map(|r| r.ok().map(|(n, l)| (n.to_string(), l.n_value))).collect(),
        segments: m.segments.iter().map(|seg| seg.sections().ok().map(|v| v.iter()
            .map(|(s, _)| MachSection { sectname: s.sectname.to_vec(), addr: s.addr,
                size: s.size, offset: s.offset }).collect())).collect(),
    }
}

/// A fat Mach-O's architecture slices, or the message of the error reading
/// them.
#[verifier::external_body]
fn fat_info(f: &goblin::mach::MultiArch) -> ObjectInfo {
    match f.arches() {
        Ok(a) => ObjectInfo::Fat(Ok(a.iter().map(|x| (x.offset, x.size)).collect())),
        Err(e) => ObjectInfo::Fat(Err(e.to_string())),
    }
}


// ---------------------------------------------------------------------------
// From the headers to a disassembler
// ---------------------------------------------------------------------------

/// A disassembler as plain values: code, instruction set, base address and
/// symbols.
pub type DisasmParts = (Seq<u8>, DisasmArch, u64, Seq<(Seq<char>, u64, u64)>);

/// Whether `res` is the disassembler `plan` describes, or its error.
pub open spec fn opened_as(res: Result<Disassembler, String>, plan: Result<DisasmParts, Seq<char>>) -> bool {
    match plan {
        Ok(p) => res matches Ok(d) && d.code() == p.0 && d.arch_of() == p.1 && d.base() == p.2
            && syms_view(d.syms()) == p.3,
        Err(m) => res matches Err(e) && e@ == m,
    }
}

/// The instruction set of an ELF machine number: 3 (i386), 62 (x86-64),
/// 40 (ARM), 183 (AArch64).
pub open spec fn elf_arch(m: u16) -> Option<DisasmArch> {
    if m == 3 {
        Some(DisasmArch::X86_32)
    } else if m == 62 {
        Some(DisasmArch::X86_64)
    } else if m == 40 {
        Some(DisasmArch::ARM)
    } else if m == 183 {
        Some(DisasmArch::AArch64)
    } else {
        None
    }
}

/// The instruction set of a Mach-O CPU type: x86 (7), x86-64 (0x01000007),
/// ARM (12), ARM64 (0x0100000C).
pub open spec fn mach_arch(t: u32) -> Option<DisasmArch> {
    if t == 7 {
        Some(DisasmArch::X86_32)
    } else if t == 0x0100_0007 {
        Some(DisasmArch::X86_64)
    } else if t == 12 {
        Some(DisasmArch::ARM)
    } else if t == 0x0100_000C {
        Some(DisasmArch::AArch64)
    } else {
        None
    }
}

/// The ELF symbols that have a non-empty name, in order, as (name, value,
/// size).
pub open spec fn elf_syms(s: Seq<ObjSymbol>) -> Seq<(Seq<char>, u64, u64)>
    decreases s.len(),
{
    if s.len() == 0 {
        seq![]
    } else {
        let rest = elf_syms(s.drop_last());
        let x = s.last();
        if x.name is Some && x.name->0@.len() > 0 {
            rest.push((x.name->0@, x.value, x.size))
        } else {
            rest
        }
    }
}

/// The named exports, in order, at the image base plus their RVA, of size 0.
pub open spec fn export_syms(e: Seq<(Option<String>, u64)>, base: u64) -> Seq<(Seq<char>, u64, u64)>
    decreases e.len(),
{
    if e.len() == 0 {
        seq![]
    } else {
        let rest = export_syms(e.drop_last(), base);
        let x = e.last();
        if x.0 is Some {
            rest.push((x.0->0@, (base + x.1) as u64, 0))
        } else {
            rest
        }
    }
}

/// The readable Mach-O symbols that have a non-empty name, in order, as
/// (name, value, 0).
pub open spec fn mach_syms(s: Seq<Option<(String, u64)>>) -> Seq<(Seq<char>, u64, u64)>
    decreases s.len(),
{
    if s.len() == 0 {
        seq![]
    } else {
        let rest = mach_syms(s.drop_last());
        match s.last() {
            Some((name, value)) => if name@.len() > 0 {
                rest.push((name@, value, 0))
            } else {
                rest
            },
            None => rest,
        }
    }
}

/// The first ELF section from `i` on named `.text`.
pub open spec fn elf_text(secs: Seq<ElfSection>, i: int) -> Option<int>
    decreases secs.len() - i,
{
    if i < 0 || i >= secs.len() {
        None
    } else if secs[i].name is Some && secs[i].name->0@ == ".text"@ {
        Some(i)
    } else {
        elf_text(secs, i + 1)
    }
}

/// The first PE section from `i` on whose name, read as UTF-8 with
/// replacement, starts with `.text`.
pub open spec fn pe_text(secs: Seq<PeSection>, i: int) -> Option<int>
    decreases secs.len() - i,
{
    if i < 0 || i >= secs.len() {
        None
    } else if starts_with(utf8_lossy(secs[i].name@), ".text"@) {
        Some(i)
    } else {
        pe_text(secs, i + 1)
    }
}

/// Whether a Mach-O section is a `__text` section within `len` bytes: its
/// name is valid UTF-8 starting with `__text` and its data lies in range.
pub open spec fn mach_text_at(s: MachSection, len: int) -> bool {
    &&& valid_utf8(s.sectname@)
    &&& starts_with(decode_utf8(s.sectname@), "__text"@)
    &&& s.offset + s.size <= len
}

/// The first `__text` section within `len` bytes from `i` on in a list.
pub open spec fn mach_text_in(secs: Seq<MachSection>, len: int, i: int) -> Option<int>
    decreases secs.len() - i,
{
    if i < 0 || i >= secs.len() {
        None
    } else if mach_text_at(secs[i], len) {
        Some(i)
    } else {
        mach_text_in(secs, len, i + 1)
    }
}

/// The first `__text` section within `len` bytes, over the segments from
/// `j` on in order (a segment whose sections cannot be read has none).
pub open spec fn mach_text(segs: Seq<Option<Vec<MachSection>>>, len: int, j: int) -> Option<MachSection>
    decreases segs.len() - j,
{
    if j < 0 || j >= segs.len() {
        None
    } else {
        match segs[j] {
            Some(v) => match mach_text_in(v@, len, 0) {
                Some(k) => Some(v@[k]),
                None => mach_text(segs, len, j + 1),
            },
            None => mach_text(segs, len, j + 1),
        }
    }
}

/// The code and base address: the given range of `data` at `address`
/// where it lies within the data, else all of `data` at `entry`.
pub open spec fn code_or_all(data: Seq<u8>, start: int, size: int, address: u64, entry: u64) -> (Seq<u8>, u64) {
    if start + size <= data.len() {
        (data.subrange(start, start + size), address)
    } else {
        (data, entry)
    }
}

/// An ELF file as a disassembler: the `.text` section at its address (all
/// the data at the entry point where there is none or it lies past the
/// data), the named symbols of both tables; an error for another machine.
pub open spec fn elf_parts(
    data: Seq<u8>,
    machine: u16,
    entry: u64,
    symbols: Seq<ObjSymbol>,
    sections: Seq<ElfSection>,
) -> Result<DisasmParts, Seq<char>> {
    match elf_arch(machine) {
        None => Err("Unsupported ELF machine type: "@ + decimal(machine as nat)),
        Some(arch) => {
            let (code, base) = match elf_text(sections, 0) {
                Some(k) => code_or_all(
                    data,
                    sections[k].offset as int,
                    sections[k].size as int,
                    sections[k].address,
                    entry,
                ),
                None => (data, entry),
            };
            Ok((code, arch, base, elf_syms(symbols)))
        },
    }
}

/// The section addresses of a PE file, in order.
pub open spec fn pe_vaddrs(secs: Seq<PeSection>) -> Seq<u32> {
    secs.map_values(|s: PeSection| s.virtual_address)
}

/// A PE file as a disassembler: x86-64 or x86-32 by its bitness, the first
/// `.text` section at the image base plus its address (all the data at the
/// entry point where there is none or it lies past the data), the named
/// exports followed by the COFF symbols.
pub open spec fn pe_parts(
    data: Seq<u8>,
    is_64: bool,
    image_base: u64,
    entry: u64,
    exports: Seq<(Option<String>, u64)>,
    sections: Seq<PeSection>,
) -> Result<DisasmParts, Seq<char>> {
    let arch = if is_64 {
        DisasmArch::X86_64
    } else {
        DisasmArch::X86_32
    };
    let start = (image_base + entry) as u64;
    let (code, base) = match pe_text(sections, 0) {
        Some(k) => code_or_all(
            data,
            sections[k].pointer_to_raw_data as int,
            sections[k].size_of_raw_data as int,
            (image_base + sections[k].virtual_address) as u64,
            start,
        ),
        None => (data, start),
    };
    let syms = match pe_coff_symbols(data, image_base, pe_vaddrs(sections), export_syms(exports, image_base)) {
        Some(s) => s,
        None => seq![],
    };
    Ok((code, arch, base, syms))
}

/// A Mach-O image as a disassembler: the first `__text` section at its
/// address (all the data at the entry point where there is none in range),
/// the named symbols; an error for another CPU type.
pub open spec fn mach_parts(data: Seq<u8>, m: MachInfo) -> Result<DisasmParts, Seq<char>> {
    match mach_arch(m.cputype) {
        None => Err("Unsupported Mach-O CPU type: "@ + decimal(m.cputype as nat)),
        Some(arch) => {
            let (code, base) = match mach_text(m.segments@, data.len() as int, 0) {
                Some(s) => (data.subrange(s.offset as int, s.offset + s.size), s.addr),
                None => (data, m.entry),
            };
            Ok((code, arch, base, mach_syms(m.symbols@)))
        },
    }
}

/// A file's headers as a disassembler (see `elf_parts`, `pe_parts`,
/// `mach_parts`); a fat Mach-O opens as its first slice; any other file is
/// x86-64 code at address 0 without symbols.
pub open spec fn object_parts(data: Seq<u8>, info: ObjectInfo) -> Result<DisasmParts, Seq<char>> {
    match info {
        ObjectInfo::Elf { machine, entry, symbols, sections } => elf_parts(
            data,
            machine,
            entry,
            symbols@,
            sections@,
        ),
        ObjectInfo::Pe { is_64, image_base, entry, exports, sections } => pe_parts(
            data,
            is_64,
            image_base,
            entry,
            exports@,
            sections@,
        ),
        ObjectInfo::Mach(m) => mach_parts(data, m),
        ObjectInfo::Fat(Err(e)) => Err("Fat Mach-O error: "@ + e@),
        ObjectInfo::Fat(Ok(arches)) => if arches.len() == 0 {
            Err("No architectures found in fat Mach-O"@)
        } else {
            let slice = data.subrange(arches[0].0 as int, arches[0].0 + arches[0].1);
            match goblin_macho(slice) {
                Err(e) => Err("Failed to parse Mach-O slice: "@ + e@),
                Ok(m) => mach_parts(slice, m),
            }
        },
        ObjectInfo::Other => Ok((data, DisasmArch::X86_64, 0, seq![])),
    }
}

/// Whether the addresses a PE file's symbols and code take fit in 64 bits:
/// the entry point, each named export, each COFF symbol and the `.text`
/// section's address.
pub open spec fn pe_fits(
    data: Seq<u8>,
    image_base: u64,
    entry: u64,
    exports: Seq<(Option<String>, u64)>,
    sections: Seq<PeSection>,
) -> bool {
    &&& image_base + entry <= u64::MAX
    &&& forall|i: int| 0 <= i < exports.len() && (#[trigger] exports[i]).0 is Some ==> image_base + exports[i].1 <= u64::MAX
    &&& pe_coff_symbols(data, image_base, pe_vaddrs(sections), export_syms(exports, image_base)) is Some
    &&& (pe_text(sections, 0) matches Some(k) ==> image_base + sections[k].virtual_address <= u64::MAX)
}

/// Whether the headers can be opened without an address or a slice out of
/// range: a PE file's addresses fit (`pe_fits`), and a fat Mach-O's first
/// slice ends within the data and within `u32::MAX`.
pub open spec fn object_fits(data: Seq<u8>, info: ObjectInfo) -> bool {
    match info {
        ObjectInfo::Pe { image_base, entry, exports, sections, .. } => pe_fits(
            data,
            image_base,
            entry,
            exports@,
            sections@,
        ),
        ObjectInfo::Fat(Ok(arches)) => arches.len() > 0 ==> arches[0].0 + arches[0].1 <= u32::MAX
            && arches[0].0 + arches[0].1 <= data.len(),
        _ => true,
    }
}

/// What `disassembler_from_bytes` checks before opening the headers: a PE
/// file's image base leaves room for 33 more bits and its entry point and
/// named exports fit in 64 bits; a fat Mach-O's first slice ends within the
/// data and within `u32::MAX`.
pub open spec fn object_checks(data: Seq<u8>, info: ObjectInfo) -> bool {
    match info {
        ObjectInfo::Pe { image_base, entry, exports, .. } => {
            &&& image_base + 0x2_0000_0000u64 <= u64::MAX
            &&& image_base + entry <= u64::MAX
            &&& forall|i: int| 0 <= i < exports@.len() && (#[trigger] exports@[i]).0 is Some ==> image_base + exports@[i].1 <= u64::MAX
        },
        _ => object_fits(data, info),
    }
}

/// The message for headers that fail `object_checks`.
pub open spec fn refusal(info: ObjectInfo) -> Seq<char> {
    if info is Pe {
        "PE addresses do not fit in 64 bits"@
    } else {
        "Fat Mach-O slice lies outside the file"@
    }
}

proof fn lemma_le32_bound(d: Seq<u8>, o: int)
    requires
        0 <= o,
        o + 4 <= d.len(),
    ensures
        le32(d, o) <= u32::MAX,
{
    let a = le16(d, o + 2);
    assert(a <= 65535);
    assert(a * 65536 <= 65535 * 65536) by (nonlinear_arith)
        requires
            a <= 65535,
    ;
}

/// With 33 bits of room above the image base, no COFF symbol address
/// passes `u64::MAX`.
proof fn lemma_coff_room(
    d: Seq<u8>,
    base: u64,
    secs: Seq<u32>,
    symtab: int,
    num: int,
    strtab: int,
    i: int,
    acc: Seq<(Seq<char>, u64, u64)>,
)
    requires
        base + 0x2_0000_0000u64 <= u64::MAX,
        symtab >= 0,
    ensures
        coff_symbols(d, base, secs, symtab, num, strtab, i, acc) is Some,
    decreases num + 256 - i,
{
    if i < 0 || i >= num || symtab + i * 18 + 18 > d.len() {
    } else {
        let e = symtab + i * 18;
        let secnum = as_i16(le16(d, e + 12));
        let sc = d[e + 16];
        let next = i + 1 + d[e + 17];
        lemma_le32_bound(d, e + 8);
        if (sc == 2 || sc == 3) && secnum > 0 {
            match coff_name(d, e, strtab) {
                Some(nb) => {
                    let name = utf8_lossy(nb);
                    if name.len() > 0 && name[0] != '.' {
                        let sec_va: int = if secnum - 1 < secs.len() {
                            secs[secnum - 1] as int
                        } else {
                            0
                        };
                        let vaddr = base + sec_va + le32(d, e + 8);
                        lemma_coff_room(
                            d,
                            base,
                            secs,
                            symtab,
                            num,
                            strtab,
                            next,
                            add_unique(acc, name, vaddr as u64, 0, true),
                        );
                    } else {
                        lemma_coff_room(d, base, secs, symtab, num, strtab, next, acc);
                    }
                },
                None => lemma_coff_room(d, base, secs, symtab, num, strtab, next, acc),
            }
        } else {
            lemma_coff_room(d, base, secs, symtab, num, strtab, next, acc);
        }
    }
}

/// What `disassembler_from_bytes` checks is enough to open the headers.
proof fn lemma_checks_fit(data: Seq<u8>, info: ObjectInfo)
    requires
        object_checks(data, info),
    ensures
        object_fits(data, info),
{
    if let ObjectInfo::Pe { image_base, entry, exports, sections, .. } = info {
        let acc = export_syms(exports@, image_base);
        if data.len() >= 0x40 {
            lemma_le32_bound(data, 0x3C);
            let pe = le32(data, 0x3C) as int;
            if pe + 24 <= data.len() {
                lemma_le32_bound(data, pe + 4 + 8);
                let symtab = le32(data, pe + 4 + 8) as int;
                let num = le32(data, pe + 4 + 12) as int;
                lemma_coff_room(data, image_base, pe_vaddrs(sections@), symtab, num, symtab + num * 18, 0, acc);
            }
        }
    }
}

fn prefixed(p: &str, e: &str) -> (res: String)
    ensures
        res@ == p@ + e@,
{
    let mut m = String::from_str(p);
    push_str(&mut m, e);
    m
}

/// The ELF symbols with a non-empty name.
fn elf_symbols(s: &Vec<ObjSymbol>) -> (res: Vec<Symbol>)
    ensures
        syms_view(res@) == elf_syms(s@),
{
    let mut out: Vec<Symbol> = Vec::new();
    let mut i: usize = 0;
    while i < s.len()
        invariant
            i <= s@.len(),
            syms_view(out@) == elf_syms(s@.take(i as int)),
        decreases s.len() - i,
    {
        assert(s@.take(i + 1).drop_last() == s@.take(i as int));
        let ghost before = out@;
        if let Some(n) = &s[i].name {
            if !n.as_str().is_empty() {
                out.push(Symbol { name: n.clone(), address: s[i].value, size: s[i].size });
                assert(syms_view(out@) =~= syms_view(before).push((n@, s@[i as int].value, s@[i as int].size)));
            }
        }
        i += 1;
    }
    assert(s@.take(s@.len() as int) == s@);
    out
}

/// The named exports at the image base plus their RVA.
fn export_symbols(e: &Vec<(Option<String>, u64)>, base: u64) -> (res: Vec<Symbol>)
    requires
        forall|i: int| 0 <= i < e@.len() && (#[trigger] e@[i]).0 is Some ==> base + e@[i].1 <= u64::MAX,
    ensures
        syms_view(res@) == export_syms(e@, base),
{
    let mut out: Vec<Symbol> = Vec::new();
    let mut i: usize = 0;
    while i < e.len()
        invariant
            i <= e@.len(),
            forall|i: int| 0 <= i < e@.len() && (#[trigger] e@[i]).0 is Some ==> base + e@[i].1 <= u64::MAX,
            syms_view(out@) == export_syms(e@.take(i as int), base),
        decreases e.len() - i,
    {
        assert(e@.take(i + 1).drop_last() == e@.take(i as int));
        let ghost before = out@;
        if let Some(n) = &e[i].0 {
            let a = base + e[i].1;
            out.push(Symbol { name: n.clone(), address: a, size: 0 });
            assert(syms_view(out@) =~= syms_view(before).push((n@, a, 0)));
        }
        i += 1;
    }
    assert(e@.take(e@.len() as int) == e@);
    out
}

/// The readable Mach-O symbols with a non-empty name.
fn mach_symbols(s: &Vec<Option<(String, u64)>>) -> (res: Vec<Symbol>)
    ensures
        syms_view(res@) == mach_syms(s@),
{
    let mut out: Vec<Symbol> = Vec::new();
    let mut i: usize = 0;
    while i < s.len()
        invariant
            i <= s@.len(),
            syms_view(out@) == mach_syms(s@.take(i as int)),
        decreases s.len() - i,
    {
        assert(s@.take(i + 1).drop_last() == s@.take(i as int));
        let ghost before = out@;
        if let Some((n, v)) = &s[i] {
            if !n.as_str().is_empty() {
                out.push(Symbol { name: n.clone(), address: *v, size: 0 });
                assert(syms_view(out@) =~= syms_view(before).push((n@, *v, 0)));
            }
        }
        i += 1;
    }
    assert(s@.take(s@.len() as int) == s@);
    out
}

fn find_elf_text(secs: &Vec<ElfSection>) -> (res: Option<usize>)
    ensures
        res matches Some(k) ==> k < secs@.len() && elf_text(secs@, 0) == Some(k as int),
        res is None ==> elf_text(secs@, 0) is None,
{
    let mut i: usize = 0;
    while i < secs.len()
        invariant
            i <= secs@.len(),
            elf_text(secs@, 0) == elf_text(secs@, i as int),
        decreases secs.len() - i,
    {
        if let Some(n) = &secs[i].name {
            if str_eq(n.as_str(), ".text") {
                return Some(i);
            }
        }
        i += 1;
    }
    None
}

fn find_pe_text(secs: &Vec<PeSection>) -> (res: Option<usize>)
    ensures
        res matches Some(k) ==> k < secs@.len() && pe_text(secs@, 0) == Some(k as int),
        res is None ==> pe_text(secs@, 0) is None,
{
    let prefix = str_chars(".text");
    let mut i: usize = 0;
    while i < secs.len()
        invariant
            i <= secs@.len(),
            prefix@ == ".text"@,
            pe_text(secs@, 0) == pe_text(secs@, i as int),
        decreases secs.len() - i,
    {
        let name = string_from_utf8_lossy(secs[i].name.as_slice());
        let cs = str_chars(name.as_str());
        if chars_start_with(&cs, &prefix) {
            return Some(i);
        }
        i += 1;
    }
    None
}

fn is_mach_text(s: &MachSection, len: u64, prefix: &Vec<char>) -> (res: bool)
    requires
        prefix@ == "__text"@,
    ensures
        res == mach_text_at(*s, len as int),
{
    let fits = match (s.offset as u64).checked_add(s.size) {
        Some(end) => end <= len,
        None => false,
    };
    if !fits {
        return false;
    }
    let bytes = byte_range(s.sectname.as_slice(), 0, s.sectname.len() as u64);
    assert(bytes@ == s.sectname@);
    match string_from_utf8(bytes) {
        Ok(t) => {
            let cs = str_chars(t.as_str());
            chars_start_with(&cs, prefix)
        },
        Err(_) => false,
    }
}

/// The (offset, size, address) of the first `__text` section within `len`
/// bytes.
fn find_mach_text(segs: &Vec<Option<Vec<MachSection>>>, len: u64) -> (res: Option<(u32, u64, u64)>)
    ensures
        match mach_text(segs@, len as int, 0) {
            Some(s) => res == Some((s.offset, s.size, s.addr)),
            None => res is None,
        },
        res matches Some(r) ==> r.0 + r.1 <= len,
{
    let prefix = str_chars("__text");
    let mut j: usize = 0;
    while j < segs.len()
        invariant
            j <= segs@.len(),
            prefix@ == "__text"@,
            mach_text(segs@, len as int, 0) == mach_text(segs@, len as int, j as int),
        decreases segs.len() - j,
    {
        if let Some(v) = &segs[j] {
            let mut i: usize = 0;
            while i < v.len()
                invariant
                    i <= v@.len(),
                    j < segs@.len(),
                    prefix@ == "__text"@,
                    segs@[j as int] == Some(*v),
                    mach_text(segs@, len as int, 0) == mach_text(segs@, len as int, j as int),
                    mach_text_in(v@, len as int, 0) == mach_text_in(v@, len as int, i as int),
                decreases v.len() - i,
            {
                if is_mach_text(&v[i], len, &prefix) {
                    assert(mach_text_in(v@, len as int, i as int) == Some(i as int));
                    assert(mach_text(segs@, len as int, j as int) == Some(v@[i as int]));
                    return Some((v[i].offset, v[i].size, v[i].addr));
                }
                i += 1;
            }
            assert(mach_text_in(v@, len as int, 0) is None);
            assert(mach_text(segs@, len as int, j as int) == mach_text(segs@, len as int, j + 1));
        } else {
            assert(mach_text(segs@, len as int, j as int) == mach_text(segs@, len as int, j + 1));
        }
        j += 1;
    }
    None
}

fn section_vaddrs(secs: &Vec<PeSection>) -> (res: Vec<u32>)
    ensures
        res@ == pe_vaddrs(secs@),
{
    let mut out: Vec<u32> = Vec::new();
    let mut i: usize = 0;
    while i < secs.len()
        invariant
            i <= secs@.len(),
            out@.len() == i,
            forall|k: int| 0 <= k < i ==> out@[k] == secs@[k].virtual_address,
        decreases secs.len() - i,
    {
        out.push(secs[i].virtual_address);
        i += 1;
    }
    assert(out@ =~= pe_vaddrs(secs@));
    out
}

/// A Mach-O image as a disassembler (see `mach_parts`).
pub fn disassembler_from_macho(data: Vec<u8>, m: MachInfo) -> (res: Result<Disassembler, String>)
    ensures
        opened_as(res, mach_parts(data@, m)),
{
    let t = m.cputype;
    let arch = if t == 7 {
        DisasmArch::X86_32
    } else if t == 0x0100_0007 {
        DisasmArch::X86_64
    } else if t == 12 {
        DisasmArch::ARM
    } else if t == 0x0100_000C {
        DisasmArch::AArch64
    } else {
        let mut msg = String::from_str("Unsupported Mach-O CPU type: ");
        push_decimal(&mut msg, t as u64);
        return Err(msg);
    };
    let symbols = mach_symbols(&m.symbols);
    let (code, base) = match find_mach_text(&m.segments, data.len() as u64) {
        Some((offset, size, addr)) => (byte_range(data.as_slice(), offset as u64, offset as u64 + size), addr),
        None => (data, m.entry),
    };
    Ok(Disassembler::with_symbols(code, arch, base, symbols))
}

/// A file's headers as a disassembler (see `object_parts`): its instruction
/// set, code, base address and symbols, or the error for a machine or CPU
/// type it has no instruction set for, for a fat Mach-O without slices or
/// whose slice goblin cannot read.
pub fn disassembler_from_object(data: Vec<u8>, info: ObjectInfo) -> (res: Result<Disassembler, String>)
    requires
        object_fits(data@, info),
    ensures
        opened_as(res, object_parts(data@, info)),
{
    match info {
        ObjectInfo::Elf { machine, entry, symbols, sections } => {
            let arch = if machine == 3 {
                DisasmArch::X86_32
            } else if machine == 62 {
                DisasmArch::X86_64
            } else if machine == 40 {
                DisasmArch::ARM
            } else if machine == 183 {
                DisasmArch::AArch64
            } else {
                let mut msg = String::from_str("Unsupported ELF machine type: ");
                push_decimal(&mut msg, machine as u64);
                return Err(msg);
            };
            let syms = elf_symbols(&symbols);
            let (code, base) = match find_elf_text(&sections) {
                Some(k) => {
                    let sec = &sections[k];
                    let fits = match sec.offset.checked_add(sec.size) {
                        Some(end) => end <= data.len() as u64,
                        None => false,
                    };
                    let n: usize = data.len();
                    assert(n as u64 == data@.len());
                    assert(fits == (sec.offset + sec.size <= data@.len()));
                    if fits {
                        let end = sec.offset + sec.size;
                        let c = byte_range(data.as_slice(), sec.offset, end);
                        (c, sec.address)
                    } else {
                        (data, entry)
                    }
                },
                None => (data, entry),
            };
            Ok(Disassembler::with_symbols(code, arch, base, syms))
        },
        ObjectInfo::Pe { is_64, image_base, entry, exports, sections } => {
            let arch = if is_64 {
                DisasmArch::X86_64
            } else {
                DisasmArch::X86_32
            };
            let mut syms = export_symbols(&exports, image_base);
            let vaddrs = section_vaddrs(&sections);
            Disassembler::parse_pe_coff_symbols(data.as_slice(), image_base, vaddrs.as_slice(), &mut syms);
            let start = image_base + entry;
            let (code, base) = match find_pe_text(&sections) {
                Some(k) => {
                    assert(pe_text(sections@, 0) == Some(k as int));
                    assert(image_base + sections@[k as int].virtual_address <= u64::MAX);
                    let off = sections[k].pointer_to_raw_data as u64;
                    let end = off + sections[k].size_of_raw_data as u64;
                    if end <= data.len() as u64 {
                        (
                            byte_range(data.as_slice(), off, end),
                            image_base + sections[k].virtual_address as u64,
                        )
                    } else {
                        (data, start)
                    }
                },
                None => (data, start),
            };
            Ok(Disassembler::with_symbols(code, arch, base, syms))
        },
        ObjectInfo::Mach(m) => disassembler_from_macho(data, m),
        ObjectInfo::Fat(Err(e)) => Err(prefixed("Fat Mach-O error: ", e.as_str())),
        ObjectInfo::Fat(Ok(arches)) => {
            if arches.len() == 0 {
                return Err(String::from_str("No architectures found in fat Mach-O"));
            }
            let (off, size) = arches[0];
            let slice = byte_range(data.as_slice(), off as u64, off as u64 + size as u64);
            match parse_macho(slice.as_slice()) {
                Err(e) => Err(prefixed("Failed to parse Mach-O slice: ", e.as_str())),
                Ok(m) => disassembler_from_macho(slice, m),
            }
        },
        ObjectInfo::Other => {
            let d = Disassembler::from_bytes(data, DisasmArch::X86_64, 0);
            assert(syms_view(d.syms()) =~= seq![]);
            Ok(d)
        },
    }
}

/// Whether the headers pass `object_checks`.
#[verifier::loop_isolation(false)]
fn checks_pass(data: &Vec<u8>, info: &ObjectInfo) -> (res: bool)
    ensures
        res == object_checks(data@, *info),
{
    match info {
        ObjectInfo::Pe { image_base, entry, exports, .. } => {
            if *image_base > u64::MAX - 0x2_0000_0000u64 || *entry > u64::MAX - *image_base {
                return false;
            }
            let mut i: usize = 0;
            while i < exports.len()
                invariant
                    i <= exports@.len(),
                    forall|k: int| 0 <= k < i && (#[trigger] exports@[k]).0 is Some ==> *image_base + exports@[k].1 <= u64::MAX,
                decreases exports.len() - i,
            {
                if exports[i].0.is_some() && exports[i].1 > u64::MAX - *image_base {
                    assert((exports@[i as int]).0 is Some);
                    return false;
                }
                i += 1;
            }
            true
        },
        ObjectInfo::Fat(Ok(arches)) => {
            if arches.len() == 0 {
                return true;
            }
            let end = arches[0].0 as u64 + arches[0].1 as u64;
            end <= u32::MAX as u64 && end <= data.len() as u64
        },
        _ => true,
    }
}

/// Opens a binary for disassembly: reads its headers with goblin (see
/// `disassembler_from_object`). Headers that fail `object_checks` are
/// refused (see `refusal`); where goblin cannot read them, its message
/// follows "Failed to parse binary: ".
pub fn disassembler_from_bytes(data: Vec<u8>) -> (res: Result<Disassembler, String>)
    ensures
        match goblin_object(data@) {
            Err(e) => res matches Err(m) && m@ == "Failed to parse binary: "@ + e@,
            Ok(info) => if object_checks(data@, info) {
                opened_as(res, object_parts(data@, info))
            } else {
                res matches Err(m) && m@ == refusal(info)
            },
        },
{
    match parse_object(data.as_slice()) {
        Err(e) => Err(prefixed("Failed to parse binary: ", e.as_str())),
        Ok(info) => {
            if checks_pass(&data, &info) {
                proof {
                    lemma_checks_fit(data@, info);
                }
                disassembler_from_object(data, info)
            } else if let ObjectInfo::Pe { .. } = info {
                Err(String::from_str("PE addresses do not fit in 64 bits"))
            } else {
                Err(String::from_str("Fat Mach-O slice lies outside the file"))
            }
        },
    }
}

} // verus!
