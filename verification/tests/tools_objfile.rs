use notepadppp::tools::disasm::{DisasmArch, Disassembler};
use notepadppp::tools::objfile::{
    disassembler_from_bytes, disassembler_from_macho, disassembler_from_object, ElfSection,
    MachInfo, MachSection, ObjSymbol, ObjectInfo, PeSection,
};

fn names(d: &Disassembler) -> Vec<(String, u64, u64)> {
    d.symbols().iter().map(|s| (s.name.clone(), s.address, s.size)).collect()
}

fn elf_sym(name: Option<&str>, value: u64, size: u64) -> ObjSymbol {
    ObjSymbol { name: name.map(|n| n.to_string()), value, size }
}

fn elf_sec(name: Option<&str>, offset: u64, size: u64, address: u64) -> ElfSection {
    ElfSection { name: name.map(|n| n.to_string()), offset, size, address }
}

fn err_of(r: Result<Disassembler, String>) -> String {
    match r {
        Ok(_) => panic!("expected an error"),
        Err(e) => e,
    }
}

#[test]
fn elf_text_section_and_named_symbols() {
    let data: Vec<u8> = (0u8..16).collect();
    let info = ObjectInfo::Elf {
        machine: 62,
        entry: 0x400000,
        symbols: vec![elf_sym(Some("main"), 0x1000, 8), elf_sym(Some(""), 5, 0), elf_sym(None, 6, 0), elf_sym(Some("puts"), 0, 0)],
        sections: vec![elf_sec(Some(".data"), 0, 2, 0x2000), elf_sec(Some(".text"), 4, 3, 0x1000)],
    };
    let d = disassembler_from_object(data, info).unwrap();
    assert_eq!(d.arch(), DisasmArch::X86_64);
    assert_eq!(d.base_address(), 0x1000);
    assert_eq!(d.bytes(), &[4u8, 5, 6][..]);
    assert_eq!(names(&d), vec![("main".to_string(), 0x1000, 8), ("puts".to_string(), 0, 0)]);
}

#[test]
fn elf_text_past_the_data_falls_back_to_entry() {
    let data: Vec<u8> = vec![1, 2, 3, 4];
    let info = ObjectInfo::Elf {
        machine: 40,
        entry: 0x8000,
        symbols: vec![],
        sections: vec![elf_sec(Some(".text"), 2, 10, 0x1000)],
    };
    let d = disassembler_from_object(data.clone(), info).unwrap();
    assert_eq!(d.arch(), DisasmArch::ARM);
    assert_eq!(d.base_address(), 0x8000);
    assert_eq!(d.bytes(), &data[..]);
}

#[test]
fn elf_machine_numbers() {
    for (m, a) in [(3u16, DisasmArch::X86_32), (62, DisasmArch::X86_64), (40, DisasmArch::ARM), (183, DisasmArch::AArch64)] {
        let info = ObjectInfo::Elf { machine: m, entry: 0, symbols: vec![], sections: vec![] };
        assert_eq!(disassembler_from_object(vec![0; 4], info).unwrap().arch(), a);
    }
    let info = ObjectInfo::Elf { machine: 8, entry: 0, symbols: vec![], sections: vec![] };
    assert_eq!(err_of(disassembler_from_object(vec![0; 4], info)), "Unsupported ELF machine type: 8");
}

#[test]
fn pe_text_section_and_exports() {
    let data: Vec<u8> = (0u8..0x30).collect();
    let mut name = b".text".to_vec();
    name.extend_from_slice(&[0, 0, 0]);
    let info = ObjectInfo::Pe {
        is_64: false,
        image_base: 0x400000,
        entry: 0x20,
        exports: vec![(Some("Start".to_string()), 0x10), (None, 0x14), (Some(String::new()), 0x18)],
        sections: vec![
            PeSection { name: b".rdata\0\0".to_vec(), virtual_address: 0x2000, size_of_raw_data: 2, pointer_to_raw_data: 0 },
            PeSection { name, virtual_address: 0x1000, size_of_raw_data: 4, pointer_to_raw_data: 8 },
        ],
    };
    let d = disassembler_from_object(data, info).unwrap();
    assert_eq!(d.arch(), DisasmArch::X86_32);
    assert_eq!(d.base_address(), 0x401000);
    assert_eq!(d.bytes(), &[8u8, 9, 10, 11][..]);
    assert_eq!(
        names(&d),
        vec![("Start".to_string(), 0x400010, 0), (String::new(), 0x400018, 0)]
    );
}

#[test]
fn pe_without_text_starts_at_entry() {
    let info = ObjectInfo::Pe { is_64: true, image_base: 0x1_4000_0000, entry: 0x1234, exports: vec![], sections: vec![] };
    let d = disassembler_from_object(vec![7; 8], info).unwrap();
    assert_eq!(d.arch(), DisasmArch::X86_64);
    assert_eq!(d.base_address(), 0x1_4000_1234);
    assert_eq!(d.bytes().len(), 8);
}

fn mach(cputype: u32, segments: Vec<Option<Vec<MachSection>>>) -> MachInfo {
    MachInfo {
        cputype,
        entry: 0x100,
        symbols: vec![Some(("_main".to_string(), 0x1f00)), None, Some((String::new(), 4))],
        segments,
    }
}

fn sect(name: &[u8], offset: u32, size: u64, addr: u64) -> MachSection {
    let mut n = name.to_vec();
    n.resize(16, 0);
    MachSection { sectname: n, addr, size, offset }
}

#[test]
fn macho_first_text_section_in_range() {
    let data: Vec<u8> = (0u8..32).collect();
    let m = mach(0x0100_000C, vec![
        None,
        Some(vec![sect(b"__data", 0, 4, 0x3000), sect(b"__text", 30, 8, 0x2000)]),
        Some(vec![sect(b"__text", 16, 4, 0x1f00)]),
    ]);
    let d = disassembler_from_macho(data, m).unwrap();
    assert_eq!(d.arch(), DisasmArch::AArch64);
    assert_eq!(d.base_address(), 0x1f00);
    assert_eq!(d.bytes(), &[16u8, 17, 18, 19][..]);
    assert_eq!(names(&d), vec![("_main".to_string(), 0x1f00, 0)]);
}

#[test]
fn macho_without_text_starts_at_entry() {
    let d = disassembler_from_macho(vec![1, 2], mach(7, vec![])).unwrap();
    assert_eq!(d.arch(), DisasmArch::X86_32);
    assert_eq!(d.base_address(), 0x100);
    assert_eq!(d.bytes(), &[1u8, 2][..]);
}

#[test]
fn macho_unsupported_cpu() {
    assert_eq!(err_of(disassembler_from_macho(vec![], mach(18, vec![]))), "Unsupported Mach-O CPU type: 18");
}

#[test]
fn fat_macho_errors() {
    assert_eq!(err_of(disassembler_from_object(vec![], ObjectInfo::Fat(Ok(vec![])))), "No architectures found in fat Mach-O");
    assert_eq!(err_of(disassembler_from_object(vec![], ObjectInfo::Fat(Err("bad".to_string())))), "Fat Mach-O error: bad");
    let r = disassembler_from_object(vec![0; 8], ObjectInfo::Fat(Ok(vec![(0, 8)])));
    assert!(err_of(r).starts_with("Failed to parse Mach-O slice: "));
}

#[test]
fn other_files_are_raw_x86_64() {
    let d = disassembler_from_object(vec![0x90, 0xc3], ObjectInfo::Other).unwrap();
    assert_eq!(d.arch(), DisasmArch::X86_64);
    assert_eq!(d.base_address(), 0);
    assert_eq!(d.bytes(), &[0x90u8, 0xc3][..]);
    assert!(d.symbols().is_empty());
}

#[test]
fn bytes_too_short_to_parse() {
    let e = err_of(disassembler_from_bytes(vec![1, 2, 3]));
    assert!(e.starts_with("Failed to parse binary: "));
    assert!(e.len() > "Failed to parse binary: ".len());
}

#[test]
fn bytes_of_unknown_kind_open_raw() {
    let data = vec![0x90u8; 32];
    let d = disassembler_from_bytes(data.clone()).unwrap();
    assert_eq!(d.arch(), DisasmArch::X86_64);
    assert_eq!(d.base_address(), 0);
    assert_eq!(d.bytes(), &data[..]);
}

#[test]
fn bytes_of_fat_macho_without_slices() {
    let mut data = vec![0xca, 0xfe, 0xba, 0xbe, 0, 0, 0, 0];
    data.resize(16, 0);
    assert_eq!(err_of(disassembler_from_bytes(data)), "No architectures found in fat Mach-O");
}

#[test]
fn bytes_of_fat_macho_with_slice_past_the_file() {
    let mut data = vec![0xca, 0xfe, 0xba, 0xbe, 0, 0, 0, 1];
    data.extend_from_slice(&[0, 0, 0, 7, 0, 0, 0, 3, 0, 0, 0x10, 0, 0, 0, 0x10, 0, 0, 0, 0, 0]);
    data.resize(32, 0);
    assert_eq!(err_of(disassembler_from_bytes(data)), "Fat Mach-O slice lies outside the file");
}
