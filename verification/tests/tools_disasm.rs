use notepadppp::tools::disasm::{
    pdb_path_in_pe,
    compute_branch_arrows, parse_hex_address, render_arrow_column, DisasmArch, DisasmLine,
    Disassembler, Symbol,
};

fn line(address: u64, mnemonic: &str, target: Option<u64>) -> DisasmLine {
    DisasmLine {
        address,
        bytes: vec![0x90],
        mnemonic: mnemonic.to_string(),
        operands: String::new(),
        comment: None,
        symbol: None,
        is_branch_target: false,
        branch_target: target,
    }
}

#[test]
fn disasm_arrows_lanes_and_column() {
    let lines = vec![
        line(0x10, "jmp", Some(0x16)),
        line(0x12, "call", Some(0x10)),
        line(0x14, "jne", Some(0x10)),
        line(0x16, "bswap", Some(0x12)),
    ];
    let arrows = compute_branch_arrows(&lines);
    let got: Vec<(usize, usize, usize, bool)> =
        arrows.iter().map(|a| (a.from_line, a.to_line, a.lane, a.goes_up)).collect();
    assert_eq!(got, vec![(2, 0, 0, true), (0, 3, 1, false)]);
    assert_eq!(render_arrow_column(0, &arrows, 2), "┌┌→");
    assert_eq!(render_arrow_column(1, &arrows, 2), "││ ");
    assert_eq!(render_arrow_column(3, &arrows, 2), "└ →");
    assert_eq!(render_arrow_column(3, &arrows, 0), "");
    assert_eq!(render_arrow_column(1, &arrows, 1), "│ ");
}

#[test]
fn disasm_offsets_and_writes() {
    let mut d = Disassembler::from_bytes(vec![1, 2, 3, 4], DisasmArch::X86_64, 0x1000);
    assert_eq!(d.address_to_offset(0x1002), Some(2));
    assert_eq!(d.address_to_offset(0x0fff), None);
    assert_eq!(d.address_to_offset(0x1004), None);
    assert_eq!(d.offset_to_address(3), 0x1003);
    d.write_bytes(2, &[9, 9, 9]);
    assert_eq!(d.bytes(), &[1, 2, 9, 9]);
    d.set_base_address(0x2000);
    assert_eq!(d.base_address(), 0x2000);
    d.set_arch(DisasmArch::ARM);
    assert_eq!(d.arch(), DisasmArch::ARM);
    assert_eq!(d.arch().label(), "ARM");
}

#[test]
fn disasm_symbol_lookup_and_refs() {
    let mut d = Disassembler::from_bytes(vec![0; 16], DisasmArch::X86_64, 0x1000);
    d.add_symbol("main".to_string(), 0x1000, 2);
    d.add_symbol("helper".to_string(), 0x1010, 0);
    assert_eq!(d.symbol_at_address(0x1001).map(|s| s.name.as_str()), Some("main"));
    assert_eq!(d.symbol_at_address(0x1010).map(|s| s.name.as_str()), Some("helper"));
    assert!(d.symbol_at_address(0x1005).is_none());
    assert_eq!(d.format_symbol_ref(0x1001), Some("main+0x1".to_string()));
    assert_eq!(d.format_symbol_ref(0x1010), Some("helper".to_string()));
    assert_eq!(d.format_symbol_ref(0x1020), Some("helper+0x10".to_string()));
    assert_eq!(d.format_symbol_ref(0x0fff), None);
    assert_eq!(d.format_symbol_ref(0x21010), None);
    assert_eq!(d.find_symbol("MAIN").map(|s| s.address), Some(0x1000));
    assert_eq!(d.find_symbol("elp").map(|s| s.address), Some(0x1010));
    assert!(d.find_symbol("zzz").is_none());
    assert_eq!(d.symbols().len(), 2);
}

#[test]
fn disasm_parse_hex_address() {
    assert_eq!(parse_hex_address(" 0x1f "), Some(31));
    assert_eq!(parse_hex_address("ff"), Some(255));
    assert_eq!(parse_hex_address("+10"), Some(16));
    assert_eq!(parse_hex_address("0xg"), None);
    assert_eq!(parse_hex_address(""), None);
    assert_eq!(parse_hex_address("10000000000000000"), None);
}

fn put32(d: &mut [u8], at: usize, v: u32) {
    d[at..at + 4].copy_from_slice(&v.to_le_bytes());
}

fn put16(d: &mut [u8], at: usize, v: u16) {
    d[at..at + 2].copy_from_slice(&v.to_le_bytes());
}

#[test]
fn disasm_pe_coff_symbols() {
    let mut data = vec![0u8; 0x200];
    put32(&mut data, 0x3c, 0x40);
    put32(&mut data, 0x44 + 12, 2);
    put32(&mut data, 0x44 + 8, 0x100);
    // entry 0: short name, section 1, external
    data[0x100..0x104].copy_from_slice(b"main");
    put32(&mut data, 0x100 + 8, 0x10);
    put16(&mut data, 0x100 + 12, 1);
    data[0x100 + 16] = 2;
    // entry 1: long name in the string table, section 2, static
    put32(&mut data, 0x112 + 4, 4);
    put32(&mut data, 0x112 + 8, 0x20);
    put16(&mut data, 0x112 + 12, 2);
    data[0x112 + 16] = 3;
    data[0x128..0x12e].copy_from_slice(b"helper");
    let mut symbols: Vec<Symbol> = Vec::new();
    Disassembler::parse_pe_coff_symbols(&data, 0x400000, &[0x1000, 0x2000], &mut symbols);
    let got: Vec<(String, u64)> = symbols.iter().map(|s| (s.name.clone(), s.address)).collect();
    assert_eq!(got, vec![("main".to_string(), 0x401010), ("helper".to_string(), 0x402020)]);
    // a second pass adds no duplicates
    Disassembler::parse_pe_coff_symbols(&data, 0x400000, &[0x1000, 0x2000], &mut symbols);
    assert_eq!(symbols.len(), 2);
    // too short for headers: nothing
    let mut none: Vec<Symbol> = Vec::new();
    Disassembler::parse_pe_coff_symbols(&data[..0x20], 0, &[], &mut none);
    assert!(none.is_empty());
}

#[test]
fn disasm_pdb_path_from_pe() {
    let mut data = vec![0u8; 0x300];
    put32(&mut data, 0x3c, 0x40);
    put16(&mut data, 0x44 + 2, 1);
    put16(&mut data, 0x44 + 16, 0xf0);
    put16(&mut data, 0x58, 0x20b);
    put32(&mut data, 0x58 + 160, 0x3000);
    put32(&mut data, 0x58 + 164, 28);
    let sec = 0x58 + 0xf0;
    put32(&mut data, sec + 12, 0x3000);
    put32(&mut data, sec + 16, 0x100);
    put32(&mut data, sec + 20, 0x200);
    put32(&mut data, 0x200 + 12, 2);
    put32(&mut data, 0x200 + 24, 0x240);
    data[0x240..0x244].copy_from_slice(b"RSDS");
    data[0x258..0x260].copy_from_slice(b"C:\\x.pdb");
    assert_eq!(Disassembler::extract_pdb_path_from_pe(&data), Some("C:\\x.pdb".to_string()));
    data[0x240] = b'X';
    assert_eq!(Disassembler::extract_pdb_path_from_pe(&data), None);
    assert_eq!(Disassembler::extract_pdb_path_from_pe(&[0u8; 16]), None);
}

#[test]
fn pdb_path_of_data_too_short_for_pe_headers() {
    assert_eq!(pdb_path_in_pe(&[0u8; 16]), Some(None));
}
