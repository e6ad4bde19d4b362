use notepadppp::tools::disasm::{DisasmArch, Disassembler, Symbol};
use notepadppp::tools::listing::RawInsn;

fn sym(name: &str, address: u64, size: u64) -> Symbol {
    Symbol { name: name.to_string(), address, size }
}

fn insn(address: u64, len: usize, mn: &str, ops: &str) -> RawInsn {
    RawInsn {
        address,
        bytes: vec![0x90; len],
        mnemonic: Some(mn.to_string()),
        op_str: Some(ops.to_string()),
    }
}

fn dis() -> Disassembler {
    Disassembler::with_symbols(
        vec![0x90; 16],
        DisasmArch::X86_64,
        0x140001000,
        vec![sym("main", 0x140001000, 0x10), sym("data", 0x140003000, 0)],
    )
}

#[test]
fn listing_resolves_direct_rip_and_absolute_addresses() {
    let d = dis();
    let insns = vec![
        insn(0x140001000, 5, "call", "0x140001004"),
        insn(0x140001004, 7, "mov", "rax, qword ptr [rip + 0x1ff5]"),
        insn(0x14000100b, 5, "mov", "eax, dword ptr [0x140003008]"),
        insn(0x140001010, 1, "ret", ""),
    ];
    let lines = d.insns_to_lines(&insns);
    assert_eq!(lines.len(), 4);
    assert_eq!(lines[0].symbol.as_deref(), Some("main"));
    assert_eq!(lines[0].operands, "main+0x4");
    assert_eq!(lines[0].comment.as_deref(), Some("0x140001004"));
    assert_eq!(lines[0].branch_target, Some(0x140001004));
    assert!(lines[1].is_branch_target);
    assert_eq!(lines[1].operands, "rax, qword ptr [data]");
    assert_eq!(lines[1].comment.as_deref(), Some("rax, qword ptr [rip + 0x1ff5]"));
    assert_eq!(lines[2].operands, "eax, dword ptr [data+0x8]");
    assert_eq!(lines[3].operands, "");
    assert_eq!(lines[3].comment, None);
    assert!(!lines[3].is_branch_target);
}

#[test]
fn listing_keeps_unresolved_operands() {
    let d = dis();
    let lines = d.insns_to_lines(&vec![
        insn(0x200000000, 4, "mov", "rax, [rip - 12]"),
        insn(0x200000004, 2, "bswap", "eax"),
    ]);
    assert_eq!(lines[0].operands, "rax, [rip - 12]");
    assert_eq!(lines[0].comment, None);
    assert_eq!(lines[1].branch_target, None);
}

#[test]
fn disassemble_x86_bytes_with_capstone() {
    let d = Disassembler::with_symbols(
        vec![0x90, 0xEB, 0xFD, 0xC3],
        DisasmArch::X86_64,
        0x1000,
        vec![sym("start", 0x1000, 4)],
    );
    let lines = d.disassemble_range(0, 10);
    let mns: Vec<&str> = lines.iter().map(|l| l.mnemonic.as_str()).collect();
    assert_eq!(mns, vec!["nop", "jmp", "ret"]);
    assert_eq!(lines[1].operands, "start");
    assert_eq!(lines[1].branch_target, Some(0x1000));
    assert!(lines[0].is_branch_target);
    assert_eq!(d.disassemble_range(0, 0).len(), 0);
    assert_eq!(d.disassemble_range(9, 1).len(), 0);
    let at = d.disassemble_at_address(0x1003, 1);
    assert_eq!(at.len(), 1);
    assert_eq!(at[0].mnemonic, "ret");
    assert_eq!(d.disassemble_at_address(0x2000, 1).len(), 0);
}
