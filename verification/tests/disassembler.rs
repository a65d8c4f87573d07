use claudeth::evm::disassembler::{disassemble, format_disassembly, Instruction};

#[test]
fn disassembles_push_add_stop() {
    let insts = disassemble(&[0x60, 0x01, 0x60, 0x02, 0x01, 0x00]);
    assert_eq!(insts.len(), 4);
    assert_eq!(
        insts[0],
        Instruction { pc: 0, opcode: 0x60, name: "PUSH1".to_string(), immediate: vec![0x01] }
    );
    assert_eq!(insts[1].pc, 2);
    assert_eq!(insts[1].immediate, vec![0x02]);
    assert_eq!(insts[2].pc, 4);
    assert_eq!(insts[2].name, "ADD");
    assert!(insts[2].immediate.is_empty());
    assert_eq!(insts[3].pc, 5);
    assert_eq!(insts[3].name, "STOP");
}

#[test]
fn truncated_push_takes_remaining_bytes() {
    let insts = disassemble(&[0x63, 0xaa, 0xbb]);
    assert_eq!(insts.len(), 1);
    assert_eq!(insts[0].name, "PUSH4");
    assert_eq!(insts[0].immediate, vec![0xaa, 0xbb]);
}

#[test]
fn names_follow_the_disassembler_table() {
    let insts = disassemble(&[0x44, 0x5f, 0x8f, 0x9a, 0xa4, 0x0c, 0xef, 0x7f]);
    let names: Vec<&str> = insts.iter().map(|i| i.name.as_str()).collect();
    assert_eq!(
        names,
        vec!["DIFFICULTY", "PUSH0", "DUP16", "SWAP11", "LOG4", "UNKNOWN_0x0c", "UNKNOWN_0xef", "PUSH32"]
    );
    assert!(insts[1].immediate.is_empty());
    assert!(insts[7].immediate.is_empty());
}

#[test]
fn empty_bytecode_has_no_instructions() {
    assert!(disassemble(&[]).is_empty());
    assert!(format_disassembly(&[]).is_empty());
}

#[test]
fn formats_lines_with_pc_opcode_and_data() {
    let lines = format_disassembly(&[0x61, 0xbe, 0xef, 0x00, 0xfe]);
    assert_eq!(lines, vec!["0000: PUSH2 (0x61) 0xbeef", "0003: STOP (0x00)", "0004: INVALID (0xfe)"]);
}

#[test]
fn formats_wide_program_counters() {
    let mut code = vec![0x5b; 0x10001];
    code.push(0x60);
    code.push(0x0a);
    let lines = format_disassembly(&code);
    assert_eq!(lines.len(), 0x10002);
    assert_eq!(lines[0x10], "0010: JUMPDEST (0x5b)");
    assert_eq!(lines[0x10001], "10001: PUSH1 (0x60) 0x0a");
}
