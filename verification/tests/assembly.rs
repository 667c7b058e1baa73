use asmrs::assemble;
use asmrs::parser::Parser;
use asmrs::resolve::resolve;
use asmrs::encode::encode;
use asmrs::emit::Emitter;
use asmrs::isa::{Instruction, Mnemonic, Operand, Register};

#[test]
fn assembles_simple_program() {
    let (bytes, diags) = assemble("nop\nhlt\n");
    assert!(diags.is_empty());
    assert_eq!(bytes, vec![0x00, 0x01]);
}

#[test]
fn encodes_register_operands() {
    let (bytes, diags) = assemble("mov r1, r0\n");
    assert!(diags.is_empty());
    assert_eq!(bytes, vec![0x02, 0, 1, 0, 0]);
}

#[test]
fn encodes_immediate_as_four_little_endian_bytes() {
    let (bytes, diags) = assemble("mov r1, 0x2A ; comment\n");
    assert!(diags.is_empty());
    assert_eq!(bytes, vec![0x02, 0, 1, 1, 0x2A, 0, 0, 0]);
}

#[test]
fn encodes_address_operands() {
    let (bytes, diags) = assemble("add [r0], 300\n");
    assert!(diags.is_empty());
    assert_eq!(bytes, vec![0x09, 2, 0, 1, 44, 1, 0, 0]);
}

#[test]
fn encodes_unary_and_flag_registers() {
    let (bytes, diags) = assemble("not fl\ncmp pc, 0\n");
    assert!(diags.is_empty());
    assert_eq!(bytes, vec![0x06, 0, 2, 0x10, 0, 3, 1, 0, 0, 0, 0]);
}

#[test]
fn resolves_backward_local_label_to_its_own_offset() {
    let text = "start:\n.loop:\n  jmp .loop\n";
    let (bytes, diags) = assemble(text);
    assert!(diags.is_empty());
    assert_eq!(bytes, vec![0x11, 3, 0, 0, 0, 0]);
}

#[test]
fn resolves_forward_global_label() {
    let (bytes, diags) = assemble("jmp end\nnop\nend:\nhlt\n");
    assert!(diags.is_empty());
    assert_eq!(bytes, vec![0x11, 3, 7, 0, 0, 0, 0x00, 0x01]);
}

#[test]
fn local_label_before_any_global_is_reported() {
    let (bytes, diags) = assemble(".loop:\n  jmp .loop\n");
    assert!(bytes.is_empty());
    let messages: Vec<&str> = diags.iter().map(|d| d.message.as_str()).collect();
    assert!(messages.contains(&"local label without scope"));
    assert!(messages.contains(&"unresolved label"));
}

#[test]
fn same_local_name_in_two_scopes_does_not_collide() {
    let text = "a:\n.x:\nnop\nb:\n.x:\nhlt\n";
    let (bytes, diags) = assemble(text);
    assert!(diags.is_empty());
    assert_eq!(bytes, vec![0x00, 0x01]);
}

#[test]
fn duplicate_label_keeps_first_offset() {
    let text = "nop\na:\nhlt\na:\n";
    let mut parser = Parser::new(text);
    let lines = parser.parse();
    assert!(parser.errors().is_empty());
    let (table, rdiags) = resolve(&lines);
    assert_eq!(rdiags.len(), 1);
    assert_eq!(rdiags[0].message, "duplicate label");
    let offset = table.lookup(&String::new(), &String::from("a"));
    assert_eq!(offset, Some(1));
}

#[test]
fn redeclared_label_gives_exactly_one_diagnostic() {
    let (bytes, diags) = assemble("a:\na:\n");
    assert!(bytes.is_empty());
    assert_eq!(diags.len(), 1);
    assert_eq!(diags[0].message, "duplicate label");
}

#[test]
fn illegal_characters_do_not_hide_later_lines() {
    let (bytes, diags) = assemble("xyz $$$\nmov r1, r0\n");
    assert!(!diags.is_empty());
    assert_eq!(bytes, vec![0x02, 0, 1, 0, 0]);
}

#[test]
fn unknown_mnemonic_is_reported_at_encode_time() {
    let (bytes, diags) = assemble("frob r0\n");
    assert!(bytes.is_empty());
    assert_eq!(diags.len(), 1);
    assert_eq!(diags[0].message, "unknown mnemonic");
}

#[test]
fn wrong_operand_count_is_reported() {
    let (bytes, diags) = assemble("nop r0\nhlt\n");
    assert_eq!(bytes, vec![0x01]);
    assert_eq!(diags.len(), 1);
    assert_eq!(diags[0].message, "wrong operand count");
}

#[test]
fn jump_requires_a_label_operand() {
    let (bytes, diags) = assemble("jmp 4\n");
    assert!(bytes.is_empty());
    assert_eq!(diags.len(), 1);
    assert_eq!(diags[0].message, "expected label operand");
}

#[test]
fn rejected_instruction_is_omitted_and_encoding_continues() {
    let (bytes, diags) = assemble("mov r9, 1\nhlt\n");
    assert_eq!(bytes, vec![0x01]);
    assert_eq!(diags.len(), 1);
    assert_eq!(diags[0].message, "unknown register");
}

#[test]
fn assembling_twice_is_byte_identical() {
    let text = "start:\nmov r0, 7\n.l:\njmp .l\nhlt\n";
    let (bytes1, diags1) = assemble(text);
    let (bytes2, diags2) = assemble(text);
    assert!(diags1.is_empty() && diags2.is_empty());
    assert_eq!(bytes1, bytes2);
}

#[test]
fn emitter_lays_down_same_bytes_for_same_instructions() {
    let instrs = vec![
        Instruction { mnemonic: Mnemonic::Mov, operands: vec![
            Operand::Register(Register::R1),
            Operand::Immidiate(-1),
        ] },
        Instruction { mnemonic: Mnemonic::Jmp, operands: vec![
            Operand::AddressImmidate(6),
        ] },
    ];
    let mut e1 = Emitter::new();
    assert!(e1.emit(&instrs).is_ok());
    let mut e2 = Emitter::new();
    assert!(e2.emit(&instrs).is_ok());
    let b1 = e1.into_bytes();
    let b2 = e2.into_bytes();
    assert_eq!(b1, b2);
    assert_eq!(b1, vec![0x02, 0, 1, 1, 255, 255, 255, 255, 0x11, 3, 6, 0, 0, 0]);
}

#[test]
fn decoding_layout_by_hand_recovers_the_instruction() {
    let (bytes, diags) = assemble("imul r1, 0b100000000\n");
    assert!(diags.is_empty());
    assert_eq!(bytes[0], 0x0c);
    assert_eq!(bytes[1], 0);
    assert_eq!(bytes[2], 1);
    assert_eq!(bytes[3], 1);
    let imm = u32::from_le_bytes([bytes[4], bytes[5], bytes[6], bytes[7]]);
    assert_eq!(imm, 256);
    assert_eq!(bytes.len(), 8);
}

#[test]
fn encode_pass_reuses_the_resolver_sizing() {
    let text = "mov r0, 1\nhere:\njmp here\n";
    let mut parser = Parser::new(text);
    let lines = parser.parse();
    assert!(parser.errors().is_empty());
    let (table, rdiags) = resolve(&lines);
    assert!(rdiags.is_empty());
    assert_eq!(table.lookup(&String::new(), &String::from("here")), Some(8));
    let (instrs, ediags) = encode(&lines, &table);
    assert!(ediags.is_empty());
    assert_eq!(instrs.len(), 2);
    let mut emitter = Emitter::new();
    assert!(emitter.emit(&instrs).is_ok());
    let bytes = emitter.into_bytes();
    assert_eq!(bytes, vec![0x02, 0, 0, 1, 1, 0, 0, 0, 0x11, 3, 8, 0, 0, 0]);
}
