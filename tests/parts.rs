use assembler::compiler::{encode, parse, Operation, OperationArgument};
use assembler::isa::{instruction_table, Instruction, InstructionArgument};
use assembler::symbols::{Label, SymbolTable};
use assembler::text::{parse_hex_byte, split_whitespace, trim_char};

fn text(s: &str) -> Vec<char> {
    s.chars().collect()
}

#[test]
fn split_drops_empty_pieces() {
    let toks = split_whitespace(&text("  LDA\t0x05 \n\nOUTA  "));
    assert_eq!(toks, vec![text("LDA"), text("0x05"), text("OUTA")]);
}

#[test]
fn trim_removes_both_ends() {
    assert_eq!(trim_char(&text("&&X&"), '&'), text("X"));
    assert_eq!(trim_char(&text(":::"), ':'), text(""));
}

#[test]
fn hex_byte_values() {
    assert_eq!(parse_hex_byte(&text("05")), Some(5));
    assert_eq!(parse_hex_byte(&text("fF")), Some(255));
    assert_eq!(parse_hex_byte(&text("000a")), Some(10));
    assert_eq!(parse_hex_byte(&text("1g")), None);
    assert_eq!(parse_hex_byte(&text("")), None);
    assert_eq!(parse_hex_byte(&text("100")), None);
}

#[test]
fn symbol_table_last_definition_wins() {
    let mut t = SymbolTable::new();
    t.insert(text("A"), Label::new(3));
    t.insert(text("B"), Label::new(7));
    t.insert(text("A"), Label::new(9));
    assert_eq!(t.get(&text("A")), Some(Label::new(9)));
    assert_eq!(t.get(&text("B")), Some(Label::new(7)));
    assert_eq!(t.get(&text("C")), None);
}

#[test]
fn table_has_every_opcode_once() {
    let table = instruction_table();
    assert_eq!(table.len(), 32);
    for (i, e) in table.iter().enumerate() {
        assert_eq!(e.opcode as usize, i + 1);
    }
}

#[test]
fn encode_resolves_symbols() {
    let lda = Instruction::new(0x0a, "LDA", InstructionArgument::Address);
    let hlt = Instruction::new(0x01, "HLT", InstructionArgument::Absent);
    let ops = vec![
        Operation::new(&lda, OperationArgument::Address(text("X"))),
        Operation::new(&hlt, OperationArgument::Absent),
    ];
    let mut syms = SymbolTable::new();
    syms.insert(text("X"), Label::new(0x81));
    assert_eq!(encode(&ops, &syms).ok(), Some(vec![0x0a, 0x81, 0x01]));
}

#[test]
fn parse_assigns_addresses() {
    let table = instruction_table();
    let toks = split_whitespace(&text("VAR X L: LDA 0x01 M: VAR Y"));
    let (ops, syms) = match parse(&table, &toks) {
        Ok(r) => r,
        Err(_) => panic!("parse failed"),
    };
    assert_eq!(ops.len(), 1);
    assert_eq!(ops[0].instruction.opcode, 0x09);
    assert_eq!(syms.get(&text("X")), Some(Label::new(128)));
    assert_eq!(syms.get(&text("Y")), Some(Label::new(129)));
    assert_eq!(syms.get(&text("L")), Some(Label::new(0)));
    assert_eq!(syms.get(&text("M")), Some(Label::new(2)));
}
