use assembler::compiler::{compile, CompileError};

fn text(s: &str) -> Vec<char> {
    s.chars().collect()
}

fn ok(src: &str) -> Vec<u8> {
    match compile(src) {
        Ok(b) => b,
        Err(_) => panic!("compilation failed for {:?}", src),
    }
}

#[test]
fn immediate_then_output() {
    assert_eq!(ok("LDA 0x05\nOUTA"), vec![0x09, 0x05, 0x1D]);
}

#[test]
fn backward_label_reference() {
    assert_eq!(ok("LOOP:\nJMP &LOOP"), vec![0x02, 0x00]);
}

#[test]
fn variable_load_and_store() {
    assert_eq!(ok("VAR X\nLDA &X\nSTA &X"), vec![0x0A, 0x80, 0x0F, 0x80]);
}

#[test]
fn operand_on_operandless_instruction_is_rejected() {
    match compile("HLT 0x01") {
        Err(CompileError::InvalidInstruction(t)) => assert_eq!(t, text("HLT")),
        _ => panic!("expected an invalid instruction"),
    }
}

#[test]
fn variables_count_up_from_128() {
    assert_eq!(ok("VAR X ADD VAR Y LDA &X LDB &Y"), vec![0x13, 0x0A, 0x80, 0x0D, 0x81]);
}

#[test]
fn forward_label_reference() {
    assert_eq!(ok("JMP &END ADD LDA 0x01 END: HLT JMP &END"), vec![0x02, 0x05, 0x13, 0x09, 0x01, 0x01, 0x02, 0x05]);
}

#[test]
fn comment_region_is_silent() {
    assert_eq!(ok("ADD ; LDA 0x05 L: VAR Z ; SUB"), vec![0x13, 0x14]);
}

#[test]
fn label_inside_comment_is_not_defined() {
    match compile("; L: ; JMP &L") {
        Err(CompileError::InvalidSymbol(n)) => assert_eq!(n, text("L")),
        _ => panic!("expected an undefined symbol"),
    }
}

#[test]
fn operandless_instructions_take_one_byte_each() {
    let src = "ADD SUB NEG AND OR XOR NOT SHL SHR CMP OUTA OUTB OUTC OUTD HLT";
    let out = ok(src);
    assert_eq!(out.len(), 15);
    assert_eq!(out, (0x13u8..=0x20).chain(std::iter::once(0x01)).collect::<Vec<u8>>());
}

#[test]
fn dereference_operand_resolves_like_address() {
    assert_eq!(ok("VAR P LDA &&P LDB &&P STA &&P STB &&P"), vec![0x0B, 0x80, 0x0E, 0x80, 0x10, 0x80, 0x12, 0x80]);
}

#[test]
fn hex_immediates_in_either_case() {
    assert_eq!(ok("LDA 0xff LDB 0xA0 LDA 0x7"), vec![0x09, 0xFF, 0x0C, 0xA0, 0x09, 0x07]);
}

#[test]
fn empty_source_gives_empty_image() {
    assert_eq!(ok(""), Vec::<u8>::new());
    assert_eq!(ok(" \n\t "), Vec::<u8>::new());
}

#[test]
fn malformed_immediate_is_rejected() {
    match compile("LDA 0xZZ") {
        Err(CompileError::InvalidArgument(t)) => assert_eq!(t, text("0xZZ")),
        _ => panic!("expected an invalid argument"),
    }
    assert!(matches!(compile("LDA 0x100"), Err(CompileError::InvalidArgument(_))));
    assert!(matches!(compile("LDA 0x"), Err(CompileError::InvalidArgument(_))));
}

#[test]
fn unknown_mnemonic_is_rejected() {
    match compile("FOO") {
        Err(CompileError::InvalidInstruction(t)) => assert_eq!(t, text("FOO")),
        _ => panic!("expected an invalid instruction"),
    }
}

#[test]
fn trailing_var_is_rejected() {
    assert!(matches!(compile("ADD VAR"), Err(CompileError::InvalidVariable)));
}

#[test]
fn undefined_symbol_is_rejected() {
    match compile("JMP &NOWHERE") {
        Err(CompileError::InvalidSymbol(n)) => assert_eq!(n, text("NOWHERE")),
        _ => panic!("expected an undefined symbol"),
    }
}

#[test]
fn redefinition_keeps_latest_address() {
    assert_eq!(ok("A: ADD A: JMP &A"), vec![0x13, 0x02, 0x01]);
}

#[test]
fn operand_mnemonic_without_operand_takes_first_row() {
    assert_eq!(ok("JMP ADD"), vec![0x02, 0x13]);
}

#[test]
fn label_name_drops_colons_and_ampersands() {
    assert_eq!(ok("ADD START:: JMP &START&"), vec![0x13, 0x02, 0x01]);
}

#[test]
fn unicode_whitespace_separates_tokens() {
    assert_eq!(ok("ADD\u{3000}SUB\u{a0}NEG"), vec![0x13, 0x14, 0x15]);
}
