use ntt_assembler::driver::{assemble, pass1};
use ntt_assembler::errors::{AsmError, AsmErrorKind};
use ntt_assembler::parser::{classify, encode_compute, Command};
use ntt_assembler::parse_input_file;

fn lines(texts: &[&str]) -> Vec<String> {
    texts.iter().map(|t| t.to_string()).collect()
}

#[test]
fn test_label_only_program() {
    let program = lines(&["(LOOP)", "@LOOP", "0;JMP"]);

    let table = pass1(&program).unwrap();
    assert!(table.contains("LOOP"));
    assert_eq!(table.get_address("LOOP"), 0);

    let out = assemble(&program).unwrap();
    assert_eq!(out, vec!["0000000000000000", "1110101010000111"]);
}

#[test]
fn test_variable_allocation() {
    let out = assemble(&lines(&["@foo", "@bar", "@foo"])).unwrap();
    assert_eq!(
        out,
        vec!["0000000000010000", "0000000000010001", "0000000000010000"]
    );
}

#[test]
fn test_numeric_literal_bypass() {
    let out = assemble(&lines(&["@5", "@x"])).unwrap();
    // The literal is its own address and is never entered into the symbol
    // table, so the first variable still receives address 16.
    assert_eq!(out, vec!["0000000000000101", "0000000000010000"]);
}

#[test]
fn test_full_compute_fields() {
    let out = assemble(&lines(&["D=D+1;JGT"])).unwrap();
    assert_eq!(out, vec!["1110011111010001"]);
}

#[test]
fn test_predefined_resolution() {
    let out = assemble(&lines(&["@SCREEN", "@KBD", "@R3"])).unwrap();
    assert_eq!(
        out,
        vec!["0100000000000000", "0110000000000000", "0000000000000011"]
    );
}

#[test]
fn test_comments_and_blank_lines_elided() {
    let out = assemble(&lines(&[
        "// leading comment",
        "",
        "   ",
        "  @2 // inline comment",
        "(L) // a label",
        "@L",
    ]))
    .unwrap();
    assert_eq!(out, vec!["0000000000000010", "0000000000000001"]);
}

#[test]
fn test_forward_label_reference() {
    let out = assemble(&lines(&["@END", "0;JMP", "(END)", "@END"])).unwrap();
    assert_eq!(
        out,
        vec!["0000000000000010", "1110101010000111", "0000000000000010"]
    );
}

#[test]
fn test_classification_error() {
    assert_eq!(
        assemble(&lines(&["@5", "@"])),
        Err(AsmError {
            kind: AsmErrorKind::Classification,
            line: 2
        })
    );
    assert_eq!(
        assemble(&lines(&["("])),
        Err(AsmError {
            kind: AsmErrorKind::Classification,
            line: 1
        })
    );
    assert_eq!(
        assemble(&lines(&["()"])),
        Err(AsmError {
            kind: AsmErrorKind::Classification,
            line: 1
        })
    );
}

#[test]
fn test_field_syntax_error() {
    assert_eq!(
        assemble(&lines(&["D="])),
        Err(AsmError {
            kind: AsmErrorKind::FieldSyntax,
            line: 1
        })
    );
    assert_eq!(
        assemble(&lines(&["=D+1"])),
        Err(AsmError {
            kind: AsmErrorKind::FieldSyntax,
            line: 1
        })
    );
    assert_eq!(
        assemble(&lines(&["D+1;"])),
        Err(AsmError {
            kind: AsmErrorKind::FieldSyntax,
            line: 1
        })
    );
}

#[test]
fn test_unknown_mnemonic_error() {
    assert_eq!(
        assemble(&lines(&["@1", "D=B"])),
        Err(AsmError {
            kind: AsmErrorKind::UnknownMnemonic,
            line: 2
        })
    );
    assert_eq!(
        assemble(&lines(&["D=D+1;JXX"])),
        Err(AsmError {
            kind: AsmErrorKind::UnknownMnemonic,
            line: 1
        })
    );
}

#[test]
fn test_address_range_error() {
    assert_eq!(
        assemble(&lines(&["@32768"])),
        Err(AsmError {
            kind: AsmErrorKind::AddressRange,
            line: 1
        })
    );
    assert_eq!(assemble(&lines(&["@32767"])).unwrap(), vec!["0111111111111111"]);
}

#[test]
fn test_classify_commands() {
    match classify("  @sum // target").unwrap() {
        Command::Address(s) => assert_eq!(s, "sum"),
        _ => panic!("expected an address command"),
    }
    match classify("(LOOP)").unwrap() {
        Command::Label(s) => assert_eq!(s, "LOOP"),
        _ => panic!("expected a label command"),
    }
    match classify("D=M").unwrap() {
        Command::Compute(s) => assert_eq!(s, "D=M"),
        _ => panic!("expected a compute command"),
    }
    match classify("// only a comment").unwrap() {
        Command::Ignore => {}
        _ => panic!("expected an ignorable line"),
    }
}

#[test]
fn test_encode_compute_forms() {
    assert_eq!(encode_compute("0;JMP").unwrap(), "1110101010000111");
    assert_eq!(encode_compute("M=1").unwrap(), "1110111111001000");
    assert_eq!(encode_compute("AMD=D|M;JNE").unwrap(), "1111010101111101");
}

#[test]
fn test_parse_input_file() {
    let args = vec!["assembler".to_string(), "program.asm".to_string()];
    assert_eq!(parse_input_file(&args), Ok("program.asm".to_string()));
    let too_few = vec!["assembler".to_string()];
    assert_eq!(parse_input_file(&too_few), Err("not enough arguments"));
}
