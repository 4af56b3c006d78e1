use ntt_assembler::code::Code;
use ntt_assembler::code::{encode_address, is_numeric_text, parse_address};

#[test]
fn test_comp() {
    assert_eq!(Code::comp("-M"), Some("1110011"));
    assert_eq!(Code::comp("D|M"), Some("1010101"));
    assert_eq!(Code::comp("M|D"), Some("1010101"));
}

#[test]
fn test_dest() {
    assert_eq!(Code::dest("AD"), Some("110"));
    assert_eq!(Code::dest("AMD"), Some("111"));
}

#[test]
fn test_jump() {
    assert_eq!(Code::jump("JEQ"), Some("010"));
    assert_eq!(Code::jump("JGE"), Some("011"));
}

#[test]
fn test_dest_table_complete() {
    assert_eq!(Code::dest("null0"), Some("000"));
    assert_eq!(Code::dest("M"), Some("001"));
    assert_eq!(Code::dest("D"), Some("010"));
    assert_eq!(Code::dest("MD"), Some("011"));
    assert_eq!(Code::dest("A"), Some("100"));
    assert_eq!(Code::dest("AM"), Some("101"));
}

#[test]
fn test_jump_table_complete() {
    assert_eq!(Code::jump("null"), Some("000"));
    assert_eq!(Code::jump("JGT"), Some("001"));
    assert_eq!(Code::jump("JLT"), Some("100"));
    assert_eq!(Code::jump("JNE"), Some("101"));
    assert_eq!(Code::jump("JLE"), Some("110"));
    assert_eq!(Code::jump("JMP"), Some("111"));
}

#[test]
fn test_comp_commutative() {
    assert_eq!(Code::comp("D+A"), Code::comp("A+D"));
    assert_eq!(Code::comp("D+A"), Some("0000010"));
    assert_eq!(Code::comp("D|M"), Code::comp("M|D"));
    assert_ne!(Code::comp("D-A"), Code::comp("A-D"));
    assert_eq!(Code::comp("D-A"), Some("0010011"));
    assert_eq!(Code::comp("A-D"), Some("0000111"));
}

#[test]
fn test_comp_whitespace_normalized() {
    assert_eq!(Code::comp(" D + 1 "), Some("0011111"));
    assert_eq!(Code::comp("M +D"), Some("1000010"));
}

#[test]
fn test_unknown_mnemonics_rejected() {
    assert_eq!(Code::dest("X"), None);
    assert_eq!(Code::dest(""), None);
    assert_eq!(Code::jump("JXX"), None);
    assert_eq!(Code::comp("D*A"), None);
    assert_eq!(Code::comp(""), None);
}

#[test]
fn test_encode_address_bits() {
    assert_eq!(encode_address(0), "0000000000000000");
    assert_eq!(encode_address(5), "0000000000000101");
    assert_eq!(encode_address(16384), "0100000000000000");
    assert_eq!(encode_address(32767), "0111111111111111");
}

#[test]
fn test_numeric_literal_parsing() {
    assert!(is_numeric_text("32767"));
    assert!(!is_numeric_text(""));
    assert!(!is_numeric_text("12a"));
    assert!(!is_numeric_text("foo"));
    assert_eq!(parse_address("5"), Some(5));
    assert_eq!(parse_address("32767"), Some(32767));
    assert_eq!(parse_address("32768"), None);
    assert_eq!(parse_address("999999999999999999999999"), None);
}
