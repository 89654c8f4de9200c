use bfvm::error::BfError;
use bfvm::lexer::{self, TokenLoc};
use bfvm::opcodes::{OpCode, OpCodeType};
use bfvm::parser;

#[test]
fn opcode_listing_line() {
    assert_eq!(
        OpCode::new(OpCodeType::Add, 3).to_string(),
        "Add            3\n"
    );
    assert_eq!(
        OpCode::new(OpCodeType::JmpNotZero, 1024).to_string(),
        "JmpNotZero     1024\n"
    );
    assert_eq!(OpCodeType::PrintChar.name(), "PrintChar");
}

#[test]
fn location_text() {
    assert_eq!(TokenLoc::from_col_line(0, 1).to_string(), "1:0");
    assert_eq!(TokenLoc::from_col_line(17, 305).to_string(), "305:17");
}

#[test]
fn error_messages() {
    let e = parser::parse(lexer::parse("\n-]")).unwrap_err();
    assert_eq!(e.message(), "unexpected closing delimiter ']' at 2:2");
    let e = parser::parse(lexer::parse("[[")).unwrap_err();
    assert_eq!(
        e.message(),
        "unclosed delimiter '[' at 1:2. There are 2 unclosed delimiters."
    );
    let e = parser::parse(lexer::parse("+[")).unwrap_err();
    assert_eq!(e.message(), "unclosed delimiter '[' at 1:2.");
    assert_eq!(
        BfError::TapeOverflow { tape_len: 30000, overflow: 5 }.message(),
        "memory overflowed: 30000 items => 5 items"
    );
    assert_eq!(
        BfError::OperandOutOfRange { data: 255 }.message(),
        "operand out of range: Add and Sub need a count below 255, data=255"
    );
}
