use bfvm::error::BfError;
use bfvm::lexer::{self, Lexer, TokenLoc};
use bfvm::opcodes::{OpCode, OpCodeType};
use bfvm::parser::{self, Parser};

#[test]
fn parse_error_lbracket() {
    let token_list = Lexer::new("+[[]..").parse();

    let parse_result = Parser::new(token_list).parse();

    assert!(parse_result.is_err(), "parse_result must be Err at 2:1");
}

#[test]
fn parse_error_rbracket() {
    let token_list = Lexer::new("+[..").parse();

    let parse_result = Parser::new(token_list).parse();

    assert!(parse_result.is_err(), "parse_result must be Err at 2:1");
}

#[test]
fn parse_error_nested() {
    // input: [ [] [ [] ]
    // error: ^
    let token_list = Lexer::new("[ [] [ [] ]").parse();
    let parse_result = Parser::new(token_list).parse();

    assert!(
        parse_result.is_err(),
        "parse_result must be Err at 1:1\nparser_result={:#?}",
        parse_result.unwrap()
    );
}

#[test]
fn stacked_opcodes() {
    let token_list = Lexer::new("+++>>>>[[[--]]]").parse();
    let parse_result = Parser::new(token_list).parse();

    assert!(parse_result.is_ok(), "parser_result={:#?}", parse_result);

    let program = parse_result.unwrap();

    let opcodes = vec![
        OpCode::new(OpCodeType::Add, 3),
        OpCode::new(OpCodeType::ShiftRight, 4),
        OpCode::new(OpCodeType::JmpZero, 8),
        OpCode::new(OpCodeType::JmpZero, 7),
        OpCode::new(OpCodeType::JmpZero, 6),
        OpCode::new(OpCodeType::Sub, 2),
        OpCode::new(OpCodeType::JmpNotZero, 4),
        OpCode::new(OpCodeType::JmpNotZero, 3),
        OpCode::new(OpCodeType::JmpNotZero, 2),
    ];

    assert_eq!(program, opcodes);
}

#[test]
fn parse_simple() {}

#[test]
fn parse_nested() {}

#[test]
fn jumps_point_at_partners() {
    let program = parser::parse(lexer::parse("[>[-]<[,.]]+[]")).unwrap();
    for (k, op) in program.iter().enumerate() {
        match op.ty {
            OpCodeType::JmpZero => {
                let partner = program[op.data];
                assert_eq!(partner.ty, OpCodeType::JmpNotZero);
                assert_eq!(partner.data, k);
            }
            OpCodeType::JmpNotZero => {
                let partner = program[op.data];
                assert_eq!(partner.ty, OpCodeType::JmpZero);
                assert_eq!(partner.data, k);
            }
            _ => {}
        }
    }
    assert_eq!(program[0], OpCode::new(OpCodeType::JmpZero, 10));
    assert_eq!(program[13], OpCode::new(OpCodeType::JmpNotZero, 12));
}

#[test]
fn unmatched_close_names_its_location() {
    let r = parser::parse(lexer::parse("+[-]\n ]["));
    assert_eq!(
        r,
        Err(BfError::UnexpectedClose { at: TokenLoc::from_col_line(2, 2) })
    );
}

#[test]
fn unclosed_names_innermost_and_count() {
    let r = parser::parse(lexer::parse("[ [] [ [] ]"));
    assert_eq!(
        r,
        Err(BfError::Unclosed { at: TokenLoc::from_col_line(1, 1), count: 1 })
    );
    let r = parser::parse(lexer::parse("[[-]\n[[+]"));
    assert_eq!(
        r,
        Err(BfError::Unclosed { at: TokenLoc::from_col_line(1, 2), count: 2 })
    );
}

#[test]
fn empty_program() {
    assert_eq!(parser::parse(lexer::parse("")), Ok(vec![]));
}

#[test]
fn brackets_are_never_folded() {
    let program = parser::parse(lexer::parse(",,,[][]")).unwrap();
    assert_eq!(
        program,
        vec![
            OpCode::new(OpCodeType::InputChar, 3),
            OpCode::new(OpCodeType::JmpZero, 2),
            OpCode::new(OpCodeType::JmpNotZero, 1),
            OpCode::new(OpCodeType::JmpZero, 4),
            OpCode::new(OpCodeType::JmpNotZero, 3),
        ]
    );
}

#[test]
fn parser_steps() {
    let mut p = Parser::new(lexer::parse("++."));
    assert_eq!(p.peek_token().map(|(t, _)| t), Some(bfvm::lexer::Token::Plus));
    assert_eq!(p.emit_opcode(), Ok(Some(OpCode::new(OpCodeType::Add, 2))));
    let (tok, loc) = p.next_token().unwrap();
    assert_eq!(tok, bfvm::lexer::Token::Dot);
    assert_eq!(p.emit_error_no_rbracket(&loc), BfError::Unclosed { at: loc, count: 0 });
    assert_eq!(p.next_token(), None);
}

#[test]
fn emit_opcode_one_step_at_a_time() {
    let mut p = Parser::new(lexer::parse("[++]["));
    assert_eq!(p.emit_opcode(), Ok(Some(OpCode::new(OpCodeType::JmpZero, usize::MAX))));
    let mut p = Parser::new(lexer::parse("++]["));
    assert_eq!(p.emit_opcode(), Ok(Some(OpCode::new(OpCodeType::Add, 2))));
    let mut p = Parser::new(lexer::parse(""));
    assert_eq!(p.emit_opcode(), Ok(None));
    let mut p = Parser::new(lexer::parse("]"));
    assert_eq!(
        p.emit_opcode(),
        Err(BfError::UnexpectedClose { at: TokenLoc::from_col_line(1, 1) })
    );
    assert_eq!(
        Parser::new(lexer::parse("[")).parse(),
        Err(BfError::Unclosed { at: TokenLoc::from_col_line(1, 1), count: 1 })
    );
}

#[test]
fn count_run_from_fresh_parser() {
    let mut p = Parser::new(lexer::parse(">>>+"));
    assert_eq!(p.count_current_token(bfvm::lexer::Token::Greater), 4);
    assert_eq!(p.peek_token().map(|(t, _)| t), Some(bfvm::lexer::Token::Plus));
    let mut p = Parser::new(lexer::parse("[["));
    assert_eq!(p.count_current_token(bfvm::lexer::Token::LBracket), 1);
    assert_eq!(p.count_current_token(bfvm::lexer::Token::Minus), 1);
}
