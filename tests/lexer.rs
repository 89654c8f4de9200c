use bfvm::lexer::{self, Lexer, Token, TokenLoc};

#[test]
fn simple_text_one_line() {
    let input_string = "-fa+[d[df<>!!()*";
    let tokens = lexer::parse(input_string);

    let expected = vec![
        (Token::Minus, TokenLoc::from_col_line(1, 1)),
        (Token::Plus, TokenLoc::from_col_line(4, 1)),
        (Token::LBracket, TokenLoc::from_col_line(5, 1)),
        (Token::LBracket, TokenLoc::from_col_line(7, 1)),
        (Token::Less, TokenLoc::from_col_line(10, 1)),
        (Token::Greater, TokenLoc::from_col_line(11, 1)),
    ];

    assert_eq!(tokens, expected);
}

#[test]
fn simple_text_multi_lines() {
    let input_string = "\n-fa+[d\n[\ndf<>!\n!()*";
    let tokens = lexer::parse(input_string);

    let expected = vec![
        (Token::Minus, TokenLoc::from_col_line(1, 2)),
        (Token::Plus, TokenLoc::from_col_line(4, 2)),
        (Token::LBracket, TokenLoc::from_col_line(5, 2)),
        (Token::LBracket, TokenLoc::from_col_line(1, 3)),
        (Token::Less, TokenLoc::from_col_line(3, 4)),
        (Token::Greater, TokenLoc::from_col_line(4, 4)),
    ];

    assert_eq!(tokens, expected);
}

#[test]
fn other_bytes_are_ignored() {
    let text = "a+b-c<d>e[f]g,h.i\n j";
    let filtered: String = text.chars().filter(|c| "+-<>[],.".contains(*c)).collect();
    let all: Vec<Token> = lexer::parse(text).into_iter().map(|(t, _)| t).collect();
    let only: Vec<Token> = lexer::parse(&filtered).into_iter().map(|(t, _)| t).collect();
    assert_eq!(all, only);
    assert_eq!(
        all,
        vec![
            Token::Plus,
            Token::Minus,
            Token::Less,
            Token::Greater,
            Token::LBracket,
            Token::RBracket,
            Token::Comma,
            Token::Dot,
        ]
    );
}

#[test]
fn empty_text_has_no_tokens() {
    assert!(lexer::parse("").is_empty());
    assert!(lexer::parse("no symbols here\n").is_empty());
}

#[test]
fn token_from_byte() {
    assert_eq!(Token::from_u8(b'+'), Some(Token::Plus));
    assert_eq!(Token::from_u8(b']'), Some(Token::RBracket));
    assert_eq!(Token::from_u8(b'.'), Some(Token::Dot));
    assert_eq!(Token::from_u8(b'x'), None);
    assert!(Token::LBracket.is_loop_token());
    assert!(!Token::Comma.is_loop_token());
    assert!(Token::Dot.is_groupable());
    assert!(!Token::RBracket.is_groupable());
}

#[test]
fn location_moves_by_byte() {
    let mut loc = TokenLoc::from_col_line(3, 2);
    loc.update_location(b'a');
    assert_eq!((loc.line(), loc.col()), (2, 4));
    loc.update_location(b'\n');
    assert_eq!((loc.line(), loc.col()), (3, 0));
}

#[test]
fn lexer_from_bytes_starts_at_first_line() {
    let lexer = Lexer::from_bytes(b"+\n+");
    assert_eq!(lexer.get_location(), TokenLoc::from_col_line(0, 1));
    let tokens = lexer.parse();
    assert_eq!(
        tokens,
        vec![
            (Token::Plus, TokenLoc::from_col_line(1, 1)),
            (Token::Plus, TokenLoc::from_col_line(1, 2)),
        ]
    );
}
