use riscv::lex::{consume, decomment, Lexer, RawLexer, Token, TokenInner};

#[test]
fn consume_empty() {
    assert_eq!(consume("", |_| true), None)
}

#[test]
fn consume_no_matches() {
    assert_eq!(consume("abasalaka", char::is_numeric), None)
}

#[test]
fn consume_all_matches() {
    assert_eq!(consume("iamletters", char::is_alphabetic), Some("iamletters"))
}

#[test]
fn consume_some_matches() {
    assert_eq!(consume("LOUDsoft", char::is_uppercase), Some("LOUD"))
}

#[test]
fn lex_empty() {
    let mut lexer = Lexer::new("");
    assert!(lexer.peek().is_none());
    assert!(lexer.next().is_none());
}

#[test]
fn error_returned_once() {
    let mut lexer = Lexer::new("&%^*");
    assert!(matches!(lexer.next(), Some(Err(_))));
    assert!(lexer.next().is_none())
}

#[test]
fn lex_negative() {
    let mut lexer = Lexer::new("0x80000000");
    assert_eq!(
        lexer.next().unwrap().unwrap(),
        Token::new(TokenInner::Constant(i32::MIN), 1, 1, 11)
    )
}

/// Asking for a specific token (here a minus) does not consume a lexing
/// error: failing calls are idempotent, and the error stays peekable.
#[test]
fn idempotent_peek() {
    let mut lexer = Lexer::new("0x");
    // this will attempt to parse a token, which will cause an error,
    // however, it does not consume the error
    assert!(lexer.minus().is_err());
    // error not consumed
    assert!(lexer.peek().is_some());
    // do it a couple more times for good measure
    for _ in 0..10 {
        assert!(lexer.minus().is_err());
        assert!(lexer.peek().is_some());
    }
}

#[test]
fn lex() {
    let source = "- , : ( )\naddi # and slli :)\n// slashy slash\nchecka:\nloopa:\n69 -42 0xff\n";
    let mut lexer = Lexer::new(source);
    let mut tokens = Vec::new();
    while let Some(token) = lexer.next() {
        tokens.push(token.unwrap());
    }
    assert_eq!(
        tokens,
        [
            Token::new(TokenInner::Minus, 1, 1, 2),
            Token::new(TokenInner::Comma, 1, 3, 4),
            Token::new(TokenInner::Colon, 1, 5, 6),
            Token::new(TokenInner::LeftParen, 1, 7, 8),
            Token::new(TokenInner::RightParen, 1, 9, 10),
            Token::new(TokenInner::Ident("addi".to_string()), 2, 1, 5),
            Token::new(TokenInner::HashComment(" and slli :)".to_string()), 2, 6, 19),
            Token::new(TokenInner::SlashComment(" slashy slash".to_string()), 3, 1, 16),
            Token::new(TokenInner::Ident("checka".to_string()), 4, 1, 7),
            Token::new(TokenInner::Colon, 4, 7, 8),
            Token::new(TokenInner::Ident("loopa".to_string()), 5, 1, 6),
            Token::new(TokenInner::Colon, 5, 6, 7),
            Token::new(TokenInner::Constant(69), 6, 1, 3),
            Token::new(TokenInner::Minus, 6, 4, 5),
            Token::new(TokenInner::Constant(42), 6, 5, 7),
            Token::new(TokenInner::Constant(255), 6, 8, 12),
        ]
    );
}

#[test]
fn gobble_whitespace() {
    let mut lexer = RawLexer::new("");
    lexer.gobble_whitespace();
    assert_eq!(lexer.column(), 1);
    assert_eq!(lexer.line(), 1);

    let mut lexer = RawLexer::new("   ");
    //                          123
    lexer.gobble_whitespace();
    assert_eq!(lexer.column(), 4);
    assert_eq!(lexer.line(), 1);

    let mut lexer = RawLexer::new("\n\n");
    lexer.gobble_whitespace();
    assert_eq!(lexer.column(), 1);
    assert_eq!(lexer.line(), 3);

    let mut lexer = RawLexer::new("   \n  \n    ");
    //                          123  12  1234
    lexer.gobble_whitespace();
    assert_eq!(lexer.column(), 5);
    assert_eq!(lexer.line(), 3);
}

#[test]
fn decomment_empty() {
    assert_eq!(decomment(""), "")
}

#[test]
fn decomment_hashtag() {
    assert_eq!(decomment("#"), "")
}

#[test]
fn decomment_single_line_comment() {
    assert_eq!(decomment("# blah blah"), "")
}

#[test]
fn decomment_end_of_line_comment() {
    assert_eq!(decomment("add x0, x0, x0 # blah blah"), "add x0, x0, x0 ")
}

/// A hexadecimal constant one past `u32::MAX` is a lexing error, while
/// `u32::MAX` itself still lexes (to `-1`).
#[test]
fn lex_hex_overflow() {
    let mut lexer = Lexer::new("0xffffffff");
    assert_eq!(
        lexer.next().unwrap().unwrap(),
        Token::new(TokenInner::Constant(-1), 1, 1, 11)
    );
    let mut lexer = Lexer::new("0x100000000");
    assert!(lexer.next().unwrap().is_err());
}

/// A decimal constant must fit in a signed 32-bit integer.
#[test]
fn lex_decimal_overflow() {
    let mut lexer = Lexer::new("2147483647");
    assert_eq!(
        lexer.next().unwrap().unwrap(),
        Token::new(TokenInner::Constant(i32::MAX), 1, 1, 11)
    );
    let mut lexer = Lexer::new("2147483648");
    assert!(lexer.next().unwrap().is_err());
}
