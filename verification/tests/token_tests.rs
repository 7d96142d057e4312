use rinonguci_script::decimal::{digit_to_char, i64_to_string, push_natural, usize_to_string};
use rinonguci_script::token::{Precedence, Token, TokenKind};

#[test]
fn precedence_levels_are_ordered() {
    let levels = [
        Precedence::LOWEST,
        Precedence::EQUALS,
        Precedence::LESSGREATER,
        Precedence::SUM,
        Precedence::PRODUCT,
        Precedence::PREFIX,
        Precedence::CALL,
    ];
    for (i, level) in levels.iter().enumerate() {
        assert_eq!(level.to_int(), i as i32 + 1);
        assert_eq!(Precedence::from_int(i as i32 + 1), *level);
    }
    for pair in levels.windows(2) {
        assert!(pair[0] < pair[1]);
        assert!(pair[0].to_int() < pair[1].to_int());
    }
}

#[test]
fn precedence_from_other_numbers_is_lowest() {
    assert_eq!(Precedence::from_int(0), Precedence::LOWEST);
    assert_eq!(Precedence::from_int(8), Precedence::LOWEST);
    assert_eq!(Precedence::from_int(-3), Precedence::LOWEST);
    assert_eq!(Precedence::from_int(i32::MAX), Precedence::LOWEST);
}

#[test]
fn precedence_sum_moves_up_and_down() {
    assert_eq!(Precedence::LOWEST.sum(1), Precedence::EQUALS);
    assert_eq!(Precedence::SUM.sum(1), Precedence::PRODUCT);
    assert_eq!(Precedence::SUM.sum(-1), Precedence::LESSGREATER);
    assert_eq!(Precedence::CALL.sum(0), Precedence::CALL);
    assert_eq!(Precedence::CALL.sum(1), Precedence::LOWEST);
    assert_eq!(Precedence::LOWEST.sum(-1), Precedence::LOWEST);
}

#[test]
fn token_printable_forms() {
    let cases = vec![
        (Token::EOF, "EOF"),
        (Token::ILLEGAL('@'), "@"),
        (Token::IDENT("foo".to_string()), "foo"),
        (Token::INT(42), "42"),
        (Token::INT(-7), "-7"),
        (Token::STRING("foo bar".to_string()), "foo bar"),
        (Token::ASSIGN, "="),
        (Token::PLUS, "+"),
        (Token::MINUS, "-"),
        (Token::BANG, "!"),
        (Token::ASTERISK, "*"),
        (Token::SLASH, "/"),
        (Token::GT, ">"),
        (Token::LT, "<"),
        (Token::EQ, "=="),
        (Token::NOT_EQ, "!="),
        (Token::COMMA, ","),
        (Token::SEMICOLON, ";"),
        (Token::LPAREN, "("),
        (Token::RPAREN, ")"),
        (Token::LBRACE, "{"),
        (Token::RBRACE, "}"),
        (Token::FUNCTION, "fn"),
        (Token::LET, "let"),
        (Token::TRUE, "true"),
        (Token::FALSE, "false"),
        (Token::IF, "if"),
        (Token::ELSE, "else"),
        (Token::RETURN, "return"),
    ];
    for (token, expected) in cases {
        assert_eq!(token.to_string(), expected);
    }
}

#[test]
fn token_kind_ignores_the_payload() {
    assert!(Token::IDENT("a".to_string()).is(Token::IDENT(String::new())));
    assert!(Token::INT(5).is(Token::INT(0)));
    assert!(Token::STRING("x".to_string()).is(Token::STRING(String::new())));
    assert!(Token::ILLEGAL('a').is(Token::ILLEGAL('b')));
    assert!(!Token::IDENT("a".to_string()).is(Token::STRING("a".to_string())));
    assert!(!Token::PLUS.is(Token::MINUS));
    assert_eq!(Token::IDENT("a".to_string()).to_original_type(), TokenKind::IDENT);
    assert_eq!(Token::INT(3).to_original_type(), TokenKind::INT);
    assert_eq!(Token::EOF.to_original_type(), TokenKind::EOF);
    assert_eq!(Token::NOT_EQ.to_original_type(), TokenKind::NOT_EQ);
}

#[test]
fn token_precedences() {
    assert_eq!(Token::EQ.to_precedence(), Precedence::EQUALS);
    assert_eq!(Token::NOT_EQ.to_precedence(), Precedence::EQUALS);
    assert_eq!(Token::LT.to_precedence(), Precedence::LESSGREATER);
    assert_eq!(Token::GT.to_precedence(), Precedence::LESSGREATER);
    assert_eq!(Token::PLUS.to_precedence(), Precedence::SUM);
    assert_eq!(Token::MINUS.to_precedence(), Precedence::SUM);
    assert_eq!(Token::SLASH.to_precedence(), Precedence::PRODUCT);
    assert_eq!(Token::ASTERISK.to_precedence(), Precedence::PRODUCT);
    assert_eq!(Token::LPAREN.to_precedence(), Precedence::CALL);
    assert_eq!(Token::BANG.to_precedence(), Precedence::LOWEST);
    assert_eq!(Token::SEMICOLON.to_precedence(), Precedence::LOWEST);
    assert_eq!(Token::IDENT("a".to_string()).to_precedence(), Precedence::LOWEST);
    assert_eq!(Token::EOF.to_precedence(), Precedence::LOWEST);
}

#[test]
fn token_clone_keeps_the_payload() {
    let tokens = vec![
        Token::IDENT("name".to_string()),
        Token::STRING("text".to_string()),
        Token::INT(12),
        Token::ILLEGAL('?'),
        Token::RETURN,
    ];
    for token in tokens {
        assert_eq!(token.clone(), token);
    }
}

#[test]
fn token_as_int() {
    assert_eq!(Token::INT(9).as_int(), Some(9));
    assert_eq!(Token::IDENT("9".to_string()).as_int(), None);
    assert_eq!(Token::EOF.as_int(), None);
}

#[test]
fn decimal_notation_of_integers() {
    assert_eq!(i64_to_string(0), "0");
    assert_eq!(i64_to_string(7), "7");
    assert_eq!(i64_to_string(10), "10");
    assert_eq!(i64_to_string(-1), "-1");
    assert_eq!(i64_to_string(838383), "838383");
    assert_eq!(i64_to_string(i64::MAX), "9223372036854775807");
    assert_eq!(i64_to_string(i64::MIN), "-9223372036854775808");
    assert_eq!(usize_to_string(0), "0");
    assert_eq!(usize_to_string(12345), "12345");
}

#[test]
fn decimal_notation_is_appended() {
    let mut out = String::from("n=");
    push_natural(&mut out, 405);
    assert_eq!(out, "n=405");
    push_natural(&mut out, 0);
    assert_eq!(out, "n=4050");
    for d in 0..10u8 {
        assert_eq!(digit_to_char(d), (b'0' + d) as char);
    }
}
