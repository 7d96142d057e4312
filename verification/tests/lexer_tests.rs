use rinonguci_script::lexer::{is_letter, Lexer};
use rinonguci_script::token::Token;

fn tokens_of(input: &str) -> Vec<Token> {
    let mut l = Lexer::new(input.to_string());
    let mut tokens = Vec::new();
    loop {
        let token = l.next_token();
        let done = token == Token::EOF;
        tokens.push(token);
        if done {
            return tokens;
        }
    }
}

fn common_prefix() -> Vec<Token> {
    vec![
        Token::LET,
        Token::IDENT("five".to_string()),
        Token::ASSIGN,
        Token::INT(5),
        Token::SEMICOLON,
        Token::LET,
        Token::IDENT("ten".to_string()),
        Token::ASSIGN,
        Token::INT(10),
        Token::SEMICOLON,
        Token::LET,
        Token::IDENT("add".to_string()),
        Token::ASSIGN,
        Token::FUNCTION,
        Token::LPAREN,
        Token::IDENT("x".to_string()),
        Token::COMMA,
        Token::IDENT("y".to_string()),
        Token::RPAREN,
        Token::LBRACE,
        Token::IDENT("x".to_string()),
        Token::PLUS,
        Token::IDENT("y".to_string()),
        Token::SEMICOLON,
        Token::RBRACE,
        Token::SEMICOLON,
        Token::LET,
        Token::IDENT("result".to_string()),
        Token::ASSIGN,
        Token::IDENT("add".to_string()),
        Token::LPAREN,
        Token::IDENT("five".to_string()),
        Token::COMMA,
        Token::IDENT("ten".to_string()),
        Token::RPAREN,
        Token::SEMICOLON,
        Token::BANG,
        Token::MINUS,
        Token::SLASH,
        Token::ASTERISK,
        Token::INT(6),
        Token::SEMICOLON,
        Token::INT(7),
        Token::LT,
        Token::INT(10),
        Token::GT,
        Token::INT(8),
        Token::SEMICOLON,
        Token::IF,
        Token::LPAREN,
        Token::INT(9),
        Token::LT,
        Token::INT(11),
        Token::RPAREN,
        Token::LBRACE,
        Token::RETURN,
        Token::TRUE,
        Token::SEMICOLON,
        Token::RBRACE,
        Token::ELSE,
        Token::LBRACE,
        Token::RETURN,
        Token::FALSE,
        Token::SEMICOLON,
        Token::RBRACE,
        Token::INT(13),
        Token::EQ,
        Token::INT(13),
        Token::SEMICOLON,
        Token::INT(14),
        Token::NOT_EQ,
        Token::INT(5),
        Token::SEMICOLON,
    ]
}

#[test]
fn lexer_test() {
    let input = r#"
          let five = 5;
          let ten = 10;
          let add = fn(x, y) {
            x + y;
          };
          let result = add(five, ten);
          !-/*6;
          7 < 10 > 8;

          if (9 < 11) {
            return true;
          } else {
            return false;
          }

          13 == 13;
          14 != 5;
        "#;

    let mut tokens = common_prefix();
    tokens.push(Token::EOF);

    let mut l = Lexer::new(input.to_string());

    for token in tokens {
        assert_eq!(l.next_token(), token);
    }
}

#[test]
fn test_test() {
    let input = r#"
          let five = 5;
          let ten = 10;
          let add = fn(x, y) {
            x + y;
          };
          let result = add(five, ten);
          !-/*6;
          7 < 10 > 8;

          if (9 < 11) {
            return true;
          } else {
            return false;
          }

          13 == 13;
          14 != 5;
          "foobar"
          "foo bar"
        "#;

    let mut tokens = common_prefix();
    tokens.push(Token::STRING("foobar".into()));
    tokens.push(Token::STRING("foo bar".into()));
    tokens.push(Token::EOF);

    let mut l = Lexer::new(input.to_string());

    for token in tokens {
        assert_eq!(l.next_token(), token);
    }
}

#[test]
fn let_statement_tokens() {
    assert_eq!(
        tokens_of("let five = 5;"),
        vec![
            Token::LET,
            Token::IDENT("five".to_string()),
            Token::ASSIGN,
            Token::INT(5),
            Token::SEMICOLON,
            Token::EOF,
        ]
    );
}

#[test]
fn two_character_operators_are_single_tokens() {
    assert_eq!(
        tokens_of("10 == 10; 10 != 9;"),
        vec![
            Token::INT(10),
            Token::EQ,
            Token::INT(10),
            Token::SEMICOLON,
            Token::INT(10),
            Token::NOT_EQ,
            Token::INT(9),
            Token::SEMICOLON,
            Token::EOF,
        ]
    );
    assert_eq!(
        tokens_of("= = ! ="),
        vec![Token::ASSIGN, Token::ASSIGN, Token::BANG, Token::ASSIGN, Token::EOF]
    );
    assert_eq!(tokens_of("==="), vec![Token::EQ, Token::ASSIGN, Token::EOF]);
}

#[test]
fn string_literal_is_one_token() {
    assert_eq!(
        tokens_of("\"foo bar\""),
        vec![Token::STRING("foo bar".to_string()), Token::EOF]
    );
    assert_eq!(tokens_of("\"\""), vec![Token::STRING(String::new()), Token::EOF]);
}

#[test]
fn unterminated_string_ends_with_the_text() {
    assert_eq!(
        tokens_of("\"abc"),
        vec![Token::STRING("abc".to_string()), Token::EOF]
    );
}

#[test]
fn string_keeps_characters_beyond_ascii() {
    assert_eq!(
        tokens_of("\"h\u{e9}llo \u{4e16}\" x"),
        vec![
            Token::STRING("h\u{e9}llo \u{4e16}".to_string()),
            Token::IDENT("x".to_string()),
            Token::EOF,
        ]
    );
}

#[test]
fn end_of_input_repeats() {
    let mut l = Lexer::new("a".to_string());
    assert_eq!(l.next_token(), Token::IDENT("a".to_string()));
    assert_eq!(l.next_token(), Token::EOF);
    assert_eq!(l.next_token(), Token::EOF);
    assert_eq!(l.next_token(), Token::EOF);
    let mut empty = Lexer::new(String::new());
    assert_eq!(empty.next_token(), Token::EOF);
    assert_eq!(empty.next_token(), Token::EOF);
}

#[test]
fn other_characters_are_illegal() {
    assert_eq!(
        tokens_of("a @ b # \u{e9}"),
        vec![
            Token::IDENT("a".to_string()),
            Token::ILLEGAL('@'),
            Token::IDENT("b".to_string()),
            Token::ILLEGAL('#'),
            Token::ILLEGAL('\u{e9}'),
            Token::EOF,
        ]
    );
}

#[test]
fn identifiers_hold_no_digits() {
    assert_eq!(
        tokens_of("foo_bar1 _x"),
        vec![
            Token::IDENT("foo_bar".to_string()),
            Token::INT(1),
            Token::IDENT("_x".to_string()),
            Token::EOF,
        ]
    );
}

#[test]
fn keywords_are_whole_words() {
    assert_eq!(
        tokens_of("fn let true false if else return fnx lets iff"),
        vec![
            Token::FUNCTION,
            Token::LET,
            Token::TRUE,
            Token::FALSE,
            Token::IF,
            Token::ELSE,
            Token::RETURN,
            Token::IDENT("fnx".to_string()),
            Token::IDENT("lets".to_string()),
            Token::IDENT("iff".to_string()),
            Token::EOF,
        ]
    );
}

#[test]
fn integers_up_to_the_largest() {
    assert_eq!(
        tokens_of("0 007 9223372036854775807"),
        vec![Token::INT(0), Token::INT(7), Token::INT(9223372036854775807), Token::EOF]
    );
}

#[test]
fn integer_too_large_is_illegal() {
    assert_eq!(
        tokens_of("9223372036854775808 1"),
        vec![Token::ILLEGAL('9'), Token::INT(1), Token::EOF]
    );
    assert_eq!(
        tokens_of("123456789012345678901234567890;"),
        vec![Token::ILLEGAL('1'), Token::SEMICOLON, Token::EOF]
    );
}

#[test]
fn whitespace_separates_tokens() {
    assert_eq!(
        tokens_of(" \t\r\n1\t+\n2 \r"),
        vec![Token::INT(1), Token::PLUS, Token::INT(2), Token::EOF]
    );
}

#[test]
fn peek_char_looks_one_ahead() {
    let l = Lexer::new("ab".to_string());
    assert_eq!(l.peek_char(), 'b');
    let mut l = Lexer::new("a".to_string());
    assert_eq!(l.peek_char(), '\0');
    l.next_token();
    assert_eq!(l.peek_char(), '\0');
    assert_eq!(Lexer::new(String::new()).peek_char(), '\0');
}

#[test]
fn letters_are_ascii_letters_and_underscore() {
    assert!(is_letter('a'));
    assert!(is_letter('z'));
    assert!(is_letter('A'));
    assert!(is_letter('Z'));
    assert!(is_letter('_'));
    assert!(!is_letter('0'));
    assert!(!is_letter(' '));
    assert!(!is_letter('\u{e9}'));
    assert!(!is_letter('['));
    assert!(!is_letter('`'));
}

#[test]
fn tokens_give_the_source_back() {
    let source = "let add = fn(x, y) { x + y; }; add(1, 2) != 3 == true";
    let mut rebuilt = String::new();
    for token in tokens_of(source) {
        if token != Token::EOF {
            if !rebuilt.is_empty() {
                rebuilt.push(' ');
            }
            rebuilt.push_str(&token.to_string());
        }
    }
    let squeeze = |s: &str| s.chars().filter(|c| !c.is_whitespace()).collect::<String>();
    assert_eq!(squeeze(&rebuilt), squeeze(source));
    assert_eq!(tokens_of(&rebuilt), tokens_of(source));
}

fn written(tokens: &[Token]) -> String {
    let mut text = String::new();
    for token in tokens {
        if *token == Token::EOF {
            continue;
        }
        if !text.is_empty() {
            text.push(' ');
        }
        match token {
            Token::STRING(body) => {
                text.push('"');
                text.push_str(body);
                text.push('"');
            }
            other => text.push_str(&other.to_string()),
        }
    }
    text
}

#[test]
fn written_tokens_are_read_back() {
    let sources = vec![
        "let add = fn(x, y) { x + y; }; add(1, 2) != 3 == true",
        "if (a<b) {return \"foo bar\";} else {!-/*5}",
        "\"\"\"a\"x\"b\"",
        "a@b#c 12abc _x__ ===!==!",
        "  \t\n ",
        "",
    ];
    for source in sources {
        let tokens = tokens_of(source);
        let text = written(&tokens);
        assert_eq!(tokens_of(&text), tokens);
    }
    assert_eq!(
        written(&tokens_of("if (a<b) {return \"foo bar\";}")),
        "if ( a < b ) { return \"foo bar\" ; }"
    );
}

#[test]
fn number_too_large_is_not_read_back() {
    let tokens = tokens_of("9223372036854775808");
    assert_eq!(tokens, vec![Token::ILLEGAL('9'), Token::EOF]);
    assert_eq!(tokens_of(&written(&tokens)), vec![Token::INT(9), Token::EOF]);
}
