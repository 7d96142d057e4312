//! Tokens: the closed set of lexical items, their kinds, their printable
//! forms and the binding strength of the operators among them.

use crate::decimal::{decimal_text, i64_to_string};
use vstd::prelude::*;

verus! {

/// How strongly an operator binds. The levels are totally ordered, from
/// `LOWEST` up to `CALL`.
#[derive(Debug, Clone, Copy, PartialEq, Eq, PartialOrd, Ord, Structural)]
pub enum Precedence {
    LOWEST,
    EQUALS,
    LESSGREATER,
    SUM,
    PRODUCT,
    PREFIX,
    CALL,
}

impl Precedence {
    /// The place of a level in the order, counted from 1.
    pub open spec fn rank(self) -> int {
        match self {
            Precedence::LOWEST => 1,
            Precedence::EQUALS => 2,
            Precedence::LESSGREATER => 3,
            Precedence::SUM => 4,
            Precedence::PRODUCT => 5,
            Precedence::PREFIX => 6,
            Precedence::CALL => 7,
        }
    }

    /// The level at place `i`; `LOWEST` where there is no such place.
    pub open spec fn of_rank(i: int) -> Precedence {
        if i == 2 {
            Precedence::EQUALS
        } else if i == 3 {
            Precedence::LESSGREATER
        } else if i == 4 {
            Precedence::SUM
        } else if i == 5 {
            Precedence::PRODUCT
        } else if i == 6 {
            Precedence::PREFIX
        } else if i == 7 {
            Precedence::CALL
        } else {
            Precedence::LOWEST
        }
    }

    /// The place of the level in the order, counted from 1.
    pub fn to_int(&self) -> (i: i32)
        ensures
            i == self.rank(),
    {
        match self {
            Precedence::LOWEST => 1,
            Precedence::EQUALS => 2,
            Precedence::LESSGREATER => 3,
            Precedence::SUM => 4,
            Precedence::PRODUCT => 5,
            Precedence::PREFIX => 6,
            Precedence::CALL => 7,
        }
    }

    /// The level at place `i`; `LOWEST` where there is no such place.
    pub fn from_int(i: i32) -> (p: Self)
        ensures
            p == Self::of_rank(i as int),
    {
        match i {
            1 => Precedence::LOWEST,
            2 => Precedence::EQUALS,
            3 => Precedence::LESSGREATER,
            4 => Precedence::SUM,
            5 => Precedence::PRODUCT,
            6 => Precedence::PREFIX,
            7 => Precedence::CALL,
            _ => Precedence::LOWEST,
        }
    }

    /// The level `i` places above this one (below it, for a negative `i`).
    pub fn sum(self, i: i32) -> (p: Self)
        requires
            self.rank() + i <= i32::MAX,
        ensures
            p == Self::of_rank(self.rank() + i),
    {
        Precedence::from_int(self.to_int() + i)
    }
}

/// The levels are totally ordered by their places: every level has a place
/// from 1 to 7, is found again at its place, and shares it with no other.
pub proof fn lemma_rank_determines_precedence(p: Precedence, q: Precedence)
    ensures
        1 <= p.rank() <= 7,
        Precedence::of_rank(p.rank()) == p,
        p.rank() == q.rank() ==> p == q,
{
}

/// The tag of a token, without its payload.
#[allow(non_camel_case_types)]
#[derive(Debug, Clone, Copy, PartialEq, Eq, Hash, Structural)]
pub enum TokenKind {
    EOF,
    ILLEGAL,
    IDENT,
    INT,
    STRING,
    ASSIGN,
    PLUS,
    MINUS,
    BANG,
    ASTERISK,
    SLASH,
    GT,
    LT,
    EQ,
    NOT_EQ,
    COMMA,
    SEMICOLON,
    LPAREN,
    RPAREN,
    LBRACE,
    RBRACE,
    FUNCTION,
    LET,
    TRUE,
    FALSE,
    IF,
    ELSE,
    RETURN,
}

#[allow(non_camel_case_types)]
#[derive(Debug, PartialEq, Eq, Hash)]
pub enum Token {
    EOF,
    ILLEGAL(char),
    // Identifiers and literals
    IDENT(String),
    INT(i64),
    STRING(String),
    // Operators
    ASSIGN,
    PLUS,
    MINUS,
    BANG,
    ASTERISK,
    SLASH,
    GT,
    LT,
    EQ,
    NOT_EQ,
    // Delimiters
    COMMA,
    SEMICOLON,
    LPAREN,
    RPAREN,
    LBRACE,
    RBRACE,
    // Keywords
    FUNCTION,
    LET,
    TRUE,
    FALSE,
    IF,
    ELSE,
    RETURN,
}

/// What a token is: its kind, and the payload that its kind carries. The
/// text is that of an identifier or of a string literal, or the one
/// character of an illegal token; the number is that of an integer literal.
/// A kind without text has the empty text, one without number the number 0.
pub struct TokenView {
    pub kind: TokenKind,
    pub text: Seq<char>,
    pub number: i64,
}

impl TokenView {
    /// A token that is its kind alone.
    pub open spec fn plain(kind: TokenKind) -> TokenView {
        TokenView { kind, text: Seq::empty(), number: 0 }
    }

    pub open spec fn identifier(name: Seq<char>) -> TokenView {
        TokenView { kind: TokenKind::IDENT, text: name, number: 0 }
    }

    pub open spec fn string(text: Seq<char>) -> TokenView {
        TokenView { kind: TokenKind::STRING, text, number: 0 }
    }

    pub open spec fn integer(number: i64) -> TokenView {
        TokenView { kind: TokenKind::INT, text: Seq::empty(), number }
    }

    pub open spec fn illegal(c: char) -> TokenView {
        TokenView { kind: TokenKind::ILLEGAL, text: seq![c], number: 0 }
    }

    /// The printable form of a token: the text of a name, a string or an
    /// illegal character, the decimal notation of a number, and the
    /// spelling of every other token.
    pub open spec fn literal(self) -> Seq<char> {
        match self.kind {
            TokenKind::EOF => "EOF"@,
            TokenKind::ILLEGAL => self.text,
            TokenKind::IDENT => self.text,
            TokenKind::INT => decimal_text(self.number as int),
            TokenKind::STRING => self.text,
            TokenKind::ASSIGN => "="@,
            TokenKind::PLUS => "+"@,
            TokenKind::MINUS => "-"@,
            TokenKind::BANG => "!"@,
            TokenKind::ASTERISK => "*"@,
            TokenKind::SLASH => "/"@,
            TokenKind::GT => ">"@,
            TokenKind::LT => "<"@,
            TokenKind::EQ => "=="@,
            TokenKind::NOT_EQ => "!="@,
            TokenKind::COMMA => ","@,
            TokenKind::SEMICOLON => ";"@,
            TokenKind::LPAREN => "("@,
            TokenKind::RPAREN => ")"@,
            TokenKind::LBRACE => "{"@,
            TokenKind::RBRACE => "}"@,
            TokenKind::FUNCTION => "fn"@,
            TokenKind::LET => "let"@,
            TokenKind::TRUE => "true"@,
            TokenKind::FALSE => "false"@,
            TokenKind::IF => "if"@,
            TokenKind::ELSE => "else"@,
            TokenKind::RETURN => "return"@,
        }
    }
}

/// The binding strength of a kind of token when it stands between two
/// operands; `LOWEST` for every kind that cannot.
pub open spec fn precedence_of(kind: TokenKind) -> Precedence {
    match kind {
        TokenKind::EQ => Precedence::EQUALS,
        TokenKind::NOT_EQ => Precedence::EQUALS,
        TokenKind::LT => Precedence::LESSGREATER,
        TokenKind::GT => Precedence::LESSGREATER,
        TokenKind::PLUS => Precedence::SUM,
        TokenKind::MINUS => Precedence::SUM,
        TokenKind::SLASH => Precedence::PRODUCT,
        TokenKind::ASTERISK => Precedence::PRODUCT,
        TokenKind::LPAREN => Precedence::CALL,
        _ => Precedence::LOWEST,
    }
}

impl View for Token {
    type V = TokenView;

    open spec fn view(&self) -> TokenView {
        match self {
            Token::EOF => TokenView::plain(TokenKind::EOF),
            Token::ILLEGAL(c) => TokenView::illegal(*c),
            Token::IDENT(name) => TokenView::identifier(name@),
            Token::INT(i) => TokenView::integer(*i),
            Token::STRING(text) => TokenView::string(text@),
            Token::ASSIGN => TokenView::plain(TokenKind::ASSIGN),
            Token::PLUS => TokenView::plain(TokenKind::PLUS),
            Token::MINUS => TokenView::plain(TokenKind::MINUS),
            Token::BANG => TokenView::plain(TokenKind::BANG),
            Token::ASTERISK => TokenView::plain(TokenKind::ASTERISK),
            Token::SLASH => TokenView::plain(TokenKind::SLASH),
            Token::GT => TokenView::plain(TokenKind::GT),
            Token::LT => TokenView::plain(TokenKind::LT),
            Token::EQ => TokenView::plain(TokenKind::EQ),
            Token::NOT_EQ => TokenView::plain(TokenKind::NOT_EQ),
            Token::COMMA => TokenView::plain(TokenKind::COMMA),
            Token::SEMICOLON => TokenView::plain(TokenKind::SEMICOLON),
            Token::LPAREN => TokenView::plain(TokenKind::LPAREN),
            Token::RPAREN => TokenView::plain(TokenKind::RPAREN),
            Token::LBRACE => TokenView::plain(TokenKind::LBRACE),
            Token::RBRACE => TokenView::plain(TokenKind::RBRACE),
            Token::FUNCTION => TokenView::plain(TokenKind::FUNCTION),
            Token::LET => TokenView::plain(TokenKind::LET),
            Token::TRUE => TokenView::plain(TokenKind::TRUE),
            Token::FALSE => TokenView::plain(TokenKind::FALSE),
            Token::IF => TokenView::plain(TokenKind::IF),
            Token::ELSE => TokenView::plain(TokenKind::ELSE),
            Token::RETURN => TokenView::plain(TokenKind::RETURN),
        }
    }
}

impl Clone for Token {
    fn clone(&self) -> (t: Self)
        ensures
            t@ == self@,
    {
        match self {
            Token::EOF => Token::EOF,
            Token::ILLEGAL(c) => Token::ILLEGAL(*c),
            Token::IDENT(name) => Token::IDENT(name.clone()),
            Token::INT(i) => Token::INT(*i),
            Token::STRING(text) => Token::STRING(text.clone()),
            Token::ASSIGN => Token::ASSIGN,
            Token::PLUS => Token::PLUS,
            Token::MINUS => Token::MINUS,
            Token::BANG => Token::BANG,
            Token::ASTERISK => Token::ASTERISK,
            Token::SLASH => Token::SLASH,
            Token::GT => Token::GT,
            Token::LT => Token::LT,
            Token::EQ => Token::EQ,
            Token::NOT_EQ => Token::NOT_EQ,
            Token::COMMA => Token::COMMA,
            Token::SEMICOLON => Token::SEMICOLON,
            Token::LPAREN => Token::LPAREN,
            Token::RPAREN => Token::RPAREN,
            Token::LBRACE => Token::LBRACE,
            Token::RBRACE => Token::RBRACE,
            Token::FUNCTION => Token::FUNCTION,
            Token::LET => Token::LET,
            Token::TRUE => Token::TRUE,
            Token::FALSE => Token::FALSE,
            Token::IF => Token::IF,
            Token::ELSE => Token::ELSE,
            Token::RETURN => Token::RETURN,
        }
    }
}

impl Token {
    /// The printable form of the token.
    pub fn to_string(&self) -> (s: String)
        ensures
            s@ == self@.literal(),
    {
        match self {
            Token::ILLEGAL(c) => {
                let mut s = String::new();
                s.push(*c);
                assert(s@ =~= seq![*c]);
                s
            },
            Token::IDENT(name) => name.clone(),
            Token::INT(i) => i64_to_string(*i),
            Token::STRING(text) => text.clone(),
            Token::EOF => String::from_str("EOF"),
            Token::ASSIGN => String::from_str("="),
            Token::PLUS => String::from_str("+"),
            Token::MINUS => String::from_str("-"),
            Token::BANG => String::from_str("!"),
            Token::ASTERISK => String::from_str("*"),
            Token::SLASH => String::from_str("/"),
            Token::GT => String::from_str(">"),
            Token::LT => String::from_str("<"),
            Token::EQ => String::from_str("=="),
            Token::NOT_EQ => String::from_str("!="),
            Token::COMMA => String::from_str(","),
            Token::SEMICOLON => String::from_str(";"),
            Token::LPAREN => String::from_str("("),
            Token::RPAREN => String::from_str(")"),
            Token::LBRACE => String::from_str("{"),
            Token::RBRACE => String::from_str("}"),
            Token::FUNCTION => String::from_str("fn"),
            Token::LET => String::from_str("let"),
            Token::TRUE => String::from_str("true"),
            Token::FALSE => String::from_str("false"),
            Token::IF => String::from_str("if"),
            Token::ELSE => String::from_str("else"),
            Token::RETURN => String::from_str("return"),
        }
    }

    /// The kind of the token.
    pub fn to_original_type(&self) -> (kind: TokenKind)
        ensures
            kind == self@.kind,
    {
        match self {
            Token::EOF => TokenKind::EOF,
            Token::ILLEGAL(_) => TokenKind::ILLEGAL,
            Token::IDENT(_) => TokenKind::IDENT,
            Token::INT(_) => TokenKind::INT,
            Token::STRING(_) => TokenKind::STRING,
            Token::ASSIGN => TokenKind::ASSIGN,
            Token::PLUS => TokenKind::PLUS,
            Token::MINUS => TokenKind::MINUS,
            Token::BANG => TokenKind::BANG,
            Token::ASTERISK => TokenKind::ASTERISK,
            Token::SLASH => TokenKind::SLASH,
            Token::GT => TokenKind::GT,
            Token::LT => TokenKind::LT,
            Token::EQ => TokenKind::EQ,
            Token::NOT_EQ => TokenKind::NOT_EQ,
            Token::COMMA => TokenKind::COMMA,
            Token::SEMICOLON => TokenKind::SEMICOLON,
            Token::LPAREN => TokenKind::LPAREN,
            Token::RPAREN => TokenKind::RPAREN,
            Token::LBRACE => TokenKind::LBRACE,
            Token::RBRACE => TokenKind::RBRACE,
            Token::FUNCTION => TokenKind::FUNCTION,
            Token::LET => TokenKind::LET,
            Token::TRUE => TokenKind::TRUE,
            Token::FALSE => TokenKind::FALSE,
            Token::IF => TokenKind::IF,
            Token::ELSE => TokenKind::ELSE,
            Token::RETURN => TokenKind::RETURN,
        }
    }

    /// Whether the token is of the same kind as `t`, whatever either carries.
    pub fn is(&self, t: Token) -> (same: bool)
        ensures
            same == (self@.kind == t@.kind),
    {
        self.to_original_type() == t.to_original_type()
    }

    /// The binding strength of the token as an infix operator.
    pub fn to_precedence(&self) -> (p: Precedence)
        ensures
            p == precedence_of(self@.kind),
    {
        match self {
            Token::EQ => Precedence::EQUALS,
            Token::NOT_EQ => Precedence::EQUALS,
            Token::LT => Precedence::LESSGREATER,
            Token::GT => Precedence::LESSGREATER,
            Token::PLUS => Precedence::SUM,
            Token::MINUS => Precedence::SUM,
            Token::SLASH => Precedence::PRODUCT,
            Token::ASTERISK => Precedence::PRODUCT,
            Token::LPAREN => Precedence::CALL,
            _ => Precedence::LOWEST,
        }
    }

    /// The number of an integer literal.
    pub fn as_int(&self) -> (number: Option<i64>)
        ensures
            number == if self@.kind == TokenKind::INT {
                Some(self@.number)
            } else {
                None
            },
    {
        match self {
            Token::INT(i) => Some(*i),
            _ => None,
        }
    }
}

} // verus!
