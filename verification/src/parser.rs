//! The parser: a Pratt parser, which reads tokens from a lexer with two
//! tokens of lookahead and builds the syntax tree of a program. It never
//! gives up: what it cannot parse it records as an error, and goes on.

use crate::ast::expression::node::{
    Boolean, CallExpression, FunctionLiteral, Identifier, IfExpression, InfixExpression,
    IntegerLiteral, PrefixExpression, StringLiteral,
};
use crate::ast::expression::ExpressionType;
use crate::ast::statement::node::{
    BlockStatement, ExpressionStatement, LetStatement, ReturnStatement,
};
use crate::ast::statement::StatementType;
use crate::ast::{
    expression_view, expressions_view, statement_view, statements_view, ExpressionView, Program,
    StatementView,
};
use crate::decimal::{natural_text, usize_to_string};
use crate::lexer::{lemma_scan_token_advances, remaining, scan_token, Lexer};
use crate::token::{precedence_of, Precedence, Token, TokenKind, TokenView};
use vstd::prelude::*;

verus! {

/// What a parser is at one moment: the current token, the one after it,
/// the text with the cursor of its lexer, and the errors recorded so far.
pub struct ParserView {
    pub cur: TokenView,
    pub peek: TokenView,
    pub source: Seq<char>,
    pub cursor: int,
    pub errors: Seq<Seq<char>>,
}

/// What a step of the parser yields, and the parser after it.
pub struct Parsed<T> {
    pub value: T,
    pub state: ParserView,
}

impl ParserView {
    /// The parser after it has taken one more token from its lexer.
    pub open spec fn advance(self) -> ParserView {
        ParserView {
            cur: self.peek,
            peek: scan_token(self.source, self.cursor).0,
            source: self.source,
            cursor: scan_token(self.source, self.cursor).1,
            errors: self.errors,
        }
    }

    /// The parser after it has recorded one more error.
    pub open spec fn with_error(self, message: Seq<char>) -> ParserView {
        ParserView {
            cur: self.cur,
            peek: self.peek,
            source: self.source,
            cursor: self.cursor,
            errors: self.errors.push(message),
        }
    }

    /// A bound on the tokens that the parser can still see: the two it
    /// holds, unless they are `EOF`, and the text that its lexer has left.
    ///
    /// The rules of the grammar are defined by recursion on this bound. A
    /// rule passes the parser on to a rule that may lead back to it only
    /// where the bound has fallen, as it has whenever a token other than
    /// `EOF` has been left behind; where it has not, the rule ends.
    pub open spec fn weight(self) -> nat {
        let held_cur: nat = if self.cur.kind != TokenKind::EOF {
            1
        } else {
            0
        };
        let held_peek: nat = if self.peek.kind != TokenKind::EOF {
            1
        } else {
            0
        };
        held_cur + held_peek + remaining(self.source, self.cursor)
    }

    /// Whether `later` can follow this parser: it has no more left to see,
    /// and it has less left, or still the same current token, wherever the
    /// current token is not `EOF`.
    pub open spec fn leads_to(self, later: ParserView) -> bool {
        &&& later.weight() <= self.weight()
        &&& self.cur.kind != TokenKind::EOF ==> later.weight() < self.weight() || later.cur
            == self.cur
    }

    /// The parser after it has required the next token to be of the kind of
    /// `expected`: it moves on to that token, or else records an error, and
    /// says which.
    pub open spec fn expect_peek(self, expected: TokenView) -> Parsed<bool> {
        if self.peek.kind == expected.kind {
            Parsed { value: true, state: self.advance() }
        } else {
            Parsed { value: false, state: self.with_error(peek_error_text(expected, self.peek)) }
        }
    }

    /// The parser after it has passed a semicolon, if one comes next.
    pub open spec fn skip_semicolon(self) -> ParserView {
        if self.peek.kind == TokenKind::SEMICOLON {
            self.advance()
        } else {
            self
        }
    }
}

/// The error for a token that is not the expected one.
pub open spec fn peek_error_text(expected: TokenView, found: TokenView) -> Seq<char> {
    "expected next token to be "@ + expected.literal() + ", got "@ + found.literal()
        + " instead"@
}

/// The error for a token with which no expression starts.
pub open spec fn no_prefix_text(token: TokenView) -> Seq<char> {
    "no prefix parse function for "@ + token.literal() + " found"@
}

/// The expression that stands where none could be parsed.
pub open spec fn placeholder() -> ExpressionView {
    ExpressionView::Identifier(TokenView::plain(TokenKind::EOF))
}

/// The kinds of token with which an expression starts.
pub open spec fn starts_expression(kind: TokenKind) -> bool {
    kind == TokenKind::IDENT || kind == TokenKind::INT || kind == TokenKind::STRING || kind
        == TokenKind::BANG || kind == TokenKind::MINUS || kind == TokenKind::TRUE || kind
        == TokenKind::FALSE || kind == TokenKind::LPAREN || kind == TokenKind::IF || kind
        == TokenKind::FUNCTION
}

/// Taking a token leaves no more to see, and less if the current token was
/// not `EOF`.
pub proof fn lemma_advance(s: ParserView)
    ensures
        s.leads_to(s.advance()),
        s.advance().weight() <= s.weight(),
        s.cur.kind != TokenKind::EOF ==> s.advance().weight() < s.weight(),
{
    lemma_scan_token_advances(s.source, s.cursor);
}

/// An expression: what starts at the current token, then every operator
/// that binds more strongly than `precedence` with its right operand.
#[verifier::opaque]
pub open spec fn parse_expression(s: ParserView, precedence: Precedence) -> Parsed<ExpressionView>
    decreases s.weight(), 5nat,
{
    if !starts_expression(s.cur.kind) {
        Parsed { value: placeholder(), state: s.with_error(no_prefix_text(s.cur)) }
    } else {
        let left = parse_prefix(s);
        if left.state.weight() <= s.weight() {
            parse_infix_loop(left.state, precedence, left.value)
        } else {
            left
        }
    }
}

/// What starts at the current token, by the kind of that token.
#[verifier::opaque]
pub open spec fn parse_prefix(s: ParserView) -> Parsed<ExpressionView>
    decreases s.weight(), 3nat,
{
    match s.cur.kind {
        TokenKind::IDENT => Parsed { value: ExpressionView::Identifier(s.cur), state: s },
        TokenKind::INT => Parsed { value: ExpressionView::IntegerLiteral(s.cur), state: s },
        TokenKind::STRING => Parsed { value: ExpressionView::StringLiteral(s.cur), state: s },
        TokenKind::TRUE => Parsed { value: ExpressionView::Boolean(s.cur), state: s },
        TokenKind::FALSE => Parsed { value: ExpressionView::Boolean(s.cur), state: s },
        TokenKind::BANG => parse_prefix_expression(s),
        TokenKind::MINUS => parse_prefix_expression(s),
        TokenKind::LPAREN => parse_grouped_expression(s),
        TokenKind::IF => parse_if_expression(s),
        TokenKind::FUNCTION => parse_function_literal(s),
        _ => Parsed { value: placeholder(), state: s },
    }
}

/// The operators after `left`, as long as the next one binds more strongly
/// than `precedence`; a semicolon ends the expression.
#[verifier::opaque]
pub open spec fn parse_infix_loop(
    s: ParserView,
    precedence: Precedence,
    left: ExpressionView,
) -> Parsed<ExpressionView>
    decreases s.weight(), 4nat,
{
    if s.peek.kind != TokenKind::SEMICOLON && precedence.rank() < precedence_of(
        s.peek.kind,
    ).rank() {
        proof {
            lemma_advance(s);
        }
        let next = if s.peek.kind == TokenKind::LPAREN {
            parse_call_expression(s.advance(), left)
        } else {
            parse_infix_expression(s.advance(), left)
        };
        if next.state.weight() < s.weight() {
            parse_infix_loop(next.state, precedence, next.value)
        } else {
            next
        }
    } else {
        Parsed { value: left, state: s }
    }
}

/// A prefix operator, which is the current token, with its operand.
#[verifier::opaque]
pub open spec fn parse_prefix_expression(s: ParserView) -> Parsed<ExpressionView>
    decreases s.weight(), 2nat,
{
    if s.advance().weight() < s.weight() {
        let right = parse_expression(s.advance(), Precedence::PREFIX);
        Parsed {
            value: ExpressionView::Prefix { operator: s.cur, right: Box::new(right.value) },
            state: right.state,
        }
    } else {
        Parsed { value: placeholder(), state: s.advance() }
    }
}

/// An infix operator, which is the current token, with `left` and its right
/// operand. The right operand takes the operators that bind more strongly
/// than this one, so operators of one strength group to the left.
#[verifier::opaque]
pub open spec fn parse_infix_expression(s: ParserView, left: ExpressionView) -> Parsed<
    ExpressionView,
>
    decreases s.weight(), 2nat,
{
    if s.advance().weight() < s.weight() {
        let right = parse_expression(s.advance(), precedence_of(s.cur.kind));
        Parsed {
            value: ExpressionView::Infix {
                operator: s.cur,
                left: Box::new(left),
                right: Box::new(right.value),
            },
            state: right.state,
        }
    } else {
        Parsed { value: placeholder(), state: s.advance() }
    }
}

/// An expression in parentheses; the current token opens them.
#[verifier::opaque]
pub open spec fn parse_grouped_expression(s: ParserView) -> Parsed<ExpressionView>
    decreases s.weight(), 2nat,
{
    if s.advance().weight() < s.weight() {
        let inner = parse_expression(s.advance(), Precedence::LOWEST);
        let closed = inner.state.expect_peek(TokenView::plain(TokenKind::RPAREN));
        if closed.value {
            Parsed { value: inner.value, state: closed.state }
        } else {
            Parsed { value: placeholder(), state: closed.state }
        }
    } else {
        Parsed { value: placeholder(), state: s.advance() }
    }
}

/// A conditional; the current token is `if`.
#[verifier::opaque]
pub open spec fn parse_if_expression(s: ParserView) -> Parsed<ExpressionView>
    decreases s.weight(), 2nat,
{
    let opened = s.expect_peek(TokenView::plain(TokenKind::LPAREN));
    if !opened.value {
        Parsed { value: placeholder(), state: opened.state }
    } else if opened.state.advance().weight() < s.weight() {
        let condition = parse_expression(opened.state.advance(), Precedence::LOWEST);
        let closed = condition.state.expect_peek(TokenView::plain(TokenKind::RPAREN));
        if !closed.value {
            Parsed { value: placeholder(), state: closed.state }
        } else {
            let braced = closed.state.expect_peek(TokenView::plain(TokenKind::LBRACE));
            if !braced.value {
                Parsed { value: placeholder(), state: braced.state }
            } else if braced.state.weight() <= s.weight() {
                let consequence = parse_block_statement(braced.state);
                if consequence.state.peek.kind == TokenKind::ELSE {
                    let other = consequence.state.advance().expect_peek(
                        TokenView::plain(TokenKind::LBRACE),
                    );
                    if !other.value {
                        Parsed { value: placeholder(), state: other.state }
                    } else if other.state.weight() <= s.weight() {
                        let alternative = parse_block_statement(other.state);
                        Parsed {
                            value: ExpressionView::If {
                                condition: Box::new(condition.value),
                                consequence: Box::new(consequence.value),
                                alternative: Some(Box::new(alternative.value)),
                            },
                            state: alternative.state,
                        }
                    } else {
                        Parsed { value: placeholder(), state: other.state }
                    }
                } else {
                    Parsed {
                        value: ExpressionView::If {
                            condition: Box::new(condition.value),
                            consequence: Box::new(consequence.value),
                            alternative: None,
                        },
                        state: consequence.state,
                    }
                }
            } else {
                Parsed { value: placeholder(), state: braced.state }
            }
        }
    } else {
        Parsed { value: placeholder(), state: opened.state }
    }
}

/// The names after the first of a list of parameters, up to the closing
/// parenthesis. Without that parenthesis the list is empty.
#[verifier::opaque]
pub open spec fn parse_parameters_loop(s: ParserView, names: Seq<ExpressionView>) -> Parsed<
    Seq<ExpressionView>,
>
    decreases s.weight(),
{
    if s.peek.kind == TokenKind::COMMA {
        let next = s.advance().advance();
        if next.weight() < s.weight() {
            parse_parameters_loop(next, names.push(ExpressionView::Identifier(next.cur)))
        } else {
            Parsed { value: names, state: next }
        }
    } else {
        let closed = s.expect_peek(TokenView::plain(TokenKind::RPAREN));
        if closed.value {
            Parsed { value: names, state: closed.state }
        } else {
            Parsed { value: Seq::empty(), state: closed.state }
        }
    }
}

/// The parameters of a function; the current token opens the list.
pub open spec fn parse_function_parameters(s: ParserView) -> Parsed<Seq<ExpressionView>> {
    if s.peek.kind == TokenKind::RPAREN {
        Parsed { value: Seq::empty(), state: s.advance() }
    } else {
        parse_parameters_loop(s.advance(), seq![ExpressionView::Identifier(s.advance().cur)])
    }
}

/// A function; the current token is `fn`.
#[verifier::opaque]
pub open spec fn parse_function_literal(s: ParserView) -> Parsed<ExpressionView>
    decreases s.weight(), 2nat,
{
    let opened = s.expect_peek(TokenView::plain(TokenKind::LPAREN));
    if !opened.value {
        Parsed { value: placeholder(), state: opened.state }
    } else {
        let parameters = parse_function_parameters(opened.state);
        let braced = parameters.state.expect_peek(TokenView::plain(TokenKind::LBRACE));
        if !braced.value {
            Parsed { value: placeholder(), state: braced.state }
        } else if braced.state.weight() <= s.weight() {
            let body = parse_block_statement(braced.state);
            Parsed {
                value: ExpressionView::Fn {
                    parameters: parameters.value,
                    body: Box::new(body.value),
                },
                state: body.state,
            }
        } else {
            Parsed { value: placeholder(), state: braced.state }
        }
    }
}

/// A call of `function`; the current token opens the arguments.
#[verifier::opaque]
pub open spec fn parse_call_expression(s: ParserView, function: ExpressionView) -> Parsed<
    ExpressionView,
>
    decreases s.weight(), 2nat,
{
    let arguments = parse_call_arguments(s);
    Parsed {
        value: ExpressionView::Call {
            token: s.cur,
            function: Box::new(function),
            arguments: arguments.value,
        },
        state: arguments.state,
    }
}

/// The arguments of a call; the current token opens the list.
#[verifier::opaque]
pub open spec fn parse_call_arguments(s: ParserView) -> Parsed<Seq<ExpressionView>>
    decreases s.weight(), 1nat,
{
    if s.peek.kind == TokenKind::RPAREN {
        Parsed { value: Seq::empty(), state: s.advance() }
    } else if s.advance().weight() < s.weight() {
        let first = parse_expression(s.advance(), Precedence::LOWEST);
        if first.state.weight() < s.weight() {
            parse_arguments_loop(first.state, seq![first.value])
        } else {
            Parsed { value: Seq::empty(), state: first.state }
        }
    } else {
        Parsed { value: Seq::empty(), state: s.advance() }
    }
}

/// The arguments after the first, up to the closing parenthesis. Without
/// that parenthesis the list is empty.
#[verifier::opaque]
pub open spec fn parse_arguments_loop(s: ParserView, arguments: Seq<ExpressionView>) -> Parsed<
    Seq<ExpressionView>,
>
    decreases s.weight(), 6nat,
{
    if s.peek.kind == TokenKind::COMMA {
        let next = s.advance().advance();
        if next.weight() < s.weight() {
            let argument = parse_expression(next, Precedence::LOWEST);
            if argument.state.weight() < s.weight() {
                parse_arguments_loop(argument.state, arguments.push(argument.value))
            } else {
                Parsed { value: arguments, state: argument.state }
            }
        } else {
            Parsed { value: arguments, state: next }
        }
    } else {
        let closed = s.expect_peek(TokenView::plain(TokenKind::RPAREN));
        if closed.value {
            Parsed { value: arguments, state: closed.state }
        } else {
            Parsed { value: Seq::empty(), state: closed.state }
        }
    }
}

/// A block; the current token opens it.
#[verifier::opaque]
pub open spec fn parse_block_statement(s: ParserView) -> Parsed<StatementView>
    decreases s.weight(), 1nat,
{
    if s.advance().weight() < s.weight() {
        let body = parse_block_loop(s.advance(), Seq::empty());
        Parsed { value: StatementView::Block { statements: body.value }, state: body.state }
    } else {
        Parsed { value: StatementView::Block { statements: Seq::empty() }, state: s.advance() }
    }
}

/// The statements of a block after `statements`, up to the closing brace or
/// the end of the text.
#[verifier::opaque]
pub open spec fn parse_block_loop(s: ParserView, statements: Seq<StatementView>) -> Parsed<
    Seq<StatementView>,
>
    decreases s.weight(), 8nat,
{
    if s.cur.kind == TokenKind::RBRACE || s.cur.kind == TokenKind::EOF {
        Parsed { value: statements, state: s }
    } else {
        let statement = parse_statement(s);
        let next = statement.state.advance();
        let grown = match statement.value {
            Some(parsed) => statements.push(parsed),
            None => statements,
        };
        if next.weight() < s.weight() {
            parse_block_loop(next, grown)
        } else {
            Parsed { value: grown, state: next }
        }
    }
}

/// One statement, by its first token: a binding, a return, or else an
/// expression. No statement comes of a binding that lacks its name or its
/// `=`.
#[verifier::opaque]
pub open spec fn parse_statement(s: ParserView) -> Parsed<Option<StatementView>>
    decreases s.weight(), 7nat,
{
    if s.cur.kind == TokenKind::LET {
        parse_let_statement(s)
    } else if s.cur.kind == TokenKind::RETURN {
        parse_return_statement(s)
    } else if s.cur.kind == TokenKind::IDENT && s.peek.kind == TokenKind::ASSIGN {
        parse_assign_statement(s)
    } else {
        parse_expression_statement(s)
    }
}

/// A binding; the current token is `let`.
#[verifier::opaque]
pub open spec fn parse_let_statement(s: ParserView) -> Parsed<Option<StatementView>>
    decreases s.weight(), 6nat,
{
    let named = s.expect_peek(TokenView::identifier(Seq::empty()));
    if !named.value {
        Parsed { value: None, state: named.state }
    } else {
        let assigned = named.state.expect_peek(TokenView::plain(TokenKind::ASSIGN));
        if !assigned.value {
            Parsed { value: None, state: assigned.state }
        } else {
            proof {
                lemma_advance(s);
                lemma_advance(named.state);
                lemma_advance(assigned.state);
            }
            let value = parse_expression(assigned.state.advance(), Precedence::LOWEST);
            Parsed {
                value: Some(
                    StatementView::Let {
                        token: s.cur,
                        name: named.state.cur.literal(),
                        value: value.value,
                    },
                ),
                state: value.state.skip_semicolon(),
            }
        }
    }
}

/// A binding without the keyword: the current token is the name and the
/// next one is `=`.
#[verifier::opaque]
pub open spec fn parse_assign_statement(s: ParserView) -> Parsed<Option<StatementView>>
    decreases s.weight(), 6nat,
{
    proof {
        lemma_advance(s);
        lemma_advance(s.advance());
    }
    let value = parse_expression(s.advance().advance(), Precedence::LOWEST);
    Parsed {
        value: Some(
            StatementView::Let { token: s.peek, name: s.cur.literal(), value: value.value },
        ),
        state: value.state.skip_semicolon(),
    }
}

/// A return; the current token is `return`.
#[verifier::opaque]
pub open spec fn parse_return_statement(s: ParserView) -> Parsed<Option<StatementView>>
    decreases s.weight(), 6nat,
{
    proof {
        lemma_advance(s);
    }
    let value = parse_expression(s.advance(), Precedence::LOWEST);
    Parsed {
        value: Some(StatementView::Return { value: value.value }),
        state: value.state.skip_semicolon(),
    }
}

/// An expression that stands as a statement.
#[verifier::opaque]
pub open spec fn parse_expression_statement(s: ParserView) -> Parsed<Option<StatementView>>
    decreases s.weight(), 6nat,
{
    let expression = parse_expression(s, Precedence::LOWEST);
    Parsed {
        value: Some(StatementView::Expression { expression: expression.value }),
        state: expression.state.skip_semicolon(),
    }
}

/// The statements of a program after `statements`, up to the first `EOF`.
#[verifier::opaque]
pub open spec fn parse_program_loop(s: ParserView, statements: Seq<StatementView>) -> Parsed<
    Seq<StatementView>,
>
    decreases s.weight(),
{
    if s.cur.kind == TokenKind::EOF {
        Parsed { value: statements, state: s }
    } else {
        let statement = parse_statement(s);
        let next = statement.state.advance();
        let grown = match statement.value {
            Some(parsed) => statements.push(parsed),
            None => statements,
        };
        if next.weight() < s.weight() {
            parse_program_loop(next, grown)
        } else {
            Parsed { value: grown, state: next }
        }
    }
}

/// An expression is what its first token starts, continued by the operators after it.
pub(crate) proof fn lemma_parse_expression(s: ParserView, precedence: Precedence)
    ensures
        parse_expression(s, precedence) == ({
            if !starts_expression(s.cur.kind) {
                Parsed { value: placeholder(), state: s.with_error(no_prefix_text(s.cur)) }
            } else {
                let left = parse_prefix(s);
                if left.state.weight() <= s.weight() {
                    parse_infix_loop(left.state, precedence, left.value)
                } else {
                    left
                }
            }
        }),
{
    reveal(parse_expression);
    reveal(parse_prefix);
    reveal(parse_infix_loop);
}

/// What starts an expression goes by the kind of the current token.
pub(crate) proof fn lemma_parse_prefix(s: ParserView)
    ensures
        parse_prefix(s) == ({
            match s.cur.kind {
                TokenKind::IDENT => Parsed { value: ExpressionView::Identifier(s.cur), state: s },
                TokenKind::INT => Parsed { value: ExpressionView::IntegerLiteral(s.cur), state: s },
                TokenKind::STRING => Parsed { value: ExpressionView::StringLiteral(s.cur), state: s },
                TokenKind::TRUE => Parsed { value: ExpressionView::Boolean(s.cur), state: s },
                TokenKind::FALSE => Parsed { value: ExpressionView::Boolean(s.cur), state: s },
                TokenKind::BANG => parse_prefix_expression(s),
                TokenKind::MINUS => parse_prefix_expression(s),
                TokenKind::LPAREN => parse_grouped_expression(s),
                TokenKind::IF => parse_if_expression(s),
                TokenKind::FUNCTION => parse_function_literal(s),
                _ => Parsed { value: placeholder(), state: s },
            }
        }),
{
    reveal(parse_prefix);
    reveal(parse_prefix_expression);
    reveal(parse_grouped_expression);
    reveal(parse_if_expression);
    reveal(parse_function_literal);
}

/// One operator is taken with its right operand while the next token binds more strongly.
pub(crate) proof fn lemma_parse_infix_loop(s: ParserView, precedence: Precedence, left: ExpressionView)
    ensures
        parse_infix_loop(s, precedence, left) == ({
            if s.peek.kind != TokenKind::SEMICOLON && precedence.rank() < precedence_of(
                s.peek.kind,
            ).rank() {
                let next = if s.peek.kind == TokenKind::LPAREN {
                    parse_call_expression(s.advance(), left)
                } else {
                    parse_infix_expression(s.advance(), left)
                };
                if next.state.weight() < s.weight() {
                    parse_infix_loop(next.state, precedence, next.value)
                } else {
                    next
                }
            } else {
                Parsed { value: left, state: s }
            }
        }),
{
    reveal(parse_infix_loop);
    reveal(parse_infix_expression);
    reveal(parse_call_expression);
}

/// A prefix operation is its operator and the operand parsed after it.
pub(crate) proof fn lemma_parse_prefix_expression(s: ParserView)
    ensures
        parse_prefix_expression(s) == ({
            if s.advance().weight() < s.weight() {
                let right = parse_expression(s.advance(), Precedence::PREFIX);
                Parsed {
                    value: ExpressionView::Prefix { operator: s.cur, right: Box::new(right.value) },
                    state: right.state,
                }
            } else {
                Parsed { value: placeholder(), state: s.advance() }
            }
        }),
{
    reveal(parse_prefix_expression);
    reveal(parse_expression);
}

/// An infix operation is its operator, the left operand and the right one parsed after it.
pub(crate) proof fn lemma_parse_infix_expression(s: ParserView, left: ExpressionView)
    ensures
        parse_infix_expression(s, left) == ({
            if s.advance().weight() < s.weight() {
                let right = parse_expression(s.advance(), precedence_of(s.cur.kind));
                Parsed {
                    value: ExpressionView::Infix {
                        operator: s.cur,
                        left: Box::new(left),
                        right: Box::new(right.value),
                    },
                    state: right.state,
                }
            } else {
                Parsed { value: placeholder(), state: s.advance() }
            }
        }),
{
    reveal(parse_infix_expression);
    reveal(parse_expression);
}

/// A grouped expression is the expression between the parentheses.
pub(crate) proof fn lemma_parse_grouped_expression(s: ParserView)
    ensures
        parse_grouped_expression(s) == ({
            if s.advance().weight() < s.weight() {
                let inner = parse_expression(s.advance(), Precedence::LOWEST);
                let closed = inner.state.expect_peek(TokenView::plain(TokenKind::RPAREN));
                if closed.value {
                    Parsed { value: inner.value, state: closed.state }
                } else {
                    Parsed { value: placeholder(), state: closed.state }
                }
            } else {
                Parsed { value: placeholder(), state: s.advance() }
            }
        }),
{
    reveal(parse_grouped_expression);
    reveal(parse_expression);
}

/// A conditional is its condition in parentheses, a block, and after `else` a second block.
pub(crate) proof fn lemma_parse_if_expression(s: ParserView)
    ensures
        parse_if_expression(s) == ({
            let opened = s.expect_peek(TokenView::plain(TokenKind::LPAREN));
            if !opened.value {
                Parsed { value: placeholder(), state: opened.state }
            } else if opened.state.advance().weight() < s.weight() {
                let condition = parse_expression(opened.state.advance(), Precedence::LOWEST);
                let closed = condition.state.expect_peek(TokenView::plain(TokenKind::RPAREN));
                if !closed.value {
                    Parsed { value: placeholder(), state: closed.state }
                } else {
                    let braced = closed.state.expect_peek(TokenView::plain(TokenKind::LBRACE));
                    if !braced.value {
                        Parsed { value: placeholder(), state: braced.state }
                    } else if braced.state.weight() <= s.weight() {
                        let consequence = parse_block_statement(braced.state);
                        if consequence.state.peek.kind == TokenKind::ELSE {
                            let other = consequence.state.advance().expect_peek(
                                TokenView::plain(TokenKind::LBRACE),
                            );
                            if !other.value {
                                Parsed { value: placeholder(), state: other.state }
                            } else if other.state.weight() <= s.weight() {
                                let alternative = parse_block_statement(other.state);
                                Parsed {
                                    value: ExpressionView::If {
                                        condition: Box::new(condition.value),
                                        consequence: Box::new(consequence.value),
                                        alternative: Some(Box::new(alternative.value)),
                                    },
                                    state: alternative.state,
                                }
                            } else {
                                Parsed { value: placeholder(), state: other.state }
                            }
                        } else {
                            Parsed {
                                value: ExpressionView::If {
                                    condition: Box::new(condition.value),
                                    consequence: Box::new(consequence.value),
                                    alternative: None,
                                },
                                state: consequence.state,
                            }
                        }
                    } else {
                        Parsed { value: placeholder(), state: braced.state }
                    }
                }
            } else {
                Parsed { value: placeholder(), state: opened.state }
            }
        }),
{
    reveal(parse_if_expression);
    reveal(parse_expression);
    reveal(parse_block_statement);
}

/// Each comma brings one more parameter; the closing parenthesis ends the list.
pub(crate) proof fn lemma_parse_parameters_loop(s: ParserView, names: Seq<ExpressionView>)
    ensures
        parse_parameters_loop(s, names) == ({
            if s.peek.kind == TokenKind::COMMA {
                let next = s.advance().advance();
                if next.weight() < s.weight() {
                    parse_parameters_loop(next, names.push(ExpressionView::Identifier(next.cur)))
                } else {
                    Parsed { value: names, state: next }
                }
            } else {
                let closed = s.expect_peek(TokenView::plain(TokenKind::RPAREN));
                if closed.value {
                    Parsed { value: names, state: closed.state }
                } else {
                    Parsed { value: Seq::empty(), state: closed.state }
                }
            }
        }),
{
    reveal(parse_parameters_loop);
}

/// A function is its parameters in parentheses and the block after them.
pub(crate) proof fn lemma_parse_function_literal(s: ParserView)
    ensures
        parse_function_literal(s) == ({
            let opened = s.expect_peek(TokenView::plain(TokenKind::LPAREN));
            if !opened.value {
                Parsed { value: placeholder(), state: opened.state }
            } else {
                let parameters = parse_function_parameters(opened.state);
                let braced = parameters.state.expect_peek(TokenView::plain(TokenKind::LBRACE));
                if !braced.value {
                    Parsed { value: placeholder(), state: braced.state }
                } else if braced.state.weight() <= s.weight() {
                    let body = parse_block_statement(braced.state);
                    Parsed {
                        value: ExpressionView::Fn {
                            parameters: parameters.value,
                            body: Box::new(body.value),
                        },
                        state: body.state,
                    }
                } else {
                    Parsed { value: placeholder(), state: braced.state }
                }
            }
        }),
{
    reveal(parse_function_literal);
    reveal(parse_block_statement);
}

/// A call is what is called and the arguments parsed after it.
pub(crate) proof fn lemma_parse_call_expression(s: ParserView, function: ExpressionView)
    ensures
        parse_call_expression(s, function) == ({
            let arguments = parse_call_arguments(s);
            Parsed {
                value: ExpressionView::Call {
                    token: s.cur,
                    function: Box::new(function),
                    arguments: arguments.value,
                },
                state: arguments.state,
            }
        }),
{
    reveal(parse_call_expression);
    reveal(parse_call_arguments);
}

/// The arguments are none, or a first one and those after it.
pub(crate) proof fn lemma_parse_call_arguments(s: ParserView)
    ensures
        parse_call_arguments(s) == ({
            if s.peek.kind == TokenKind::RPAREN {
                Parsed { value: Seq::empty(), state: s.advance() }
            } else if s.advance().weight() < s.weight() {
                let first = parse_expression(s.advance(), Precedence::LOWEST);
                if first.state.weight() < s.weight() {
                    parse_arguments_loop(first.state, seq![first.value])
                } else {
                    Parsed { value: Seq::empty(), state: first.state }
                }
            } else {
                Parsed { value: Seq::empty(), state: s.advance() }
            }
        }),
{
    reveal(parse_call_arguments);
    reveal(parse_expression);
    reveal(parse_arguments_loop);
}

/// Each comma brings one more argument; the closing parenthesis ends the list.
pub(crate) proof fn lemma_parse_arguments_loop(s: ParserView, arguments: Seq<ExpressionView>)
    ensures
        parse_arguments_loop(s, arguments) == ({
            if s.peek.kind == TokenKind::COMMA {
                let next = s.advance().advance();
                if next.weight() < s.weight() {
                    let argument = parse_expression(next, Precedence::LOWEST);
                    if argument.state.weight() < s.weight() {
                        parse_arguments_loop(argument.state, arguments.push(argument.value))
                    } else {
                        Parsed { value: arguments, state: argument.state }
                    }
                } else {
                    Parsed { value: arguments, state: next }
                }
            } else {
                let closed = s.expect_peek(TokenView::plain(TokenKind::RPAREN));
                if closed.value {
                    Parsed { value: arguments, state: closed.state }
                } else {
                    Parsed { value: Seq::empty(), state: closed.state }
                }
            }
        }),
{
    reveal(parse_arguments_loop);
    reveal(parse_expression);
}

/// A block is the statements after its opening brace.
pub(crate) proof fn lemma_parse_block_statement(s: ParserView)
    ensures
        parse_block_statement(s) == ({
            if s.advance().weight() < s.weight() {
                let body = parse_block_loop(s.advance(), Seq::empty());
                Parsed { value: StatementView::Block { statements: body.value }, state: body.state }
            } else {
                Parsed { value: StatementView::Block { statements: Seq::empty() }, state: s.advance() }
            }
        }),
{
    reveal(parse_block_statement);
    reveal(parse_block_loop);
}

/// A block goes on, statement by statement, to its closing brace or the end of the text.
pub(crate) proof fn lemma_parse_block_loop(s: ParserView, statements: Seq<StatementView>)
    ensures
        parse_block_loop(s, statements) == ({
            if s.cur.kind == TokenKind::RBRACE || s.cur.kind == TokenKind::EOF {
                Parsed { value: statements, state: s }
            } else {
                let statement = parse_statement(s);
                let next = statement.state.advance();
                let grown = match statement.value {
                    Some(parsed) => statements.push(parsed),
                    None => statements,
                };
                if next.weight() < s.weight() {
                    parse_block_loop(next, grown)
                } else {
                    Parsed { value: grown, state: next }
                }
            }
        }),
{
    reveal(parse_block_loop);
    reveal(parse_statement);
}

/// A statement goes by its first token.
pub(crate) proof fn lemma_parse_statement(s: ParserView)
    ensures
        parse_statement(s) == ({
            if s.cur.kind == TokenKind::LET {
                parse_let_statement(s)
            } else if s.cur.kind == TokenKind::RETURN {
                parse_return_statement(s)
            } else if s.cur.kind == TokenKind::IDENT && s.peek.kind == TokenKind::ASSIGN {
                parse_assign_statement(s)
            } else {
                parse_expression_statement(s)
            }
        }),
{
    reveal(parse_statement);
    reveal(parse_let_statement);
    reveal(parse_assign_statement);
    reveal(parse_return_statement);
    reveal(parse_expression_statement);
}

/// A binding is `let`, a name, `=`, and the expression after it.
pub(crate) proof fn lemma_parse_let_statement(s: ParserView)
    ensures
        parse_let_statement(s) == ({
            let named = s.expect_peek(TokenView::identifier(Seq::empty()));
            if !named.value {
                Parsed { value: None, state: named.state }
            } else {
                let assigned = named.state.expect_peek(TokenView::plain(TokenKind::ASSIGN));
                if !assigned.value {
                    Parsed { value: None, state: assigned.state }
                } else {
                    let value = parse_expression(assigned.state.advance(), Precedence::LOWEST);
                    Parsed {
                        value: Some(
                            StatementView::Let {
                                token: s.cur,
                                name: named.state.cur.literal(),
                                value: value.value,
                            },
                        ),
                        state: value.state.skip_semicolon(),
                    }
                }
            }
        }),
{
    reveal(parse_let_statement);
    reveal(parse_expression);
}

/// A binding without the keyword is a name, `=`, and the expression after it.
pub(crate) proof fn lemma_parse_assign_statement(s: ParserView)
    ensures
        parse_assign_statement(s) == ({
            let value = parse_expression(s.advance().advance(), Precedence::LOWEST);
            Parsed {
                value: Some(
                    StatementView::Let { token: s.peek, name: s.cur.literal(), value: value.value },
                ),
                state: value.state.skip_semicolon(),
            }
        }),
{
    reveal(parse_assign_statement);
    reveal(parse_expression);
}

/// A return is `return` and the expression after it.
pub(crate) proof fn lemma_parse_return_statement(s: ParserView)
    ensures
        parse_return_statement(s) == ({
            let value = parse_expression(s.advance(), Precedence::LOWEST);
            Parsed {
                value: Some(StatementView::Return { value: value.value }),
                state: value.state.skip_semicolon(),
            }
        }),
{
    reveal(parse_return_statement);
    reveal(parse_expression);
}

/// An expression statement is an expression, and a semicolon if one follows.
pub(crate) proof fn lemma_parse_expression_statement(s: ParserView)
    ensures
        parse_expression_statement(s) == ({
            let expression = parse_expression(s, Precedence::LOWEST);
            Parsed {
                value: Some(StatementView::Expression { expression: expression.value }),
                state: expression.state.skip_semicolon(),
            }
        }),
{
    reveal(parse_expression_statement);
    reveal(parse_expression);
}

/// A program goes on, statement by statement, to the first `EOF`.
pub(crate) proof fn lemma_parse_program_loop(s: ParserView, statements: Seq<StatementView>)
    ensures
        parse_program_loop(s, statements) == ({
            if s.cur.kind == TokenKind::EOF {
                Parsed { value: statements, state: s }
            } else {
                let statement = parse_statement(s);
                let next = statement.state.advance();
                let grown = match statement.value {
                    Some(parsed) => statements.push(parsed),
                    None => statements,
                };
                if next.weight() < s.weight() {
                    parse_program_loop(next, grown)
                } else {
                    Parsed { value: grown, state: next }
                }
            }
        }),
{
    reveal(parse_program_loop);
    reveal(parse_statement);
}

/// The parser that has just been made for a lexer over `source` with its
/// cursor at `cursor`: it has taken the first two tokens.
pub open spec fn start(source: Seq<char>, cursor: int) -> ParserView {
    ParserView {
        cur: TokenView::plain(TokenKind::EOF),
        peek: TokenView::plain(TokenKind::EOF),
        source,
        cursor,
        errors: Seq::empty(),
    }.advance().advance()
}

/// The statements and the errors that parsing the whole of `source` gives.
pub open spec fn parse_source(source: Seq<char>) -> (Seq<StatementView>, Seq<Seq<char>>) {
    let parsed = parse_program_loop(start(source, 0), Seq::empty());
    (parsed.value, parsed.state.errors)
}

/// The lines of a report on the first `n` of `errors`, one line for each.
pub open spec fn error_lines(errors: Seq<Seq<char>>, n: nat) -> Seq<char>
    decreases n,
{
    if n == 0 || n > errors.len() {
        Seq::empty()
    } else {
        error_lines(errors, (n - 1) as nat) + "Parser error: "@ + errors[n - 1] + "\n"@
    }
}

/// The report on a list of errors: how many there are, then each of them.
pub open spec fn error_report(errors: Seq<Seq<char>>) -> Seq<char> {
    "\nParser has "@ + natural_text(errors.len()) + " errors\n"@ + error_lines(
        errors,
        errors.len(),
    )
}

/// The texts of a list of messages.
pub open spec fn texts(messages: Seq<String>) -> Seq<Seq<char>> {
    Seq::new(messages.len(), |i: int| messages[i]@)
}

/// The tree of a statement that may be missing.
pub open spec fn optional_statement_view(statement: Option<Box<StatementType>>) -> Option<
    StatementView,
> {
    match statement {
        Some(statement) => Some(statement_view(*statement)),
        None => None,
    }
}

#[derive(Debug)]
pub struct Parser {
    l: Lexer,
    errors: Vec<String>,
    cur_token: Token,
    peek_token: Token,
}

impl View for Parser {
    type V = ParserView;

    closed spec fn view(&self) -> ParserView {
        ParserView {
            cur: self.cur_token@,
            peek: self.peek_token@,
            source: self.l@.source,
            cursor: self.l@.cursor,
            errors: texts(self.errors@),
        }
    }
}

impl Parser {
    /// A parser over the tokens of `l`, with the first two already taken.
    pub fn new(l: Lexer) -> (parser: Parser)
        ensures
            parser@ == start(l@.source, l@.cursor),
    {
        let mut parser = Parser {
            l,
            errors: Vec::new(),
            cur_token: Token::EOF,
            peek_token: Token::EOF,
        };
        assert(parser@.errors =~= Seq::<Seq<char>>::empty());
        parser.next_token();
        parser.next_token();
        parser
    }

    /// An identifier for the current token.
    pub fn parse_identifier(&self) -> (e: Box<ExpressionType>)
        ensures
            expression_view(*e) == ExpressionView::Identifier(self@.cur),
    {
        Box::new(ExpressionType::Identifier(Identifier { token: self.cur_token.clone() }))
    }

    /// An integer literal for the current token.
    pub fn parse_integer_literal(&self) -> (e: Box<ExpressionType>)
        ensures
            expression_view(*e) == ExpressionView::IntegerLiteral(self@.cur),
    {
        Box::new(ExpressionType::IntegerLiteral(IntegerLiteral { token: self.cur_token.clone() }))
    }

    /// A string literal for the current token.
    pub fn parse_string_literal(&self) -> (e: Box<ExpressionType>)
        ensures
            expression_view(*e) == ExpressionView::StringLiteral(self@.cur),
    {
        Box::new(ExpressionType::StringLiteral(StringLiteral { token: self.cur_token.clone() }))
    }

    /// A boolean for the current token.
    pub fn parse_boolean(&self) -> (e: Box<ExpressionType>)
        ensures
            expression_view(*e) == ExpressionView::Boolean(self@.cur),
    {
        Box::new(ExpressionType::Boolean(Boolean { token: self.cur_token.clone() }))
    }

    /// The expression that stands where none could be parsed.
    fn placeholder_expression() -> (e: Box<ExpressionType>)
        ensures
            expression_view(*e) == placeholder(),
    {
        Box::new(ExpressionType::Identifier(Identifier { token: Token::EOF }))
    }

    fn parse_grouped_expression(&mut self) -> (e: Box<ExpressionType>)
        requires
            old(self)@.cur.kind != TokenKind::EOF,
        ensures
            expression_view(*e) == parse_grouped_expression(old(self)@).value,
            final(self)@ == parse_grouped_expression(old(self)@).state,
            old(self)@.leads_to(final(self)@),
        decreases old(self)@.weight(), 2nat,
    {
        proof {
            lemma_parse_grouped_expression(self@);
        }
        self.next_token();
        let exp = self.parse_expression(Precedence::LOWEST);
        if !self.expect_peek(&Token::RPAREN) {
            return Self::placeholder_expression();
        }
        exp
    }

    fn parse_block_statement(&mut self) -> (block: Box<StatementType>)
        requires
            old(self)@.cur.kind != TokenKind::EOF,
        ensures
            statement_view(*block) == parse_block_statement(old(self)@).value,
            final(self)@ == parse_block_statement(old(self)@).state,
            old(self)@.leads_to(final(self)@),
        decreases old(self)@.weight(), 1nat,
    {
        proof {
            lemma_parse_block_statement(self@);
        }
        self.next_token();
        let ghost first = self@;
        let mut statements: Vec<Box<StatementType>> = Vec::new();
        assert(statements_view(statements@) =~= Seq::<StatementView>::empty());
        while !self.cur_token_is(Token::RBRACE) && !self.cur_token_is(Token::EOF)
            invariant
                parse_block_loop(self@, statements_view(statements@)) == parse_block_loop(
                    first,
                    Seq::empty(),
                ),
                self@.weight() <= first.weight(),
                first.weight() < old(self)@.weight(),
            decreases self@.weight(),
        {
            proof {
                lemma_parse_block_loop(self@, statements_view(statements@));
            }
            let ghost parsed = statements_view(statements@);
            match self.parse_statement() {
                Some(stmt) => {
                    let ghost tree = statement_view(*stmt);
                    statements.push(stmt);
                    assert(statements_view(statements@) =~= parsed.push(tree));
                },
                None => {},
            }
            self.next_token();
        }
        proof {
            lemma_parse_block_loop(self@, statements_view(statements@));
        }
        let block = Box::new(StatementType::Block(BlockStatement { statements }));
        assert(statement_view(*block)->Block_statements =~= statements_view(statements@));
        block
    }

    fn parse_if_expression(&mut self) -> (e: Box<ExpressionType>)
        ensures
            expression_view(*e) == parse_if_expression(old(self)@).value,
            final(self)@ == parse_if_expression(old(self)@).state,
            old(self)@.leads_to(final(self)@),
        decreases old(self)@.weight(), 2nat,
    {
        proof {
            lemma_parse_if_expression(self@);
        }
        if !self.expect_peek(&Token::LPAREN) {
            return Self::placeholder_expression();
        }
        self.next_token();
        let condition = self.parse_expression(Precedence::LOWEST);
        if !self.expect_peek(&Token::RPAREN) {
            return Self::placeholder_expression();
        }
        if !self.expect_peek(&Token::LBRACE) {
            return Self::placeholder_expression();
        }
        let consequence = self.parse_block_statement();
        let mut alternative: Option<Box<StatementType>> = None;
        if self.peek_token_is(Token::ELSE) {
            self.next_token();
            if !self.expect_peek(&Token::LBRACE) {
                return Self::placeholder_expression();
            }
            alternative = Some(self.parse_block_statement());
        }
        Box::new(ExpressionType::If(IfExpression { condition, consequence, alternative }))
    }

    fn parse_function_parameters(&mut self) -> (identifiers: Vec<Box<ExpressionType>>)
        ensures
            expressions_view(identifiers@) == parse_function_parameters(old(self)@).value,
            final(self)@ == parse_function_parameters(old(self)@).state,
            old(self)@.leads_to(final(self)@),
    {
        let mut identifiers: Vec<Box<ExpressionType>> = Vec::new();
        if self.peek_token_is(Token::RPAREN) {
            self.next_token();
            assert(expressions_view(identifiers@) =~= Seq::<ExpressionView>::empty());
            return identifiers;
        }
        self.next_token();
        let ghost first = self@;
        identifiers.push(self.parse_identifier());
        assert(expressions_view(identifiers@) =~= seq![ExpressionView::Identifier(first.cur)]);
        while self.peek_token_is(Token::COMMA)
            invariant
                parse_parameters_loop(self@, expressions_view(identifiers@))
                    == parse_parameters_loop(first, seq![ExpressionView::Identifier(first.cur)]),
                first.leads_to(self@),
            decreases self@.weight(),
        {
            proof {
                lemma_parse_parameters_loop(self@, expressions_view(identifiers@));
            }
            let ghost names = expressions_view(identifiers@);
            self.next_token();
            self.next_token();
            identifiers.push(self.parse_identifier());
            assert(expressions_view(identifiers@) =~= names.push(
                ExpressionView::Identifier(self@.cur),
            ));
        }
        proof {
            lemma_parse_parameters_loop(self@, expressions_view(identifiers@));
        }
        if !self.expect_peek(&Token::RPAREN) {
            let none: Vec<Box<ExpressionType>> = Vec::new();
            assert(expressions_view(none@) =~= Seq::<ExpressionView>::empty());
            return none;
        }
        identifiers
    }

    fn parse_function_literal(&mut self) -> (e: Box<ExpressionType>)
        ensures
            expression_view(*e) == parse_function_literal(old(self)@).value,
            final(self)@ == parse_function_literal(old(self)@).state,
            old(self)@.leads_to(final(self)@),
        decreases old(self)@.weight(), 2nat,
    {
        proof {
            lemma_parse_function_literal(self@);
        }
        if !self.expect_peek(&Token::LPAREN) {
            return Self::placeholder_expression();
        }
        let parameters = self.parse_function_parameters();
        if !self.expect_peek(&Token::LBRACE) {
            return Self::placeholder_expression();
        }
        let body = self.parse_block_statement();
        let ghost names = expressions_view(parameters@);
        let e = Box::new(ExpressionType::Fn(FunctionLiteral { parameters, body }));
        assert(expression_view(*e)->Fn_parameters =~= names);
        e
    }

    fn parse_call_expression(&mut self, function: Box<ExpressionType>) -> (e: Box<
        ExpressionType,
    >)
        requires
            old(self)@.cur.kind != TokenKind::EOF,
        ensures
            expression_view(*e) == parse_call_expression(
                old(self)@,
                expression_view(*function),
            ).value,
            final(self)@ == parse_call_expression(old(self)@, expression_view(*function)).state,
            old(self)@.leads_to(final(self)@),
            final(self)@.weight() < old(self)@.weight(),
        decreases old(self)@.weight(), 2nat,
    {
        proof {
            lemma_parse_call_expression(self@, expression_view(*function));
        }
        let token = self.cur_token.clone();
        let arguments = self.parse_call_arguments();
        let ghost trees = expressions_view(arguments@);
        let e = Box::new(ExpressionType::Call(CallExpression { token, function, arguments }));
        assert(expression_view(*e)->Call_arguments =~= trees);
        e
    }

    fn parse_call_arguments(&mut self) -> (arguments: Vec<Box<ExpressionType>>)
        requires
            old(self)@.cur.kind != TokenKind::EOF,
        ensures
            expressions_view(arguments@) == parse_call_arguments(old(self)@).value,
            final(self)@ == parse_call_arguments(old(self)@).state,
            old(self)@.leads_to(final(self)@),
            final(self)@.weight() < old(self)@.weight(),
        decreases old(self)@.weight(), 1nat,
    {
        proof {
            lemma_parse_call_arguments(self@);
        }
        let mut arguments: Vec<Box<ExpressionType>> = Vec::new();
        if self.peek_token_is(Token::RPAREN) {
            self.next_token();
            assert(expressions_view(arguments@) =~= Seq::<ExpressionView>::empty());
            return arguments;
        }
        self.next_token();
        let first = self.parse_expression(Precedence::LOWEST);
        let ghost first_tree = expression_view(*first);
        let ghost after_first = self@;
        arguments.push(first);
        assert(expressions_view(arguments@) =~= seq![first_tree]);
        while self.peek_token_is(Token::COMMA)
            invariant
                parse_arguments_loop(self@, expressions_view(arguments@)) == parse_arguments_loop(
                    after_first,
                    seq![first_tree],
                ),
                self@.weight() <= after_first.weight(),
                after_first.weight() < old(self)@.weight(),
            decreases self@.weight(),
        {
            proof {
                lemma_parse_arguments_loop(self@, expressions_view(arguments@));
            }
            let ghost trees = expressions_view(arguments@);
            self.next_token();
            self.next_token();
            let argument = self.parse_expression(Precedence::LOWEST);
            let ghost tree = expression_view(*argument);
            arguments.push(argument);
            assert(expressions_view(arguments@) =~= trees.push(tree));
        }
        proof {
            lemma_parse_arguments_loop(self@, expressions_view(arguments@));
        }
        if !self.expect_peek(&Token::RPAREN) {
            let none: Vec<Box<ExpressionType>> = Vec::new();
            assert(expressions_view(none@) =~= Seq::<ExpressionView>::empty());
            return none;
        }
        arguments
    }

    /// The binding strength of the next token.
    pub fn peek_precedence(&self) -> (p: Precedence)
        ensures
            p == precedence_of(self@.peek.kind),
    {
        self.peek_token.to_precedence()
    }

    /// The binding strength of the current token.
    pub fn cur_precedence(&self) -> (p: Precedence)
        ensures
            p == precedence_of(self@.cur.kind),
    {
        self.cur_token.to_precedence()
    }

    /// Takes one more token from the lexer: the next token becomes the
    /// current one.
    fn next_token(&mut self)
        ensures
            final(self)@ == old(self)@.advance(),
            old(self)@.leads_to(final(self)@),
            old(self)@.cur.kind != TokenKind::EOF ==> final(self)@.weight() < old(self)@.weight(),
    {
        proof {
            lemma_advance(self@);
        }
        self.cur_token = self.peek_token.clone();
        self.peek_token = self.l.next_token();
    }

    fn cur_token_is(&self, t: Token) -> (same: bool)
        ensures
            same == (self@.cur.kind == t@.kind),
    {
        self.cur_token.is(t)
    }

    fn peek_token_is(&self, t: Token) -> (same: bool)
        ensures
            same == (self@.peek.kind == t@.kind),
    {
        self.peek_token.is(t)
    }

    /// Moves on to the next token if it is of the kind of `t`; records an
    /// error and stays otherwise.
    fn expect_peek(&mut self, t: &Token) -> (found: bool)
        ensures
            found == old(self)@.expect_peek(t@).value,
            final(self)@ == old(self)@.expect_peek(t@).state,
            old(self)@.leads_to(final(self)@),
            found ==> final(self)@.cur.kind == t@.kind,
    {
        if self.peek_token_is(t.clone()) {
            self.next_token();
            true
        } else {
            self.peek_error(t);
            false
        }
    }

    fn parse_statement(&mut self) -> (statement: Option<Box<StatementType>>)
        ensures
            optional_statement_view(statement) == parse_statement(old(self)@).value,
            final(self)@ == parse_statement(old(self)@).state,
            old(self)@.leads_to(final(self)@),
        decreases old(self)@.weight(), 7nat,
    {
        proof {
            lemma_parse_statement(self@);
        }
        if self.cur_token_is(Token::LET) {
            self.parse_let_statement()
        } else if self.cur_token_is(Token::RETURN) {
            self.parse_return_statement()
        } else if self.cur_token_is(Token::IDENT(String::new())) && self.peek_token_is(
            Token::ASSIGN,
        ) {
            self.parse_assign_statement()
        } else {
            self.parse_expression_statement()
        }
    }

    fn parse_let_statement(&mut self) -> (statement: Option<Box<StatementType>>)
        ensures
            optional_statement_view(statement) == parse_let_statement(old(self)@).value,
            final(self)@ == parse_let_statement(old(self)@).state,
            old(self)@.leads_to(final(self)@),
        decreases old(self)@.weight(), 6nat,
    {
        proof {
            lemma_parse_let_statement(self@);
        }
        let token = self.cur_token.clone();
        if !self.expect_peek(&Token::IDENT(String::new())) {
            return None;
        }
        let name = self.cur_token.to_string();
        if !self.expect_peek(&Token::ASSIGN) {
            return None;
        }
        self.next_token();
        let value = self.parse_expression(Precedence::LOWEST);
        if self.peek_token_is(Token::SEMICOLON) {
            self.next_token();
        }
        Some(Box::new(StatementType::Let(LetStatement { token, name, value })))
    }

    fn parse_assign_statement(&mut self) -> (statement: Option<Box<StatementType>>)
        ensures
            optional_statement_view(statement) == parse_assign_statement(old(self)@).value,
            final(self)@ == parse_assign_statement(old(self)@).state,
            old(self)@.leads_to(final(self)@),
        decreases old(self)@.weight(), 6nat,
    {
        proof {
            lemma_parse_assign_statement(self@);
        }
        let name = self.cur_token.to_string();
        self.next_token();
        let token = self.cur_token.clone();
        self.next_token();
        let value = self.parse_expression(Precedence::LOWEST);
        if self.peek_token_is(Token::SEMICOLON) {
            self.next_token();
        }
        Some(Box::new(StatementType::Let(LetStatement { token, name, value })))
    }

    fn parse_return_statement(&mut self) -> (statement: Option<Box<StatementType>>)
        ensures
            optional_statement_view(statement) == parse_return_statement(old(self)@).value,
            final(self)@ == parse_return_statement(old(self)@).state,
            old(self)@.leads_to(final(self)@),
        decreases old(self)@.weight(), 6nat,
    {
        proof {
            lemma_parse_return_statement(self@);
        }
        self.next_token();
        let value = self.parse_expression(Precedence::LOWEST);
        if self.peek_token_is(Token::SEMICOLON) {
            self.next_token();
        }
        Some(Box::new(StatementType::Return(ReturnStatement { value })))
    }

    fn parse_expression_statement(&mut self) -> (statement: Option<Box<StatementType>>)
        ensures
            optional_statement_view(statement) == parse_expression_statement(old(self)@).value,
            final(self)@ == parse_expression_statement(old(self)@).state,
            old(self)@.leads_to(final(self)@),
        decreases old(self)@.weight(), 6nat,
    {
        proof {
            lemma_parse_expression_statement(self@);
        }
        let expression = self.parse_expression(Precedence::LOWEST);
        if self.peek_token_is(Token::SEMICOLON) {
            self.next_token();
        }
        Some(Box::new(StatementType::Expression(ExpressionStatement { expression })))
    }

    /// Records one more error.
    fn record(&mut self, message: String)
        ensures
            final(self)@ == old(self)@.with_error(message@),
    {
        self.errors.push(message);
        assert(final(self)@.errors =~= old(self)@.errors.push(message@));
    }

    /// Records that no expression starts with `t`.
    pub fn no_prefix_parse_fn_error(&mut self, t: Token)
        ensures
            final(self)@ == old(self)@.with_error(no_prefix_text(t@)),
    {
        let mut msg = String::from_str("no prefix parse function for ");
        let literal = t.to_string();
        msg.append(literal.as_str());
        msg.append(" found");
        self.record(msg);
    }

    fn parse_prefix_expression(&mut self) -> (e: Box<ExpressionType>)
        requires
            old(self)@.cur.kind != TokenKind::EOF,
        ensures
            expression_view(*e) == parse_prefix_expression(old(self)@).value,
            final(self)@ == parse_prefix_expression(old(self)@).state,
            old(self)@.leads_to(final(self)@),
        decreases old(self)@.weight(), 2nat,
    {
        proof {
            lemma_parse_prefix_expression(self@);
        }
        let token = self.cur_token.clone();
        self.next_token();
        let right = self.parse_expression(Precedence::PREFIX);
        Box::new(ExpressionType::Prefix(PrefixExpression { operator: token, right }))
    }

    /// Parses the right operand of the infix operator that is the current
    /// token, and joins it with `left`.
    pub fn parse_infix_expression(&mut self, left: Box<ExpressionType>) -> (e: Box<
        ExpressionType,
    >)
        requires
            old(self)@.cur.kind != TokenKind::EOF,
        ensures
            expression_view(*e) == parse_infix_expression(
                old(self)@,
                expression_view(*left),
            ).value,
            final(self)@ == parse_infix_expression(old(self)@, expression_view(*left)).state,
            old(self)@.leads_to(final(self)@),
            final(self)@.weight() < old(self)@.weight(),
        decreases old(self)@.weight(), 2nat,
    {
        proof {
            lemma_parse_infix_expression(self@, expression_view(*left));
        }
        let token = self.cur_token.clone();
        let precedence = self.cur_precedence();
        self.next_token();
        let right = self.parse_expression(precedence);
        Box::new(ExpressionType::Infix(InfixExpression { operator: token, left, right }))
    }

    fn parse_expression(&mut self, precedence: Precedence) -> (e: Box<ExpressionType>)
        ensures
            expression_view(*e) == parse_expression(old(self)@, precedence).value,
            final(self)@ == parse_expression(old(self)@, precedence).state,
            old(self)@.leads_to(final(self)@),
        decreases old(self)@.weight(), 5nat,
    {
        proof {
            lemma_parse_expression(self@, precedence);
            lemma_parse_prefix(self@);
        }
        let mut left_exp = match self.cur_token.to_original_type() {
            TokenKind::IDENT => self.parse_identifier(),
            TokenKind::INT => self.parse_integer_literal(),
            TokenKind::STRING => self.parse_string_literal(),
            TokenKind::TRUE => self.parse_boolean(),
            TokenKind::FALSE => self.parse_boolean(),
            TokenKind::BANG => self.parse_prefix_expression(),
            TokenKind::MINUS => self.parse_prefix_expression(),
            TokenKind::LPAREN => self.parse_grouped_expression(),
            TokenKind::IF => self.parse_if_expression(),
            TokenKind::FUNCTION => self.parse_function_literal(),
            _ => {
                self.no_prefix_parse_fn_error(self.cur_token.clone());
                return Self::placeholder_expression();
            },
        };
        let ghost first = self@;
        let ghost first_tree = expression_view(*left_exp);
        assert(first == parse_prefix(old(self)@).state);
        assert(first_tree == parse_prefix(old(self)@).value);
        while !self.peek_token_is(Token::SEMICOLON) && precedence.to_int()
            < self.peek_precedence().to_int()
            invariant
                parse_infix_loop(self@, precedence, expression_view(*left_exp))
                    == parse_infix_loop(first, precedence, first_tree),
                old(self)@.leads_to(self@),
            decreases self@.weight(),
        {
            proof {
                lemma_parse_infix_loop(self@, precedence, expression_view(*left_exp));
            }
            self.next_token();
            left_exp = if self.cur_token_is(Token::LPAREN) {
                self.parse_call_expression(left_exp)
            } else {
                self.parse_infix_expression(left_exp)
            };
        }
        proof {
            lemma_parse_infix_loop(self@, precedence, expression_view(*left_exp));
        }
        left_exp
    }

    /// Parses the program: every statement up to the end of the text. What
    /// could not be parsed is found among the errors afterwards.
    pub fn parse_program(&mut self) -> (program: Program)
        ensures
            program@.statements == parse_program_loop(old(self)@, Seq::empty()).value,
            final(self)@ == parse_program_loop(old(self)@, Seq::empty()).state,
            final(self)@.cur.kind == TokenKind::EOF,
    {
        let mut statements: Vec<Box<StatementType>> = Vec::new();
        assert(statements_view(statements@) =~= Seq::<StatementView>::empty());
        while !self.cur_token_is(Token::EOF)
            invariant
                parse_program_loop(self@, statements_view(statements@)) == parse_program_loop(
                    old(self)@,
                    Seq::empty(),
                ),
            decreases self@.weight(),
        {
            proof {
                lemma_parse_program_loop(self@, statements_view(statements@));
            }
            let ghost parsed = statements_view(statements@);
            match self.parse_statement() {
                Some(stmt) => {
                    let ghost tree = statement_view(*stmt);
                    statements.push(stmt);
                    assert(statements_view(statements@) =~= parsed.push(tree));
                },
                None => {},
            }
            self.next_token();
        }
        proof {
            lemma_parse_program_loop(self@, statements_view(statements@));
        }
        Program { statements }
    }

    /// The errors recorded so far, oldest first.
    pub fn errors(&self) -> (errors: Vec<String>)
        ensures
            texts(errors@) == self@.errors,
    {
        let mut errors: Vec<String> = Vec::new();
        let mut i: usize = 0;
        while i < self.errors.len()
            invariant
                i <= self.errors.len(),
                errors@.len() == i,
                forall|j: int| 0 <= j < i ==> errors@[j]@ == self.errors@[j]@,
            decreases self.errors.len() - i,
        {
            errors.push(self.errors[i].clone());
            i = i + 1;
        }
        assert(texts(errors@) =~= texts(self.errors@));
        errors
    }

    /// Nothing where no error is recorded, and else a report on the errors.
    pub fn check_parser_errors(&self) -> (result: Result<(), String>)
        ensures
            match result {
                Ok(_) => self@.errors.len() == 0,
                Err(report) => self@.errors.len() > 0 && report@ == error_report(self@.errors),
            },
    {
        if self.errors.len() == 0 {
            return Ok(());
        }
        let mut error_msg = String::from_str("\nParser has ");
        let count = usize_to_string(self.errors.len());
        error_msg.append(count.as_str());
        error_msg.append(" errors\n");
        let ghost head = error_msg@;
        let mut i: usize = 0;
        while i < self.errors.len()
            invariant
                i <= self.errors.len(),
                error_msg@ == head + error_lines(self@.errors, i as nat),
            decreases self.errors.len() - i,
        {
            error_msg.append("Parser error: ");
            error_msg.append(self.errors[i].as_str());
            error_msg.append("\n");
            assert(error_msg@ =~= head + error_lines(self@.errors, (i + 1) as nat));
            i = i + 1;
        }
        Err(error_msg)
    }

    /// Records that the next token is not of the kind of `expected`.
    fn peek_error(&mut self, expected: &Token)
        ensures
            final(self)@ == old(self)@.with_error(peek_error_text(expected@, old(self)@.peek)),
    {
        let mut msg = String::from_str("expected next token to be ");
        let wanted = expected.to_string();
        msg.append(wanted.as_str());
        msg.append(", got ");
        let found = self.peek_token.to_string();
        msg.append(found.as_str());
        msg.append(" instead");
        self.record(msg);
    }
}

} // verus!
