//! Writing and reading back. The canonical text of a program that binds
//! and returns expressions made of names, numbers, booleans, operators and
//! calls parses to the same program again; and the tokens of a text, written
//! out with a space between each two, are read as the same tokens again.

use crate::ast::{
    binding_prefix, expression_text, joined_text, program_text, statement_text, ExpressionView,
    StatementView,
};
use crate::decimal::{decimal_text, is_digit, lemma_digits_of_natural_text, natural_text};
use crate::lexer::{
    char_at, keyword_kind, lemma_run_end, lemma_scan_token_advances, lemma_scan_token_at_end,
    lemma_token_gives_source_back, number_token, plainly_written, punctuator, remaining,
    run_end, scan_token, step, word_token, written_form, CharClass,
};
use crate::parser::{
    lemma_advance, lemma_parse_arguments_loop, lemma_parse_assign_statement,
    lemma_parse_call_arguments, lemma_parse_call_expression, lemma_parse_expression,
    lemma_parse_expression_statement, lemma_parse_grouped_expression,
    lemma_parse_infix_expression, lemma_parse_infix_loop, lemma_parse_let_statement,
    lemma_parse_prefix, lemma_parse_prefix_expression, lemma_parse_program_loop,
    lemma_parse_return_statement, lemma_parse_statement, parse_arguments_loop,
    parse_expression, parse_infix_loop, parse_prefix, parse_program_loop, parse_source,
    parse_statement, start, Parsed, ParserView,
};
use crate::token::{precedence_of, Precedence, TokenKind, TokenView};
use vstd::prelude::*;

verus! {

/// The kinds of token that stand between two operands.
pub open spec fn is_infix_operator(kind: TokenKind) -> bool {
    kind == TokenKind::PLUS || kind == TokenKind::MINUS || kind == TokenKind::SLASH || kind
        == TokenKind::ASTERISK || kind == TokenKind::EQ || kind == TokenKind::NOT_EQ || kind
        == TokenKind::LT || kind == TokenKind::GT
}

/// The kinds of token that stand before one operand.
pub open spec fn is_prefix_operator(kind: TokenKind) -> bool {
    kind == TokenKind::BANG || kind == TokenKind::MINUS
}

/// The cursor of a lexer over `source` after it has handed out `k` tokens.
pub open spec fn cursor_after(source: Seq<char>, k: int) -> int
    decreases k,
{
    if k <= 0 {
        0
    } else {
        scan_token(source, cursor_after(source, k - 1)).1
    }
}

/// The token of `source` at place `k`, counted from 0.
pub open spec fn token_at(source: Seq<char>, k: int) -> TokenView {
    scan_token(source, cursor_after(source, k)).0
}

/// The parser over `source` whose current token is the one at place `k`,
/// and which has recorded no error.
pub open spec fn state_at(source: Seq<char>, k: int) -> ParserView {
    ParserView {
        cur: token_at(source, k),
        peek: token_at(source, k + 1),
        source,
        cursor: cursor_after(source, k + 2),
        errors: Seq::empty(),
    }
}

/// Whether the tokens of `source` from place `k` on are `tokens`.
pub open spec fn tokens_at(source: Seq<char>, k: int, tokens: Seq<TokenView>) -> bool {
    forall|i: int|
        0 <= i < tokens.len() ==> token_at(source, k + i) == #[trigger] tokens[i]
}

proof fn lemma_state_advance(source: Seq<char>, k: int)
    requires
        0 <= k,
    ensures
        state_at(source, k).advance() == state_at(source, k + 1),
        state_at(source, k + 1).weight() <= state_at(source, k).weight(),
        token_at(source, k).kind != TokenKind::EOF ==> state_at(source, k + 1).weight()
            < state_at(source, k).weight(),
{
    reveal_with_fuel(cursor_after, 2);
    lemma_advance(state_at(source, k));
}

proof fn lemma_weight_falls(source: Seq<char>, i: int, j: int)
    requires
        0 <= i <= j,
    ensures
        state_at(source, j).weight() <= state_at(source, i).weight(),
        i < j && token_at(source, i).kind != TokenKind::EOF ==> state_at(source, j).weight()
            < state_at(source, i).weight(),
    decreases j - i,
{
    if i < j {
        lemma_state_advance(source, i);
        lemma_weight_falls(source, i + 1, j);
    }
}

proof fn lemma_tokens_at_part(
    source: Seq<char>,
    k: int,
    whole: Seq<TokenView>,
    offset: int,
    part: Seq<TokenView>,
)
    requires
        tokens_at(source, k, whole),
        0 <= offset,
        offset + part.len() <= whole.len(),
        whole.subrange(offset, offset + part.len()) == part,
    ensures
        tokens_at(source, k + offset, part),
{
    assert forall|i: int| 0 <= i < part.len() implies token_at(source, k + offset + i)
        == #[trigger] part[i] by {
        assert(part[i] == whole[offset + i]);
    }
}

/// Whether a text is a name: letters and underscores, at least one, that
/// do not spell a keyword.
pub open spec fn is_name(text: Seq<char>) -> bool {
    &&& text.len() >= 1
    &&& forall|i: int| 0 <= i < text.len() ==> CharClass::Letter.holds(#[trigger] text[i])
    &&& keyword_kind(text) is None
}

/// The expressions that are made of names, numbers that are not negative,
/// booleans, prefix and infix operations and calls, with the tokens that
/// the lexer makes.
pub open spec fn plain(e: ExpressionView) -> bool
    decreases e,
{
    match e {
        ExpressionView::Identifier(token) => token == TokenView::identifier(token.text)
            && is_name(token.text),
        ExpressionView::IntegerLiteral(token) => token == TokenView::integer(token.number)
            && token.number >= 0,
        ExpressionView::Boolean(token) => token == TokenView::plain(TokenKind::TRUE) || token
            == TokenView::plain(TokenKind::FALSE),
        ExpressionView::Prefix { operator, right } => is_prefix_operator(operator.kind)
            && operator == TokenView::plain(operator.kind) && plain(*right),
        ExpressionView::Infix { operator, left, right } => is_infix_operator(operator.kind)
            && operator == TokenView::plain(operator.kind) && plain(*left) && plain(*right),
        ExpressionView::Call { token, function, arguments } => token == TokenView::plain(
            TokenKind::LPAREN,
        ) && plain(*function) && forall|i: int|
            0 <= i < arguments.len() ==> plain(#[trigger] arguments[i]),
        _ => false,
    }
}

/// The tokens of the canonical text of a plain expression.
pub open spec fn tokens_of(e: ExpressionView) -> Seq<TokenView>
    decreases e, 0nat,
{
    match e {
        ExpressionView::Identifier(token) => seq![token],
        ExpressionView::IntegerLiteral(token) => seq![token],
        ExpressionView::Boolean(token) => seq![token],
        ExpressionView::Prefix { operator, right } => seq![
            TokenView::plain(TokenKind::LPAREN),
            operator,
        ] + tokens_of(*right) + seq![TokenView::plain(TokenKind::RPAREN)],
        ExpressionView::Infix { operator, left, right } => seq![
            TokenView::plain(TokenKind::LPAREN),
        ] + tokens_of(*left) + seq![operator] + tokens_of(*right) + seq![
            TokenView::plain(TokenKind::RPAREN),
        ],
        ExpressionView::Call { token, function, arguments } => tokens_of(*function) + seq![
            TokenView::plain(TokenKind::LPAREN),
        ] + tokens_of_list(arguments, arguments.len()) + seq![
            TokenView::plain(TokenKind::RPAREN),
        ],
        _ => Seq::empty(),
    }
}

/// The tokens of the texts of the first `n` of `items`, with a comma
/// between each two.
pub open spec fn tokens_of_list(items: Seq<ExpressionView>, n: nat) -> Seq<TokenView>
    decreases items, n,
{
    if n == 0 || n > items.len() {
        Seq::empty()
    } else if n == 1 {
        tokens_of(items[0])
    } else {
        tokens_of_list(items, (n - 1) as nat) + seq![TokenView::plain(TokenKind::COMMA)]
            + tokens_of(items[n - 1])
    }
}

/// Whether a token can start a plain expression.
pub open spec fn starts_plain(token: TokenView) -> bool {
    token.kind == TokenKind::IDENT || token.kind == TokenKind::INT || token.kind
        == TokenKind::TRUE || token.kind == TokenKind::FALSE || token.kind == TokenKind::LPAREN
}

/// A plain expression has tokens, the first of which can start one, and
/// none of which is `EOF`.
proof fn lemma_tokens_of(e: ExpressionView)
    requires
        plain(e),
    ensures
        tokens_of(e).len() >= 1,
        starts_plain(tokens_of(e)[0]),
    decreases e,
{
    match e {
        ExpressionView::Call { token, function, arguments } => {
            lemma_tokens_of(*function);
        },
        _ => {},
    }
}

/// A list of plain expressions that is not empty has tokens.
proof fn lemma_list_has_tokens(items: Seq<ExpressionView>, m: nat)
    requires
        1 <= m <= items.len(),
        forall|i: int| 0 <= i < items.len() ==> plain(#[trigger] items[i]),
    ensures
        tokens_of_list(items, m).len() >= 1,
    decreases m,
{
    lemma_tokens_of(items[0]);
    if m > 1 {
        lemma_list_has_tokens(items, (m - 1) as nat);
    }
}

/// The tokens of the first `m` items open those of the first `n`, and what
/// follows them is a comma and the tokens of the next item.
proof fn lemma_list_tokens(items: Seq<ExpressionView>, m: nat, n: nat)
    requires
        1 <= m <= n <= items.len(),
        forall|i: int| 0 <= i < items.len() ==> plain(#[trigger] items[i]),
    ensures
        tokens_of_list(items, m).len() >= 1,
        tokens_of_list(items, m).len() <= tokens_of_list(items, n).len(),
        tokens_of_list(items, n).subrange(0, tokens_of_list(items, m).len() as int)
            == tokens_of_list(items, m),
        m < n ==> {
            let before = tokens_of_list(items, m).len() as int;
            let item = tokens_of(items[m as int]);
            &&& tokens_of_list(items, m + 1).len() == before + 1 + item.len()
            &&& before + 1 + item.len() <= tokens_of_list(items, n).len()
            &&& tokens_of_list(items, n)[before] == TokenView::plain(TokenKind::COMMA)
            &&& tokens_of_list(items, n).subrange(before + 1, before + 1 + item.len()) == item
        },
        m == 1 ==> tokens_of_list(items, m) == tokens_of(items[0]),
    decreases n - m,
{
    lemma_tokens_of(items[0]);
    lemma_list_has_tokens(items, m);
    if m < n {
        lemma_list_tokens(items, m + 1, n);
        let whole = tokens_of_list(items, n);
        let next = tokens_of_list(items, m + 1);
        let here = tokens_of_list(items, m);
        let item = tokens_of(items[m as int]);
        lemma_tokens_of(items[m as int]);
        assert(next == here + seq![TokenView::plain(TokenKind::COMMA)] + item);
        assert(whole.subrange(0, next.len() as int) == next);
        assert(whole.subrange(0, here.len() as int) =~= here) by {
            assert forall|i: int| 0 <= i < here.len() implies whole[i] == here[i] by {
                assert(whole[i] == next[i]);
            }
        }
        assert(whole[here.len() as int] == next[here.len() as int]);
        assert(whole.subrange(here.len() + 1 as int, here.len() + 1 + item.len() as int) =~= item) by {
            assert forall|i: int| 0 <= i < item.len() implies whole[here.len() + 1 + i]
                == item[i] by {
                assert(whole[here.len() + 1 + i] == next[here.len() + 1 + i]);
            }
        }
    } else {
        assert(tokens_of_list(items, n).subrange(0, tokens_of_list(items, m).len() as int)
            =~= tokens_of_list(items, m));
    }
}

/// An operator is taken after an operand only if it binds more strongly
/// than the operator before the operand.
proof fn lemma_loop_stops(s: ParserView, p: Precedence, left: ExpressionView)
    requires
        s.peek.kind == TokenKind::SEMICOLON || precedence_of(s.peek.kind).rank() <= p.rank(),
    ensures
        parse_infix_loop(s, p, left) == (Parsed { value: left, state: s }),
{
    lemma_parse_infix_loop(s, p, left);
}

/// Parsing from the first token of a plain expression is parsing on from
/// its last token with the expression in hand.
proof fn lemma_parse_plain(e: ExpressionView, source: Seq<char>, k: int, p: Precedence)
    requires
        0 <= k,
        plain(e),
        tokens_at(source, k, tokens_of(e)),
        p.rank() < 7,
    ensures
        tokens_of(e).len() >= 1,
        parse_expression(state_at(source, k), p) == parse_infix_loop(
            state_at(source, k + tokens_of(e).len() - 1),
            p,
            e,
        ),
    decreases e, 1nat,
{
    let tokens = tokens_of(e);
    let n = tokens.len() as int;
    lemma_tokens_of(e);
    let s = state_at(source, k);
    assert(s.cur == tokens[0]);
    match e {
        ExpressionView::Call { token, function, arguments } => {
            let head = tokens_of(*function);
            let list = tokens_of_list(arguments, arguments.len());
            let nf = head.len() as int;
            let j = k + nf;
            lemma_tokens_of(*function);
            assert(tokens.subrange(0, nf) =~= head);
            lemma_tokens_at_part(source, k, tokens, 0, head);
            lemma_parse_plain(*function, source, k, p);
            let at_head = state_at(source, k + nf - 1);
            lemma_parse_infix_loop(at_head, p, *function);
            assert(at_head.peek == tokens[nf]);
            lemma_state_advance(source, k + nf - 1);
            let at_paren = state_at(source, j);
            assert(at_paren.cur == tokens[nf]);
            lemma_parse_call_expression(at_paren, *function);
            lemma_parse_call_arguments(at_paren);
            lemma_state_advance(source, j);
            assert(tokens.subrange(nf + 1, nf + 1 + list.len()) =~= list);
            lemma_tokens_at_part(source, k, tokens, nf + 1, list);
            assert(token_at(source, j + 1 + list.len()) == tokens[nf + 1 + list.len()]);
            if arguments.len() == 0 {
                assert(at_paren.peek == tokens[nf + 1]);
                assert(arguments =~= Seq::<ExpressionView>::empty());
            } else {
                lemma_list_tokens(arguments, 1, arguments.len());
                let first = tokens_of(arguments[0]);
                lemma_tokens_of(arguments[0]);
                assert(at_paren.peek == list[0]);
                assert(list[0] == first[0]);
                lemma_tokens_at_part(source, j + 1, list, 0, first);
                lemma_parse_plain(arguments[0], source, j + 1, Precedence::LOWEST);
                let after_first = state_at(source, j + first.len());
                assert(after_first.peek == token_at(source, j + first.len() + 1));
                if arguments.len() == 1 {
                    assert(after_first.peek.kind == TokenKind::RPAREN);
                } else {
                    assert(after_first.peek == list[first.len() as int]);
                }
                lemma_loop_stops(after_first, Precedence::LOWEST, arguments[0]);
                lemma_weight_falls(source, j, j + first.len());
                assert(seq![arguments[0]] =~= arguments.take(1));
                lemma_parse_arguments(arguments, source, j, 1);
            }
            lemma_weight_falls(source, k + nf - 1, k + n - 1);
            assert(token_at(source, k + nf - 1) == tokens[nf - 1]);
            assert(tokens[nf - 1] == head[nf - 1]);
            lemma_no_eof(*function, nf - 1);
        },
        _ => {
            lemma_parse_closed(e, source, k);
            lemma_parse_expression(s, p);
            lemma_weight_falls(source, k, k + n - 1);
        },
    }
}

/// No token of a plain expression is `EOF` or `=`.
proof fn lemma_no_eof(e: ExpressionView, i: int)
    requires
        plain(e),
        0 <= i < tokens_of(e).len(),
    ensures
        tokens_of(e)[i].kind != TokenKind::EOF,
        tokens_of(e)[i].kind != TokenKind::ASSIGN,
    decreases e, 1nat,
{
    match e {
        ExpressionView::Prefix { operator, right } => {
            if 2 <= i < 2 + tokens_of(*right).len() {
                lemma_no_eof(*right, i - 2);
            }
        },
        ExpressionView::Infix { operator, left, right } => {
            let nl = tokens_of(*left).len() as int;
            if 1 <= i < 1 + nl {
                lemma_no_eof(*left, i - 1);
            } else if 2 + nl <= i < 2 + nl + tokens_of(*right).len() {
                lemma_no_eof(*right, i - 2 - nl);
            }
        },
        ExpressionView::Call { token, function, arguments } => {
            let nf = tokens_of(*function).len() as int;
            let list = tokens_of_list(arguments, arguments.len());
            if i < nf {
                lemma_no_eof(*function, i);
            } else if nf + 1 <= i < nf + 1 + list.len() {
                lemma_no_eof_in_list(arguments, arguments.len(), i - nf - 1);
            }
        },
        _ => {},
    }
}

proof fn lemma_no_eof_in_list(items: Seq<ExpressionView>, n: nat, i: int)
    requires
        forall|j: int| 0 <= j < items.len() ==> plain(#[trigger] items[j]),
        0 <= i < tokens_of_list(items, n).len(),
    ensures
        tokens_of_list(items, n)[i].kind != TokenKind::EOF,
        tokens_of_list(items, n)[i].kind != TokenKind::ASSIGN,
    decreases items, n,
{
    if n == 0 || n > items.len() {
    } else if n == 1 {
        lemma_no_eof(items[0], i);
    } else {
        let before = tokens_of_list(items, (n - 1) as nat).len() as int;
        if i < before {
            lemma_no_eof_in_list(items, (n - 1) as nat, i);
        } else if i > before {
            lemma_no_eof(items[n - 1], i - before - 1);
        }
    }
}

/// What starts at the first token of a plain expression that is no call is
/// that expression, and parsing it ends on its last token.
proof fn lemma_parse_closed(e: ExpressionView, source: Seq<char>, k: int)
    requires
        0 <= k,
        plain(e),
        !(e is Call),
        tokens_at(source, k, tokens_of(e)),
    ensures
        tokens_of(e).len() >= 1,
        parse_prefix(state_at(source, k)) == (Parsed {
            value: e,
            state: state_at(source, k + tokens_of(e).len() - 1),
        }),
    decreases e, 0nat,
{
    let tokens = tokens_of(e);
    let n = tokens.len() as int;
    let s = state_at(source, k);
    let closing = TokenView::plain(TokenKind::RPAREN);
    assert(s.cur == tokens[0]);
    lemma_parse_prefix(s);
    match e {
        ExpressionView::Prefix { operator, right } => {
            let inner = tokens_of(*right);
            let ni = inner.len() as int;
            lemma_tokens_of(*right);
            let at_operator = state_at(source, k + 1);
            let at_right = state_at(source, k + 2);
            let at_end = state_at(source, k + 1 + ni);
            lemma_parse_grouped_expression(s);
            lemma_state_advance(source, k);
            assert(at_operator.cur == tokens[1]);
            lemma_parse_expression(at_operator, Precedence::LOWEST);
            lemma_parse_prefix(at_operator);
            lemma_parse_prefix_expression(at_operator);
            lemma_state_advance(source, k + 1);
            assert(tokens.subrange(2, 2 + ni) =~= inner);
            lemma_tokens_at_part(source, k, tokens, 2, inner);
            lemma_parse_plain(*right, source, k + 2, Precedence::PREFIX);
            assert(at_end.peek == tokens[2 + ni]);
            lemma_loop_stops(at_end, Precedence::PREFIX, *right);
            lemma_loop_stops(at_end, Precedence::LOWEST, e);
            lemma_weight_falls(source, k + 1, k + 1 + ni);
            lemma_weight_falls(source, k, k + 1);
            lemma_state_advance(source, k + 1 + ni);
        },
        ExpressionView::Infix { operator, left, right } => {
            let first = tokens_of(*left);
            let second = tokens_of(*right);
            lemma_tokens_of(*left);
            lemma_tokens_of(*right);
            let nl = first.len() as int;
            let nr = second.len() as int;
            let at_left_end = state_at(source, k + nl);
            let at_operator = state_at(source, k + nl + 1);
            let at_end = state_at(source, k + nl + 1 + nr);
            lemma_parse_grouped_expression(s);
            lemma_state_advance(source, k);
            assert(tokens.subrange(1, 1 + nl) =~= first);
            lemma_tokens_at_part(source, k, tokens, 1, first);
            lemma_parse_plain(*left, source, k + 1, Precedence::LOWEST);
            assert(at_left_end.peek == tokens[1 + nl]);
            lemma_parse_infix_loop(at_left_end, Precedence::LOWEST, *left);
            lemma_state_advance(source, k + nl);
            assert(at_operator.cur == tokens[1 + nl]);
            lemma_parse_infix_expression(at_operator, *left);
            lemma_state_advance(source, k + nl + 1);
            assert(tokens.subrange(2 + nl, 2 + nl + nr) =~= second);
            lemma_tokens_at_part(source, k, tokens, 2 + nl, second);
            lemma_parse_plain(*right, source, k + nl + 2, precedence_of(operator.kind));
            assert(at_end.peek == tokens[2 + nl + nr]);
            lemma_loop_stops(at_end, precedence_of(operator.kind), *right);
            lemma_loop_stops(at_end, Precedence::LOWEST, e);
            lemma_weight_falls(source, k + nl, k + nl + 1 + nr);
            assert(token_at(source, k + nl) == tokens[nl]);
            assert(tokens[nl] == first[nl - 1]);
            lemma_no_eof(*left, nl - 1);
            lemma_weight_falls(source, k, k + 1);
            lemma_state_advance(source, k + nl + 1 + nr);
        },
        _ => {},
    }
}

/// The arguments after the first `m` are parsed, one after each comma, up
/// to the closing parenthesis.
proof fn lemma_parse_arguments(arguments: Seq<ExpressionView>, source: Seq<char>, j: int, m: nat)
    requires
        0 <= j,
        1 <= m <= arguments.len(),
        forall|i: int| 0 <= i < arguments.len() ==> plain(#[trigger] arguments[i]),
        tokens_at(source, j + 1, tokens_of_list(arguments, arguments.len())),
        token_at(source, j + 1 + tokens_of_list(arguments, arguments.len()).len())
            == TokenView::plain(TokenKind::RPAREN),
    ensures
        parse_arguments_loop(
            state_at(source, j + tokens_of_list(arguments, m).len()),
            arguments.take(m as int),
        ) == (Parsed {
            value: arguments,
            state: state_at(
                source,
                j + 1 + tokens_of_list(arguments, arguments.len()).len(),
            ),
        }),
    decreases arguments, arguments.len() - m,
{
    let list = tokens_of_list(arguments, arguments.len());
    let before = tokens_of_list(arguments, m).len() as int;
    let s = state_at(source, j + before);
    lemma_list_tokens(arguments, m, arguments.len());
    lemma_parse_arguments_loop(s, arguments.take(m as int));
    assert(s.peek == token_at(source, j + before + 1));
    if m == arguments.len() {
        lemma_state_advance(source, j + before);
        assert(arguments.take(m as int) =~= arguments);
    } else {
        let item = tokens_of(arguments[m as int]);
        lemma_tokens_of(arguments[m as int]);
        assert(s.peek == list[before]);
        lemma_state_advance(source, j + before);
        lemma_state_advance(source, j + before + 1);
        lemma_tokens_at_part(source, j + 1, list, before + 1, item);
        lemma_parse_plain(arguments[m as int], source, j + before + 2, Precedence::LOWEST);
        let after = state_at(source, j + before + 1 + item.len());
        assert(after.peek == token_at(source, j + before + 2 + item.len()));
        if m + 1 < arguments.len() {
            lemma_list_tokens(arguments, m + 1, arguments.len());
            assert(after.peek == list[before + 1 + item.len()]);
        }
        lemma_loop_stops(after, Precedence::LOWEST, arguments[m as int]);
        lemma_weight_falls(source, j + before, j + before + 2);
        lemma_weight_falls(source, j + before + 2, j + before + 1 + item.len());
        assert(token_at(source, j + before) == list[before - 1]);
        lemma_no_eof_in_list(arguments, arguments.len(), before - 1);
        assert(arguments.take(m as int).push(arguments[m as int]) =~= arguments.take(m + 1 as int));
        lemma_parse_arguments(arguments, source, j, m + 1);
    }
}

/// Whether `text` stands in `source` from index `a` on.
pub open spec fn text_at(source: Seq<char>, a: int, text: Seq<char>) -> bool {
    &&& 0 <= a
    &&& a + text.len() <= source.len()
    &&& source.subrange(a, a + text.len()) == text
}

/// Whether a character can follow a token of a plain expression without
/// becoming part of it.
pub open spec fn ends_token(c: char) -> bool {
    !CharClass::Letter.holds(c) && !is_digit(c) && c != '='
}

/// Whether a character can be the first of the text of a plain expression.
pub open spec fn starts_text(c: char) -> bool {
    CharClass::Letter.holds(c) || is_digit(c) || c == '('
}

/// Whether scanning `source` from `from` gives `tokens`, one after the
/// other, and ends at `to`.
pub open spec fn lexes(source: Seq<char>, from: int, tokens: Seq<TokenView>, to: int) -> bool
    decreases tokens.len(),
{
    if tokens.len() == 0 {
        from == to
    } else {
        scan_token(source, from).0 == tokens[0] && lexes(
            source,
            scan_token(source, from).1,
            tokens.drop_first(),
            to,
        )
    }
}

proof fn lemma_lexes_one(source: Seq<char>, from: int, token: TokenView, to: int)
    requires
        scan_token(source, from) == (token, to),
    ensures
        lexes(source, from, seq![token], to),
{
    assert(seq![token].drop_first() =~= Seq::<TokenView>::empty());
    assert(lexes(source, to, seq![token].drop_first(), to));
}

proof fn lemma_lexes_both(
    source: Seq<char>,
    from: int,
    first: Seq<TokenView>,
    middle: int,
    second: Seq<TokenView>,
    to: int,
)
    requires
        lexes(source, from, first, middle),
        lexes(source, middle, second, to),
    ensures
        lexes(source, from, first + second, to),
    decreases first.len(),
{
    if first.len() == 0 {
        assert(first + second =~= second);
    } else {
        lemma_lexes_both(
            source,
            scan_token(source, from).1,
            first.drop_first(),
            middle,
            second,
            to,
        );
        assert((first + second).drop_first() =~= first.drop_first() + second);
    }
}

/// What is scanned from the cursor after `k` tokens stands at the places
/// from `k` on.
proof fn lemma_lexes_places(source: Seq<char>, k: int, tokens: Seq<TokenView>, to: int)
    requires
        0 <= k,
        lexes(source, cursor_after(source, k), tokens, to),
    ensures
        tokens_at(source, k, tokens),
        cursor_after(source, k + tokens.len()) == to,
    decreases tokens.len(),
{
    if tokens.len() > 0 {
        reveal_with_fuel(cursor_after, 2);
        lemma_lexes_places(source, k + 1, tokens.drop_first(), to);
        assert forall|i: int| 0 <= i < tokens.len() implies token_at(source, k + i)
            == #[trigger] tokens[i] by {
            if i > 0 {
                assert(tokens[i] == tokens.drop_first()[i - 1]);
            }
        }
    }
}

proof fn lemma_text_part(
    source: Seq<char>,
    a: int,
    whole: Seq<char>,
    offset: int,
    part: Seq<char>,
)
    requires
        text_at(source, a, whole),
        0 <= offset,
        offset + part.len() <= whole.len(),
        whole.subrange(offset, offset + part.len()) == part,
    ensures
        text_at(source, a + offset, part),
        forall|i: int| 0 <= i < whole.len() ==> source[a + i] == #[trigger] whole[i],
{
    assert forall|i: int| 0 <= i < whole.len() implies source[a + i] == #[trigger] whole[i] by {
        assert(source.subrange(a, a + whole.len())[i] == whole[i]);
    }
    assert(source.subrange(a + offset, a + offset + part.len()) =~= part) by {
        assert forall|i: int| 0 <= i < part.len() implies source[a + offset + i] == part[i] by {
            assert(part[i] == whole[offset + i]);
        }
    }
}

/// A run that is known character by character ends where it is known to.
proof fn lemma_run_exact(source: Seq<char>, a: int, b: int, class: CharClass)
    requires
        0 <= a <= b <= source.len(),
        forall|i: int| a <= i < b ==> class.holds(#[trigger] source[i]),
        !class.holds(char_at(source, b)) || b == source.len(),
    ensures
        run_end(source, a, class) == b,
    decreases b - a,
{
    if a < b {
        lemma_run_exact(source, a + 1, b, class);
    }
}

proof fn lemma_scan_punctuator(source: Seq<char>, a: int)
    requires
        0 <= a < source.len(),
        punctuator(source[a]) is Some,
        (source[a] == '=' || source[a] == '!') ==> char_at(source, a + 1) != '=',
    ensures
        scan_token(source, a) == (TokenView::plain(punctuator(source[a])->0), a + 1),
{
    reveal(scan_token);
    lemma_run_exact(source, a, a, CharClass::Whitespace);
}

proof fn lemma_scan_double(source: Seq<char>, a: int)
    requires
        0 <= a,
        a + 1 < source.len(),
        source[a] == '=' || source[a] == '!',
        source[a + 1] == '=',
    ensures
        scan_token(source, a) == (
            TokenView::plain(
                if source[a] == '=' {
                    TokenKind::EQ
                } else {
                    TokenKind::NOT_EQ
                },
            ),
            a + 2,
        ),
{
    reveal(scan_token);
    lemma_run_exact(source, a, a, CharClass::Whitespace);
}

proof fn lemma_scan_word(source: Seq<char>, a: int, word: Seq<char>)
    requires
        text_at(source, a, word),
        word.len() >= 1,
        forall|i: int| 0 <= i < word.len() ==> CharClass::Letter.holds(#[trigger] word[i]),
        !CharClass::Letter.holds(char_at(source, a + word.len())),
    ensures
        scan_token(source, a) == (word_token(word), a + word.len()),
{
    reveal(scan_token);
    assert(word.subrange(0, word.len() as int) =~= word);
    lemma_text_part(source, a, word, 0, word);
    assert(source[a] == word[0]);
    lemma_run_exact(source, a, a, CharClass::Whitespace);
    assert forall|i: int| a <= i < a + word.len() implies CharClass::Letter.holds(
        #[trigger] source[i],
    ) by {
        assert(source[i] == word[i - a]);
    }
    lemma_run_exact(source, a, a + word.len(), CharClass::Letter);
}

proof fn lemma_scan_number(source: Seq<char>, a: int, digits: Seq<char>)
    requires
        text_at(source, a, digits),
        digits.len() >= 1,
        forall|i: int| 0 <= i < digits.len() ==> is_digit(#[trigger] digits[i]),
        !is_digit(char_at(source, a + digits.len())),
    ensures
        scan_token(source, a) == (number_token(digits), a + digits.len()),
{
    reveal(scan_token);
    assert(digits.subrange(0, digits.len() as int) =~= digits);
    lemma_text_part(source, a, digits, 0, digits);
    assert(source[a] == digits[0]);
    lemma_run_exact(source, a, a, CharClass::Whitespace);
    assert forall|i: int| a <= i < a + digits.len() implies CharClass::Digit.holds(
        #[trigger] source[i],
    ) by {
        assert(source[i] == digits[i - a]);
    }
    lemma_run_exact(source, a, a + digits.len(), CharClass::Digit);
}

proof fn lemma_scan_skips_space(source: Seq<char>, a: int)
    requires
        0 <= a < source.len(),
        source[a] == ' ',
    ensures
        scan_token(source, a) == scan_token(source, a + 1),
{
    reveal(scan_token);
}

proof fn lemma_lexes_after_space(
    source: Seq<char>,
    a: int,
    tokens: Seq<TokenView>,
    to: int,
)
    requires
        0 <= a < source.len(),
        source[a] == ' ',
        tokens.len() >= 1,
        lexes(source, a + 1, tokens, to),
    ensures
        lexes(source, a, tokens, to),
{
    lemma_scan_skips_space(source, a);
}

/// The spelling of the tokens that stand in the text of a plain expression.
proof fn lemma_spellings()
    ensures
        "("@ == seq!['('],
        ")"@ == seq![')'],
        " "@ == seq![' '],
        ", "@ == seq![',', ' '],
        "+"@ == seq!['+'],
        "-"@ == seq!['-'],
        "*"@ == seq!['*'],
        "/"@ == seq!['/'],
        "<"@ == seq!['<'],
        ">"@ == seq!['>'],
        "!"@ == seq!['!'],
        "=="@ == seq!['=', '='],
        "!="@ == seq!['!', '='],
        "true"@ == seq!['t', 'r', 'u', 'e'],
        "false"@ == seq!['f', 'a', 'l', 's', 'e'],
        "let"@ == seq!['l', 'e', 't'],
        "return"@ == seq!['r', 'e', 't', 'u', 'r', 'n'],
        " = "@ == seq![' ', '=', ' '],
        ";"@ == seq![';'],
        "fn"@.len() == 2,
        "if"@.len() == 2,
        "else"@.len() == 4,
{
    reveal_strlit("(");
    reveal_strlit(")");
    reveal_strlit(" ");
    reveal_strlit(", ");
    reveal_strlit("+");
    reveal_strlit("-");
    reveal_strlit("*");
    reveal_strlit("/");
    reveal_strlit("<");
    reveal_strlit(">");
    reveal_strlit("!");
    reveal_strlit("==");
    reveal_strlit("!=");
    reveal_strlit("true");
    reveal_strlit("false");
    reveal_strlit("fn");
    reveal_strlit("let");
    reveal_strlit("return");
    reveal_strlit(" = ");
    reveal_strlit(";");
    reveal_strlit("if");
    reveal_strlit("else");
    assert("let"@ =~= seq!['l', 'e', 't']);
    assert("return"@ =~= seq!['r', 'e', 't', 'u', 'r', 'n']);
    assert(" = "@ =~= seq![' ', '=', ' ']);
    assert(";"@ =~= seq![';']);
    assert("("@ =~= seq!['(']);
    assert(")"@ =~= seq![')']);
    assert(" "@ =~= seq![' ']);
    assert(", "@ =~= seq![',', ' ']);
    assert("+"@ =~= seq!['+']);
    assert("-"@ =~= seq!['-']);
    assert("*"@ =~= seq!['*']);
    assert("/"@ =~= seq!['/']);
    assert("<"@ =~= seq!['<']);
    assert(">"@ =~= seq!['>']);
    assert("!"@ =~= seq!['!']);
    assert("=="@ =~= seq!['=', '=']);
    assert("!="@ =~= seq!['!', '=']);
    assert("true"@ =~= seq!['t', 'r', 'u', 'e']);
    assert("false"@ =~= seq!['f', 'a', 'l', 's', 'e']);
}

/// An operator between two operands, with a space after it, is scanned as
/// itself.
proof fn lemma_scan_infix_operator(source: Seq<char>, a: int, kind: TokenKind)
    requires
        is_infix_operator(kind),
        text_at(source, a, TokenView::plain(kind).literal()),
        char_at(source, a + TokenView::plain(kind).literal().len()) == ' ',
    ensures
        scan_token(source, a) == (
            TokenView::plain(kind),
            a + TokenView::plain(kind).literal().len(),
        ),
        TokenView::plain(kind).literal().len() >= 1,
{
    lemma_spellings();
    let literal = TokenView::plain(kind).literal();
    assert(literal.subrange(0, literal.len() as int) =~= literal);
    lemma_text_part(source, a, literal, 0, literal);
    assert(source[a] == literal[0]);
    if kind == TokenKind::EQ || kind == TokenKind::NOT_EQ {
        assert(source[a + 1] == literal[1]);
        lemma_scan_double(source, a);
    } else {
        lemma_scan_punctuator(source, a);
    }
}

/// The text of a plain expression is scanned as the tokens of the
/// expression, whatever follows it that cannot be part of its last token.
proof fn lemma_lexes_expression(e: ExpressionView, source: Seq<char>, a: int)
    requires
        plain(e),
        text_at(source, a, expression_text(e)),
        ends_token(char_at(source, a + expression_text(e).len())),
    ensures
        expression_text(e).len() >= 1,
        starts_text(expression_text(e)[0]),
        lexes(source, a, tokens_of(e), a + expression_text(e).len()),
    decreases e, 0nat,
{
    lemma_spellings();
    let text = expression_text(e);
    let m = text.len() as int;
    match e {
        ExpressionView::Identifier(token) => {
            lemma_scan_word(source, a, token.text);
            lemma_lexes_one(source, a, token, a + m);
        },
        ExpressionView::IntegerLiteral(token) => {
            lemma_digits_of_natural_text(token.number as nat);
            lemma_scan_number(source, a, text);
            lemma_lexes_one(source, a, token, a + m);
        },
        ExpressionView::Boolean(token) => {
            lemma_scan_word(source, a, text);
            lemma_lexes_one(source, a, token, a + m);
        },
        ExpressionView::Prefix { operator, right } => {
            let inner = expression_text(*right);
            let mi = inner.len() as int;
            assert(text =~= seq!['('] + operator.literal() + inner + seq![')']);
            assert(operator.literal().len() == 1);
            assert(text.subrange(2, 2 + mi) =~= inner);
            lemma_text_part(source, a, text, 2, inner);
            assert(source[a] == text[0]);
            assert(source[a + 1] == text[1]);
            assert(source[a + 2 + mi] == text[2 + mi]);
            lemma_lexes_expression(*right, source, a + 2);
            assert(source[a + 2] == text[2]);
            assert(text[2] == inner[0]);
            lemma_scan_punctuator(source, a);
            lemma_scan_punctuator(source, a + 1);
            lemma_scan_punctuator(source, a + 2 + mi);
            lemma_lexes_one(source, a, TokenView::plain(TokenKind::LPAREN), a + 1);
            lemma_lexes_one(source, a + 1, operator, a + 2);
            lemma_lexes_one(
                source,
                a + 2 + mi,
                TokenView::plain(TokenKind::RPAREN),
                a + 3 + mi,
            );
            lemma_lexes_both(
                source,
                a,
                seq![TokenView::plain(TokenKind::LPAREN)],
                a + 1,
                seq![operator],
                a + 2,
            );
            assert(seq![TokenView::plain(TokenKind::LPAREN)] + seq![operator] =~= seq![
                TokenView::plain(TokenKind::LPAREN),
                operator,
            ]);
            lemma_lexes_both(
                source,
                a,
                seq![TokenView::plain(TokenKind::LPAREN), operator],
                a + 2,
                tokens_of(*right),
                a + 2 + mi,
            );
            lemma_lexes_both(
                source,
                a,
                seq![TokenView::plain(TokenKind::LPAREN), operator] + tokens_of(*right),
                a + 2 + mi,
                seq![TokenView::plain(TokenKind::RPAREN)],
                a + 3 + mi,
            );
        },
        ExpressionView::Infix { operator, left, right } => {
            let first = expression_text(*left);
            let second = expression_text(*right);
            let sign = operator.literal();
            let ml = first.len() as int;
            let mr = second.len() as int;
            let ms = sign.len() as int;
            assert(text =~= seq!['('] + first + seq![' '] + sign + seq![' '] + second + seq![
                ')',
            ]);
            assert(text.subrange(1, 1 + ml) =~= first);
            assert(text.subrange(2 + ml, 2 + ml + ms) =~= sign);
            assert(text.subrange(3 + ml + ms, 3 + ml + ms + mr) =~= second);
            lemma_text_part(source, a, text, 1, first);
            lemma_text_part(source, a, text, 2 + ml, sign);
            lemma_text_part(source, a, text, 3 + ml + ms, second);
            assert(source[a] == text[0]);
            assert(source[a + 1 + ml] == text[1 + ml]);
            assert(source[a + 2 + ml + ms] == text[2 + ml + ms]);
            assert(source[a + 3 + ml + ms + mr] == text[3 + ml + ms + mr]);
            lemma_lexes_expression(*left, source, a + 1);
            lemma_scan_infix_operator(source, a + 2 + ml, operator.kind);
            lemma_lexes_expression(*right, source, a + 3 + ml + ms);
            lemma_scan_punctuator(source, a);
            lemma_scan_punctuator(source, a + 3 + ml + ms + mr);
            let open = seq![TokenView::plain(TokenKind::LPAREN)];
            let close = seq![TokenView::plain(TokenKind::RPAREN)];
            lemma_lexes_one(source, a, TokenView::plain(TokenKind::LPAREN), a + 1);
            lemma_lexes_one(source, a + 2 + ml, operator, a + 2 + ml + ms);
            lemma_lexes_after_space(source, a + 1 + ml, seq![operator], a + 2 + ml + ms);
            lemma_tokens_of(*right);
            lemma_lexes_after_space(
                source,
                a + 2 + ml + ms,
                tokens_of(*right),
                a + 3 + ml + ms + mr,
            );
            lemma_lexes_one(
                source,
                a + 3 + ml + ms + mr,
                TokenView::plain(TokenKind::RPAREN),
                a + 4 + ml + ms + mr,
            );
            lemma_lexes_both(source, a, open, a + 1, tokens_of(*left), a + 1 + ml);
            lemma_lexes_both(
                source,
                a,
                open + tokens_of(*left),
                a + 1 + ml,
                seq![operator],
                a + 2 + ml + ms,
            );
            lemma_lexes_both(
                source,
                a,
                open + tokens_of(*left) + seq![operator],
                a + 2 + ml + ms,
                tokens_of(*right),
                a + 3 + ml + ms + mr,
            );
            lemma_lexes_both(
                source,
                a,
                open + tokens_of(*left) + seq![operator] + tokens_of(*right),
                a + 3 + ml + ms + mr,
                close,
                a + 4 + ml + ms + mr,
            );
        },
        ExpressionView::Call { token, function, arguments } => {
            let head = expression_text(*function);
            let list = joined_text(arguments, arguments.len(), ", "@);
            let mh = head.len() as int;
            let ma = list.len() as int;
            assert(text =~= head + seq!['('] + list + seq![')']);
            assert(text.subrange(0, mh) =~= head);
            assert(text.subrange(mh + 1, mh + 1 + ma) =~= list);
            lemma_text_part(source, a, text, 0, head);
            lemma_text_part(source, a, text, mh + 1, list);
            assert(source[a + mh] == text[mh]);
            assert(source[a + mh + 1 + ma] == text[mh + 1 + ma]);
            lemma_lexes_expression(*function, source, a);
            assert(text[0] == head[0]);
            lemma_lexes_list(arguments, arguments.len(), source, a + mh + 1);
            if ma > 0 {
                assert(source[a + mh + 1] == text[mh + 1]);
            }
            lemma_scan_punctuator(source, a + mh);
            lemma_scan_punctuator(source, a + mh + 1 + ma);
            let open = seq![TokenView::plain(TokenKind::LPAREN)];
            let close = seq![TokenView::plain(TokenKind::RPAREN)];
            lemma_lexes_one(source, a + mh, TokenView::plain(TokenKind::LPAREN), a + mh + 1);
            lemma_lexes_one(
                source,
                a + mh + 1 + ma,
                TokenView::plain(TokenKind::RPAREN),
                a + mh + 2 + ma,
            );
            lemma_lexes_both(source, a, tokens_of(*function), a + mh, open, a + mh + 1);
            lemma_lexes_both(
                source,
                a,
                tokens_of(*function) + open,
                a + mh + 1,
                tokens_of_list(arguments, arguments.len()),
                a + mh + 1 + ma,
            );
            lemma_lexes_both(
                source,
                a,
                tokens_of(*function) + open + tokens_of_list(arguments, arguments.len()),
                a + mh + 1 + ma,
                close,
                a + mh + 2 + ma,
            );
        },
        _ => {},
    }
}

/// The texts of plain expressions with `, ` between them are scanned as
/// the tokens of the expressions with commas between them.
proof fn lemma_lexes_list(items: Seq<ExpressionView>, n: nat, source: Seq<char>, a: int)
    requires
        n <= items.len(),
        forall|i: int| 0 <= i < items.len() ==> plain(#[trigger] items[i]),
        text_at(source, a, joined_text(items, n, ", "@)),
        ends_token(char_at(source, a + joined_text(items, n, ", "@).len())),
    ensures
        lexes(source, a, tokens_of_list(items, n), a + joined_text(items, n, ", "@).len()),
        n >= 1 ==> joined_text(items, n, ", "@).len() >= 1 && starts_text(
            joined_text(items, n, ", "@)[0],
        ),
        n == 0 ==> joined_text(items, n, ", "@).len() == 0,
    decreases items, n,
{
    lemma_spellings();
    let text = joined_text(items, n, ", "@);
    if n == 0 {
    } else if n == 1 {
        lemma_lexes_expression(items[0], source, a);
    } else {
        let before = joined_text(items, (n - 1) as nat, ", "@);
        let last = expression_text(items[n - 1]);
        let mb = before.len() as int;
        let ml = last.len() as int;
        assert(text =~= before + seq![',', ' '] + last);
        assert(text.subrange(0, mb) =~= before);
        assert(text.subrange(mb + 2, mb + 2 + ml) =~= last);
        lemma_text_part(source, a, text, 0, before);
        lemma_text_part(source, a, text, mb + 2, last);
        assert(source[a + mb] == text[mb]);
        assert(source[a + mb + 1] == text[mb + 1]);
        lemma_lexes_list(items, (n - 1) as nat, source, a);
        assert(text[0] == before[0]);
        lemma_lexes_expression(items[n - 1], source, a + mb + 2);
        lemma_scan_punctuator(source, a + mb);
        lemma_lexes_one(source, a + mb, TokenView::plain(TokenKind::COMMA), a + mb + 1);
        lemma_tokens_of(items[n - 1]);
        lemma_lexes_after_space(source, a + mb + 1, tokens_of(items[n - 1]), a + mb + 2 + ml);
        lemma_lexes_both(
            source,
            a,
            tokens_of_list(items, (n - 1) as nat),
            a + mb,
            seq![TokenView::plain(TokenKind::COMMA)],
            a + mb + 1,
        );
        lemma_lexes_both(
            source,
            a,
            tokens_of_list(items, (n - 1) as nat) + seq![TokenView::plain(TokenKind::COMMA)],
            a + mb + 1,
            tokens_of(items[n - 1]),
            a + mb + 2 + ml,
        );
    }
}

/// After the last token of a text come only `EOF` tokens.
proof fn lemma_end_of_tokens(source: Seq<char>, n: int, j: int)
    requires
        0 <= n <= j,
        cursor_after(source, n) == source.len(),
    ensures
        cursor_after(source, j) == source.len(),
        token_at(source, j) == TokenView::plain(TokenKind::EOF),
    decreases j - n,
{
    if n < j {
        lemma_end_of_tokens(source, n, j - 1);
    }
    lemma_scan_token_at_end(source, source.len() as int);
}

/// The statements that bind a name to a plain expression, return one, or
/// are one.
pub open spec fn plain_statement(s: StatementView) -> bool {
    match s {
        StatementView::Let { token, name, value } => (token == TokenView::plain(TokenKind::LET)
            || token == TokenView::plain(TokenKind::ASSIGN)) && is_name(name) && plain(value),
        StatementView::Return { value } => plain(value),
        StatementView::Expression { expression } => plain(expression),
        StatementView::Block { .. } => false,
    }
}

/// The programs of plain statements in which only the last statement may
/// be an expression: the text of every other statement ends with a
/// semicolon, which keeps it apart from the statement after it.
pub open spec fn plain_program(statements: Seq<StatementView>) -> bool {
    forall|i: int|
        0 <= i < statements.len() ==> plain_statement(#[trigger] statements[i]) && (i + 1
            < statements.len() ==> !(statements[i] is Expression))
}

/// The tokens of the canonical text of a plain statement.
pub open spec fn tokens_of_statement(s: StatementView) -> Seq<TokenView> {
    match s {
        StatementView::Let { token, name, value } => (if token.kind == TokenKind::ASSIGN {
            Seq::empty()
        } else {
            seq![token]
        }) + seq![TokenView::identifier(name), TokenView::plain(TokenKind::ASSIGN)] + tokens_of(
            value,
        ) + seq![TokenView::plain(TokenKind::SEMICOLON)],
        StatementView::Return { value } => seq![TokenView::plain(TokenKind::RETURN)] + tokens_of(
            value,
        ) + seq![TokenView::plain(TokenKind::SEMICOLON)],
        StatementView::Expression { expression } => tokens_of(expression),
        StatementView::Block { .. } => Seq::empty(),
    }
}

/// The tokens of the texts of the first `n` statements of a program.
pub open spec fn tokens_of_program(statements: Seq<StatementView>, n: nat) -> Seq<TokenView>
    decreases n,
{
    if n == 0 || n > statements.len() {
        Seq::empty()
    } else {
        tokens_of_program(statements, (n - 1) as nat) + tokens_of_statement(statements[n - 1])
    }
}

/// A plain statement has tokens, none of which is `EOF`.
proof fn lemma_tokens_of_statement(s: StatementView, i: int)
    requires
        plain_statement(s),
        0 <= i < tokens_of_statement(s).len(),
    ensures
        tokens_of_statement(s)[i].kind != TokenKind::EOF,
{
    match s {
        StatementView::Let { token, name, value } => {
            lemma_tokens_of(value);
            let lead: int = if token.kind == TokenKind::ASSIGN {
                0
            } else {
                1
            };
            if lead + 2 <= i < lead + 2 + tokens_of(value).len() {
                lemma_no_eof(value, i - lead - 2);
            }
        },
        StatementView::Return { value } => {
            if 1 <= i < 1 + tokens_of(value).len() {
                lemma_no_eof(value, i - 1);
            }
        },
        StatementView::Expression { expression } => {
            lemma_no_eof(expression, i);
        },
        _ => {},
    }
}

/// The tokens of the first `m` statements open those of the first `n`, and
/// what follows them are the tokens of the next statement.
proof fn lemma_program_tokens(statements: Seq<StatementView>, m: nat, n: nat)
    requires
        m <= n <= statements.len(),
    ensures
        tokens_of_program(statements, m).len() <= tokens_of_program(statements, n).len(),
        tokens_of_program(statements, n).subrange(
            0,
            tokens_of_program(statements, m).len() as int,
        ) == tokens_of_program(statements, m),
        m < n ==> {
            let before = tokens_of_program(statements, m).len() as int;
            let next = tokens_of_statement(statements[m as int]);
            &&& tokens_of_program(statements, m + 1).len() == before + next.len()
            &&& before + next.len() <= tokens_of_program(statements, n).len()
            &&& tokens_of_program(statements, n).subrange(before, before + next.len()) == next
        },
    decreases n - m,
{
    let whole = tokens_of_program(statements, n);
    let here = tokens_of_program(statements, m);
    if m < n {
        lemma_program_tokens(statements, m + 1, n);
        let grown = tokens_of_program(statements, m + 1);
        let next = tokens_of_statement(statements[m as int]);
        assert(grown == here + next);
        assert(whole.subrange(0, here.len() as int) =~= here) by {
            assert forall|i: int| 0 <= i < here.len() implies whole[i] == here[i] by {
                assert(whole[i] == grown[i]);
            }
        }
        assert(whole.subrange(here.len() as int, here.len() + next.len() as int) =~= next) by {
            assert forall|i: int| 0 <= i < next.len() implies whole[here.len() + i]
                == next[i] by {
                assert(whole[here.len() + i] == grown[here.len() + i]);
            }
        }
    } else {
        assert(whole.subrange(0, here.len() as int) =~= here);
    }
}

/// Parsing a plain statement from its first token gives the statement and
/// ends on its last token.
proof fn lemma_parse_plain_statement(s: StatementView, source: Seq<char>, k: int)
    requires
        0 <= k,
        plain_statement(s),
        tokens_at(source, k, tokens_of_statement(s)),
        s is Expression ==> token_at(source, k + tokens_of_statement(s).len()).kind
            == TokenKind::EOF,
    ensures
        tokens_of_statement(s).len() >= 1,
        parse_statement(state_at(source, k)) == (Parsed {
            value: Some(s),
            state: state_at(source, k + tokens_of_statement(s).len() - 1),
        }),
{
    let tokens = tokens_of_statement(s);
    let n = tokens.len() as int;
    let first = state_at(source, k);
    let semicolon = TokenView::plain(TokenKind::SEMICOLON);
    match s {
        StatementView::Let { token, name, value } => {
            let inner = tokens_of(value);
            let ne = inner.len() as int;
            lemma_tokens_of(value);
            let lead: int = if token.kind == TokenKind::ASSIGN {
                0
            } else {
                1
            };
            assert(first.cur == tokens[0]);
            assert(first.peek == tokens[1]);
            assert(token_at(source, k + lead + 1) == tokens[lead + 1]);
            assert(tokens.subrange(lead + 2, lead + 2 + ne) =~= inner);
            lemma_tokens_at_part(source, k, tokens, lead + 2, inner);
            lemma_parse_statement(first);
            lemma_state_advance(source, k);
            lemma_state_advance(source, k + 1);
            lemma_state_advance(source, k + 2);
            if lead == 1 {
                lemma_parse_let_statement(first);
                assert(TokenView::identifier(Seq::empty()).kind == TokenKind::IDENT);
            } else {
                lemma_parse_assign_statement(first);
            }
            lemma_parse_plain(value, source, k + lead + 2, Precedence::LOWEST);
            let last = state_at(source, k + lead + 1 + ne);
            assert(last.peek == tokens[lead + 2 + ne]);
            lemma_loop_stops(last, Precedence::LOWEST, value);
            lemma_state_advance(source, k + lead + 1 + ne);
        },
        StatementView::Return { value } => {
            let inner = tokens_of(value);
            let ne = inner.len() as int;
            lemma_tokens_of(value);
            assert(first.cur == tokens[0]);
            assert(tokens.subrange(1, 1 + ne) =~= inner);
            lemma_tokens_at_part(source, k, tokens, 1, inner);
            lemma_parse_statement(first);
            lemma_parse_return_statement(first);
            lemma_state_advance(source, k);
            lemma_parse_plain(value, source, k + 1, Precedence::LOWEST);
            let last = state_at(source, k + ne);
            assert(last.peek == tokens[1 + ne]);
            lemma_loop_stops(last, Precedence::LOWEST, value);
            lemma_state_advance(source, k + ne);
        },
        StatementView::Expression { expression } => {
            lemma_tokens_of(expression);
            assert(first.cur == tokens[0]);
            lemma_no_eof(expression, 0);
            lemma_parse_statement(first);
            if n > 1 {
                assert(first.peek == tokens[1]);
                lemma_no_eof(expression, 1);
            }
            lemma_parse_expression_statement(first);
            lemma_parse_plain(expression, source, k, Precedence::LOWEST);
            let last = state_at(source, k + n - 1);
            lemma_loop_stops(last, Precedence::LOWEST, expression);
        },
        _ => {},
    }
}

/// Parsing the statements of a plain program from the first token of
/// statement `i` on gives the program.
proof fn lemma_parse_plain_program(statements: Seq<StatementView>, source: Seq<char>, i: nat)
    requires
        plain_program(statements),
        i <= statements.len(),
        tokens_at(source, 0, tokens_of_program(statements, statements.len())),
        token_at(source, tokens_of_program(statements, statements.len()).len() as int).kind
            == TokenKind::EOF,
    ensures
        parse_program_loop(
            state_at(source, tokens_of_program(statements, i).len() as int),
            statements.take(i as int),
        ) == (Parsed {
            value: statements,
            state: state_at(
                source,
                tokens_of_program(statements, statements.len()).len() as int,
            ),
        }),
    decreases statements.len() - i,
{
    let whole = tokens_of_program(statements, statements.len());
    let before = tokens_of_program(statements, i).len() as int;
    let here = state_at(source, before);
    lemma_program_tokens(statements, i, statements.len());
    lemma_parse_program_loop(here, statements.take(i as int));
    if i == statements.len() {
        assert(statements.take(i as int) =~= statements);
    } else {
        let s = statements[i as int];
        let tokens = tokens_of_statement(s);
        let n = tokens.len() as int;
        lemma_tokens_at_part(source, 0, whole, before, tokens);
        if s is Expression {
            assert(i + 1 == statements.len());
        }
        lemma_parse_plain_statement(s, source, before);
        assert(here.cur == tokens[0]);
        lemma_tokens_of_statement(s, 0);
        lemma_state_advance(source, before + n - 1);
        lemma_weight_falls(source, before, before + n);
        assert(statements.take(i as int).push(s) =~= statements.take(i + 1 as int));
        lemma_parse_plain_program(statements, source, i + 1);
    }
}

/// The text of a plain statement is scanned as the tokens of the
/// statement.
proof fn lemma_lexes_statement(s: StatementView, source: Seq<char>, a: int)
    requires
        plain_statement(s),
        text_at(source, a, statement_text(s)),
        s is Expression ==> ends_token(
            char_at(source, a + statement_text(s).len()),
        ),
    ensures
        lexes(
            source,
            a,
            tokens_of_statement(s),
            a + statement_text(s).len(),
        ),
{
    lemma_spellings();
    let text = statement_text(s);
    let semicolon = TokenView::plain(TokenKind::SEMICOLON);
    match s {
        StatementView::Let { token, name, value } => {
            let inner = expression_text(value);
            let mi = inner.len() as int;
            let mn = name.len() as int;
            let lead: int = if token.kind == TokenKind::ASSIGN {
                0
            } else {
                4
            };
            let keyword = binding_prefix(token);
            assert(keyword.len() == lead);
            assert(text =~= keyword + name + seq![' ', '=', ' '] + inner + seq![';']);
            assert(text.subrange(lead, lead + mn) =~= name);
            assert(text.subrange(lead + mn + 3, lead + mn + 3 + mi) =~= inner);
            lemma_text_part(source, a, text, lead, name);
            lemma_text_part(source, a, text, lead + mn + 3, inner);
            assert(source[a + lead + mn] == text[lead + mn]);
            assert(source[a + lead + mn + 1] == text[lead + mn + 1]);
            assert(source[a + lead + mn + 2] == text[lead + mn + 2]);
            assert(source[a + lead + mn + 3 + mi] == text[lead + mn + 3 + mi]);
            let named = TokenView::identifier(name);
            let assign = TokenView::plain(TokenKind::ASSIGN);
            lemma_scan_word(source, a + lead, name);
            lemma_lexes_one(source, a + lead, named, a + lead + mn);
            lemma_scan_punctuator(source, a + lead + mn + 1);
            lemma_lexes_one(source, a + lead + mn + 1, assign, a + lead + mn + 2);
            lemma_lexes_after_space(source, a + lead + mn, seq![assign], a + lead + mn + 2);
            lemma_lexes_expression(value, source, a + lead + mn + 3);
            lemma_tokens_of(value);
            lemma_lexes_after_space(
                source,
                a + lead + mn + 2,
                tokens_of(value),
                a + lead + mn + 3 + mi,
            );
            lemma_scan_punctuator(source, a + lead + mn + 3 + mi);
            lemma_lexes_one(
                source,
                a + lead + mn + 3 + mi,
                semicolon,
                a + lead + mn + 4 + mi,
            );
            lemma_lexes_both(
                source,
                a + lead,
                seq![named],
                a + lead + mn,
                seq![assign],
                a + lead + mn + 2,
            );
            assert(seq![named] + seq![assign] =~= seq![named, assign]);
            lemma_lexes_both(
                source,
                a + lead,
                seq![named, assign],
                a + lead + mn + 2,
                tokens_of(value),
                a + lead + mn + 3 + mi,
            );
            lemma_lexes_both(
                source,
                a + lead,
                seq![named, assign] + tokens_of(value),
                a + lead + mn + 3 + mi,
                seq![semicolon],
                a + lead + mn + 4 + mi,
            );
            if lead == 4 {
                assert(text.subrange(0, 3) =~= "let"@);
                lemma_text_part(source, a, text, 0, "let"@);
                assert(source[a + 3] == text[3]);
                lemma_scan_word(source, a, "let"@);
                lemma_lexes_one(source, a, token, a + 3);
                lemma_lexes_after_space(
                    source,
                    a + 3,
                    seq![named, assign] + tokens_of(value) + seq![semicolon],
                    a + lead + mn + 4 + mi,
                );
                lemma_lexes_both(
                    source,
                    a,
                    seq![token],
                    a + 3,
                    seq![named, assign] + tokens_of(value) + seq![semicolon],
                    a + lead + mn + 4 + mi,
                );
                assert(tokens_of_statement(s) =~= seq![token] + (seq![named, assign]
                    + tokens_of(value) + seq![semicolon]));
            } else {
                assert(tokens_of_statement(s) =~= seq![named, assign] + tokens_of(value)
                    + seq![semicolon]);
            }
        },
        StatementView::Return { value } => {
            let inner = expression_text(value);
            let mi = inner.len() as int;
            let keyword = TokenView::plain(TokenKind::RETURN);
            assert(text =~= "return"@ + seq![' '] + inner + seq![';']);
            assert(text.subrange(0, 6) =~= "return"@);
            assert(text.subrange(7, 7 + mi) =~= inner);
            lemma_text_part(source, a, text, 0, "return"@);
            lemma_text_part(source, a, text, 7, inner);
            assert(source[a + 6] == text[6]);
            assert(source[a + 7 + mi] == text[7 + mi]);
            lemma_scan_word(source, a, "return"@);
            lemma_lexes_one(source, a, keyword, a + 6);
            lemma_lexes_expression(value, source, a + 7);
            lemma_tokens_of(value);
            lemma_lexes_after_space(source, a + 6, tokens_of(value), a + 7 + mi);
            lemma_scan_punctuator(source, a + 7 + mi);
            lemma_lexes_one(source, a + 7 + mi, semicolon, a + 8 + mi);
            lemma_lexes_both(source, a, seq![keyword], a + 6, tokens_of(value), a + 7 + mi);
            lemma_lexes_both(
                source,
                a,
                seq![keyword] + tokens_of(value),
                a + 7 + mi,
                seq![semicolon],
                a + 8 + mi,
            );
        },
        StatementView::Expression { expression } => {
            lemma_lexes_expression(expression, source, a);
        },
        _ => {},
    }
}

/// The text of a plain program is scanned as the tokens of its statements.
proof fn lemma_lexes_program(statements: Seq<StatementView>, n: nat, source: Seq<char>)
    requires
        plain_program(statements),
        n <= statements.len(),
        text_at(source, 0, program_text(statements, n)),
        n >= 1 && statements[n - 1] is Expression ==> ends_token(
            char_at(source, program_text(statements, n).len() as int),
        ),
    ensures
        lexes(
            source,
            0,
            tokens_of_program(statements, n),
            program_text(statements, n).len() as int,
        ),
    decreases n,
{
    if n > 0 {
        let text = program_text(statements, n);
        let before = program_text(statements, (n - 1) as nat);
        let last = statement_text(statements[n - 1]);
        let mb = before.len() as int;
        assert(text == before + last);
        assert(text.subrange(0, mb) =~= before);
        assert(text.subrange(mb, mb + last.len()) =~= last);
        lemma_text_part(source, 0, text, 0, before);
        lemma_text_part(source, 0, text, mb, last);
        lemma_lexes_program(statements, (n - 1) as nat, source);
        lemma_lexes_statement(statements[n - 1], source, mb);
        lemma_lexes_both(
            source,
            0,
            tokens_of_program(statements, (n - 1) as nat),
            mb,
            tokens_of_statement(statements[n - 1]),
            mb + last.len(),
        );
    }
}

/// The canonical text of a plain program parses to that program, without
/// error.
pub proof fn lemma_plain_program_parses_back(statements: Seq<StatementView>)
    requires
        plain_program(statements),
    ensures
        parse_source(program_text(statements, statements.len())) == (
            statements,
            Seq::<Seq<char>>::empty(),
        ),
{
    let source = program_text(statements, statements.len());
    let tokens = tokens_of_program(statements, statements.len());
    let n = tokens.len() as int;
    assert(source.subrange(0, source.len() as int) =~= source);
    lemma_lexes_program(statements, statements.len(), source);
    lemma_lexes_places(source, 0, tokens, source.len() as int);
    lemma_end_of_tokens(source, n, n);
    assert(start(source, 0) == state_at(source, 0)) by {
        reveal_with_fuel(cursor_after, 3);
    }
    lemma_parse_plain_program(statements, source, 0);
    assert(statements.take(0) =~= Seq::<StatementView>::empty());
}

/// Parsing, printing and parsing again gives what parsing gave, for every
/// text that parses without error to a plain program.
pub proof fn lemma_round_trip(source: Seq<char>)
    requires
        parse_source(source).1.len() == 0,
        plain_program(parse_source(source).0),
    ensures
        parse_source(program_text(parse_source(source).0, parse_source(source).0.len()))
            == parse_source(source),
{
    let parsed = parse_source(source);
    lemma_plain_program_parses_back(parsed.0);
    assert(parsed.1 =~= Seq::<Seq<char>>::empty());
}

/// The tokens of `source` from `cursor` on, up to the first `EOF`.
pub open spec fn token_stream(source: Seq<char>, cursor: int) -> Seq<TokenView>
    decreases remaining(source, cursor),
{
    let scanned = scan_token(source, cursor);
    if scanned.0.kind == TokenKind::EOF {
        Seq::empty()
    } else {
        proof {
            lemma_scan_token_advances(source, cursor);
        }
        seq![scanned.0] + token_stream(source, scanned.1)
    }
}

/// The written forms of the first `n` of `tokens`, with one space between
/// each two.
pub open spec fn written_text(tokens: Seq<TokenView>, n: nat) -> Seq<char>
    decreases n,
{
    if n == 0 || n > tokens.len() {
        Seq::empty()
    } else if n == 1 {
        written_form(tokens[0])
    } else {
        written_text(tokens, (n - 1) as nat) + seq![' '] + written_form(tokens[n - 1])
    }
}

/// Whether a character forms an illegal token by itself: it is no
/// whitespace, letter, digit, punctuator or double quote, and not NUL.
pub open spec fn is_stray(c: char) -> bool {
    &&& !CharClass::Whitespace.holds(c)
    &&& !CharClass::Letter.holds(c)
    &&& !is_digit(c)
    &&& punctuator(c) is None
    &&& c != '"'
    &&& c != '\0'
}

/// Whether a token is one that its written form is read as: a name, a
/// number that is not negative, a string without a double quote or NUL in
/// it, a stray character, or a punctuator, operator or keyword.
pub open spec fn writable(token: TokenView) -> bool {
    match token.kind {
        TokenKind::EOF => false,
        TokenKind::IDENT => token == TokenView::identifier(token.text) && is_name(token.text),
        TokenKind::INT => token == TokenView::integer(token.number) && token.number >= 0,
        TokenKind::STRING => token == TokenView::string(token.text) && forall|i: int|
            0 <= i < token.text.len() ==> CharClass::StringBody.holds(#[trigger] token.text[i]),
        TokenKind::ILLEGAL => token.text.len() == 1 && token == TokenView::illegal(token.text[0])
            && is_stray(token.text[0]),
        _ => token == TokenView::plain(token.kind),
    }
}

/// Whether a token stands for a number that was too large: an illegal token
/// that carries a digit. Written out it is that digit, which is read as a
/// number.
pub open spec fn stands_for_large_number(token: TokenView) -> bool {
    token.kind == TokenKind::ILLEGAL && token.text.len() == 1 && is_digit(token.text[0])
}

/// The spelling of every punctuator, operator and keyword, and the keyword
/// that each spelling of a keyword is.
proof fn lemma_all_spellings()
    ensures
        "="@ == seq!['='],
        "+"@ == seq!['+'],
        "-"@ == seq!['-'],
        "!"@ == seq!['!'],
        "*"@ == seq!['*'],
        "/"@ == seq!['/'],
        ">"@ == seq!['>'],
        "<"@ == seq!['<'],
        ","@ == seq![','],
        ";"@ == seq![';'],
        "("@ == seq!['('],
        ")"@ == seq![')'],
        "{"@ == seq!['{'],
        "}"@ == seq!['}'],
        "=="@ == seq!['=', '='],
        "!="@ == seq!['!', '='],
        "fn"@ == seq!['f', 'n'],
        "let"@ == seq!['l', 'e', 't'],
        "true"@ == seq!['t', 'r', 'u', 'e'],
        "false"@ == seq!['f', 'a', 'l', 's', 'e'],
        "if"@ == seq!['i', 'f'],
        "else"@ == seq!['e', 'l', 's', 'e'],
        "return"@ == seq!['r', 'e', 't', 'u', 'r', 'n'],
        keyword_kind("fn"@) == Some(TokenKind::FUNCTION),
        keyword_kind("let"@) == Some(TokenKind::LET),
        keyword_kind("true"@) == Some(TokenKind::TRUE),
        keyword_kind("false"@) == Some(TokenKind::FALSE),
        keyword_kind("if"@) == Some(TokenKind::IF),
        keyword_kind("else"@) == Some(TokenKind::ELSE),
        keyword_kind("return"@) == Some(TokenKind::RETURN),
{
    lemma_spellings();
    reveal_strlit("=");
    reveal_strlit(",");
    reveal_strlit("{");
    reveal_strlit("}");
    reveal_strlit("fn");
    reveal_strlit("if");
    reveal_strlit("else");
    assert("="@ =~= seq!['=']);
    assert(","@ =~= seq![',']);
    assert("{"@ =~= seq!['{']);
    assert("}"@ =~= seq!['}']);
    assert("fn"@ =~= seq!['f', 'n']);
    assert("if"@ =~= seq!['i', 'f']);
    assert("else"@ =~= seq!['e', 'l', 's', 'e']);
    assert("if"@[0] != "fn"@[0]);
    assert("else"@[0] != "true"@[0]);
}

/// A writable token that stands in a text before a space, or at its end, is
/// scanned as itself.
proof fn lemma_scan_written(source: Seq<char>, a: int, token: TokenView)
    requires
        writable(token),
        text_at(source, a, written_form(token)),
        char_at(source, a + written_form(token).len()) == ' ' || a + written_form(token).len()
            == source.len(),
    ensures
        written_form(token).len() >= 1,
        scan_token(source, a) == (token, a + written_form(token).len()),
{
    lemma_all_spellings();
    let text = written_form(token);
    let m = text.len() as int;
    assert(text.subrange(0, m) =~= text);
    if token.kind == TokenKind::IDENT {
        lemma_scan_word(source, a, text);
    } else if token.kind == TokenKind::INT {
        lemma_digits_of_natural_text(token.number as nat);
        lemma_scan_number(source, a, text);
    } else if token.kind == TokenKind::STRING {
        let body = token.text;
        assert(text =~= seq!['"'] + body + seq!['"']);
        lemma_text_part(source, a, text, 0, text);
        assert(source[a] == text[0]);
        assert(source[a + 1 + body.len()] == text[1 + body.len() as int]);
        assert forall|i: int| a + 1 <= i < a + 1 + body.len() implies CharClass::StringBody.holds(
            #[trigger] source[i],
        ) by {
            assert(source[i] == text[i - a]);
            assert(text[i - a] == body[i - a - 1]);
        }
        lemma_run_exact(source, a, a, CharClass::Whitespace);
        lemma_run_exact(source, a + 1, a + 1 + body.len(), CharClass::StringBody);
        assert(source.subrange(a + 1, a + 1 + body.len()) =~= body) by {
            assert forall|i: int| 0 <= i < body.len() implies source[a + 1 + i] == body[i] by {
                assert(source[a + 1 + i] == text[1 + i]);
            }
        }
        reveal(scan_token);
    } else if token.kind == TokenKind::ILLEGAL {
        assert(text =~= seq![token.text[0]]);
        lemma_text_part(source, a, text, 0, text);
        assert(source[a] == text[0]);
        lemma_run_exact(source, a, a, CharClass::Whitespace);
        reveal(scan_token);
    } else if token.kind == TokenKind::EQ || token.kind == TokenKind::NOT_EQ {
        lemma_text_part(source, a, text, 0, text);
        assert(source[a] == text[0]);
        assert(source[a + 1] == text[1]);
        lemma_scan_double(source, a);
    } else if token.kind == TokenKind::FUNCTION || token.kind == TokenKind::LET || token.kind
        == TokenKind::TRUE || token.kind == TokenKind::FALSE || token.kind == TokenKind::IF
        || token.kind == TokenKind::ELSE || token.kind == TokenKind::RETURN {
        lemma_scan_word(source, a, text);
    } else {
        lemma_text_part(source, a, text, 0, text);
        assert(source[a] == text[0]);
        lemma_scan_punctuator(source, a);
    }
}

/// The written forms of writable tokens, with a space between each two,
/// are scanned as those tokens.
proof fn lemma_lexes_written(tokens: Seq<TokenView>, n: nat, source: Seq<char>)
    requires
        n <= tokens.len(),
        forall|i: int| 0 <= i < tokens.len() ==> writable(#[trigger] tokens[i]),
        text_at(source, 0, written_text(tokens, n)),
        char_at(source, written_text(tokens, n).len() as int) == ' ' || written_text(
            tokens,
            n,
        ).len() == source.len(),
    ensures
        lexes(source, 0, tokens.take(n as int), written_text(tokens, n).len() as int),
    decreases n,
{
    let text = written_text(tokens, n);
    if n == 0 {
        assert(tokens.take(0) =~= Seq::<TokenView>::empty());
    } else if n == 1 {
        lemma_scan_written(source, 0, tokens[0]);
        lemma_lexes_one(source, 0, tokens[0], text.len() as int);
        assert(tokens.take(1) =~= seq![tokens[0]]);
    } else {
        let before = written_text(tokens, (n - 1) as nat);
        let last = written_form(tokens[n - 1]);
        let mb = before.len() as int;
        let ml = last.len() as int;
        assert(text =~= before + seq![' '] + last);
        assert(text.subrange(0, mb) =~= before);
        assert(text.subrange(mb + 1, mb + 1 + ml) =~= last);
        lemma_text_part(source, 0, text, 0, before);
        lemma_text_part(source, 0, text, mb + 1, last);
        assert(source[mb] == text[mb]);
        lemma_lexes_written(tokens, (n - 1) as nat, source);
        lemma_scan_written(source, mb + 1, tokens[n - 1]);
        lemma_lexes_one(source, mb + 1, tokens[n - 1], mb + 1 + ml);
        lemma_lexes_after_space(source, mb, seq![tokens[n - 1]], mb + 1 + ml);
        lemma_lexes_both(
            source,
            0,
            tokens.take(n - 1),
            mb,
            seq![tokens[n - 1]],
            mb + 1 + ml,
        );
        assert(tokens.take(n - 1) + seq![tokens[n - 1]] =~= tokens.take(n as int));
    }
}

/// What is scanned up to the end of a text, with no `EOF` in it, is the
/// tokens of the text.
proof fn lemma_lexes_stream(source: Seq<char>, from: int, tokens: Seq<TokenView>, to: int)
    requires
        lexes(source, from, tokens, to),
        to >= source.len(),
        forall|i: int| 0 <= i < tokens.len() ==> (#[trigger] tokens[i]).kind != TokenKind::EOF,
    ensures
        token_stream(source, from) == tokens,
    decreases tokens.len(),
{
    if tokens.len() == 0 {
        lemma_scan_token_at_end(source, from);
        assert(tokens =~= Seq::<TokenView>::empty());
    } else {
        let rest = tokens.drop_first();
        assert(tokens[0].kind != TokenKind::EOF);
        assert forall|i: int| 0 <= i < rest.len() implies (#[trigger] rest[i]).kind
            != TokenKind::EOF by {
            assert(rest[i] == tokens[i + 1]);
        }
        lemma_lexes_stream(source, scan_token(source, from).1, rest, to);
        assert(seq![tokens[0]] + rest =~= tokens);
    }
}

/// Every token that the lexer hands out is `EOF`, or writable, or stands
/// for a number that was too large.
pub proof fn lemma_scanned_token_is_writable(source: Seq<char>, cursor: int)
    requires
        0 <= cursor,
    ensures
        ({
            let token = scan_token(source, cursor).0;
            token == TokenView::plain(TokenKind::EOF) || writable(token)
                || stands_for_large_number(token)
        }),
{
    reveal(scan_token);
    let start = run_end(source, cursor, CharClass::Whitespace);
    let c = char_at(source, start);
    let token = scan_token(source, cursor).0;
    lemma_run_end(source, cursor, CharClass::Whitespace);
    if c == '\0' {
    } else if c == '=' && char_at(source, start + 1) == '=' {
    } else if c == '!' && char_at(source, start + 1) == '=' {
    } else if punctuator(c) is Some {
    } else if c == '"' {
        let end = run_end(source, start + 1, CharClass::StringBody);
        lemma_run_end(source, start + 1, CharClass::StringBody);
        let body = source.subrange(start + 1, end);
        assert forall|i: int| 0 <= i < body.len() implies CharClass::StringBody.holds(
            #[trigger] body[i],
        ) by {
            assert(body[i] == source[start + 1 + i]);
        }
    } else if CharClass::Letter.holds(c) {
        let end = run_end(source, start, CharClass::Letter);
        lemma_run_end(source, start, CharClass::Letter);
        let word = source.subrange(start, end);
        assert forall|i: int| 0 <= i < word.len() implies CharClass::Letter.holds(
            #[trigger] word[i],
        ) by {
            assert(word[i] == source[start + i]);
        }
    } else if CharClass::Digit.holds(c) {
        let end = run_end(source, start, CharClass::Digit);
        lemma_run_end(source, start, CharClass::Digit);
        let digits = source.subrange(start, end);
        assert(digits[0] == c);
        assert(TokenView::illegal(c).text =~= seq![c]);
    } else {
        assert(TokenView::illegal(c).text =~= seq![c]);
    }
}

/// No token of a text is `EOF`, and each is writable or stands for a number
/// that was too large.
proof fn lemma_stream_tokens(source: Seq<char>, cursor: int, i: int)
    requires
        0 <= cursor,
        0 <= i < token_stream(source, cursor).len(),
    ensures
        token_stream(source, cursor)[i].kind != TokenKind::EOF,
        writable(token_stream(source, cursor)[i]) || stands_for_large_number(
            token_stream(source, cursor)[i],
        ),
    decreases i,
{
    let scanned = scan_token(source, cursor);
    lemma_scanned_token_is_writable(source, cursor);
    lemma_scan_token_advances(source, cursor);
    if i > 0 {
        lemma_stream_tokens(source, scanned.1, i - 1);
    }
}

/// The tokens of a text give the text back, up to whitespace: written out
/// with one space between each two, string literals between their quotes,
/// they are read as the same tokens again, kinds and payloads. This holds
/// of every text but one with a number too large in it.
pub proof fn lemma_tokens_are_read_back(source: Seq<char>)
    requires
        forall|i: int|
            0 <= i < token_stream(source, 0).len() ==> !stands_for_large_number(
                #[trigger] token_stream(source, 0)[i],
            ),
    ensures
        token_stream(
            written_text(token_stream(source, 0), token_stream(source, 0).len()),
            0,
        ) == token_stream(source, 0),
{
    let tokens = token_stream(source, 0);
    let written = written_text(tokens, tokens.len());
    assert forall|i: int| 0 <= i < tokens.len() implies writable(#[trigger] tokens[i])
        && tokens[i].kind != TokenKind::EOF by {
        lemma_stream_tokens(source, 0, i);
    }
    assert(written.subrange(0, written.len() as int) =~= written);
    lemma_lexes_written(tokens, tokens.len(), written);
    assert(tokens.take(tokens.len() as int) =~= tokens);
    lemma_lexes_stream(written, 0, tokens, written.len() as int);
}

/// A text without its whitespace.
pub open spec fn without_whitespace(text: Seq<char>) -> Seq<char>
    decreases text.len(),
{
    if text.len() == 0 {
        Seq::empty()
    } else if CharClass::Whitespace.holds(text.last()) {
        without_whitespace(text.drop_last())
    } else {
        without_whitespace(text.drop_last()).push(text.last())
    }
}

/// The written forms of the first `n` of `tokens`, one after the other.
pub open spec fn written_forms(tokens: Seq<TokenView>, n: nat) -> Seq<char>
    decreases n,
{
    if n == 0 || n > tokens.len() {
        Seq::empty()
    } else {
        written_forms(tokens, (n - 1) as nat) + written_form(tokens[n - 1])
    }
}

/// Whether every token of `source` from `cursor` on is plainly written, and
/// none is a string literal, in which whitespace would count.
pub open spec fn plainly_written_from(source: Seq<char>, cursor: int) -> bool
    decreases remaining(source, cursor),
{
    let scanned = scan_token(source, cursor);
    plainly_written(source, cursor) && (scanned.0.kind != TokenKind::EOF ==> {
        proof {
            lemma_scan_token_advances(source, cursor);
        }
        scanned.0.kind != TokenKind::STRING && plainly_written_from(source, scanned.1)
    })
}

/// Whether a text holds no whitespace.
pub open spec fn is_dense(text: Seq<char>) -> bool {
    forall|i: int| 0 <= i < text.len() ==> !CharClass::Whitespace.holds(#[trigger] text[i])
}

proof fn lemma_without_whitespace_of_both(first: Seq<char>, second: Seq<char>)
    ensures
        without_whitespace(first + second) == without_whitespace(first) + without_whitespace(
            second,
        ),
    decreases second.len(),
{
    if second.len() == 0 {
        assert(first + second =~= first);
        assert(without_whitespace(first) + without_whitespace(second) =~= without_whitespace(
            first,
        ));
    } else {
        assert((first + second).drop_last() =~= first + second.drop_last());
        assert((first + second).last() == second.last());
        lemma_without_whitespace_of_both(first, second.drop_last());
        if !CharClass::Whitespace.holds(second.last()) {
            assert(without_whitespace(first + second) =~= without_whitespace(first)
                + without_whitespace(second));
        }
    }
}

proof fn lemma_without_whitespace_of_dense(text: Seq<char>)
    requires
        is_dense(text),
    ensures
        without_whitespace(text) == text,
    decreases text.len(),
{
    if text.len() > 0 {
        assert forall|i: int| 0 <= i < text.drop_last().len() implies !CharClass::Whitespace.holds(
            #[trigger] text.drop_last()[i],
        ) by {
            assert(text.drop_last()[i] == text[i]);
        }
        lemma_without_whitespace_of_dense(text.drop_last());
        assert(text.drop_last().push(text.last()) =~= text);
    } else {
        assert(text =~= Seq::<char>::empty());
    }
}

proof fn lemma_without_whitespace_of_blank(text: Seq<char>)
    requires
        forall|i: int| 0 <= i < text.len() ==> CharClass::Whitespace.holds(#[trigger] text[i]),
    ensures
        without_whitespace(text) == Seq::<char>::empty(),
    decreases text.len(),
{
    if text.len() > 0 {
        assert forall|i: int| 0 <= i < text.drop_last().len() implies CharClass::Whitespace.holds(
            #[trigger] text.drop_last()[i],
        ) by {
            assert(text.drop_last()[i] == text[i]);
        }
        lemma_without_whitespace_of_blank(text.drop_last());
    }
}

/// The written form of a writable token that is no string literal holds no
/// whitespace.
proof fn lemma_written_form_is_dense(token: TokenView)
    requires
        writable(token),
        token.kind != TokenKind::STRING,
    ensures
        is_dense(written_form(token)),
{
    lemma_all_spellings();
    if token.kind == TokenKind::INT {
        lemma_digits_of_natural_text(token.number as nat);
    }
}

/// The written forms of tokens, with a space between each two, are without
/// whitespace the written forms one after the other.
proof fn lemma_written_text_without_whitespace(tokens: Seq<TokenView>, n: nat)
    requires
        n <= tokens.len(),
        forall|i: int| 0 <= i < tokens.len() ==> is_dense(written_form(#[trigger] tokens[i])),
    ensures
        without_whitespace(written_text(tokens, n)) == written_forms(tokens, n),
    decreases n,
{
    if n == 0 {
    } else if n == 1 {
        lemma_without_whitespace_of_dense(written_form(tokens[0]));
        assert(written_forms(tokens, 0) + written_form(tokens[0]) =~= written_form(tokens[0]));
    } else {
        let before = written_text(tokens, (n - 1) as nat);
        let last = written_form(tokens[n - 1]);
        lemma_written_text_without_whitespace(tokens, (n - 1) as nat);
        lemma_without_whitespace_of_both(before + seq![' '], last);
        lemma_without_whitespace_of_both(before, seq![' ']);
        lemma_without_whitespace_of_blank(seq![' ']);
        lemma_without_whitespace_of_dense(last);
        assert(without_whitespace(before) + Seq::<char>::empty() =~= without_whitespace(before));
    }
}

proof fn lemma_written_forms_after_first(first: TokenView, rest: Seq<TokenView>, n: nat)
    requires
        n <= rest.len(),
    ensures
        written_forms(seq![first] + rest, n + 1) == written_form(first) + written_forms(rest, n),
    decreases n,
{
    let all = seq![first] + rest;
    if n == 0 {
        assert(written_forms(all, 0) + written_form(all[0]) =~= written_form(first)
            + written_forms(rest, 0));
    } else {
        lemma_written_forms_after_first(first, rest, (n - 1) as nat);
        assert(all[n as int] == rest[n - 1]);
        assert(written_forms(all, n) + written_form(rest[n - 1]) =~= written_form(first) + (
        written_forms(rest, (n - 1) as nat) + written_form(rest[n - 1])));
    }
}

/// A plainly written token does not stand for a number that was too large.
proof fn lemma_plainly_written_is_writable(source: Seq<char>, cursor: int)
    requires
        0 <= cursor,
        plainly_written(source, cursor),
        scan_token(source, cursor).0.kind != TokenKind::EOF,
    ensures
        writable(scan_token(source, cursor).0),
{
    lemma_scanned_token_is_writable(source, cursor);
    reveal(scan_token);
    let start = run_end(source, cursor, CharClass::Whitespace);
    let c = char_at(source, start);
    if CharClass::Digit.holds(c) {
    } else {
        assert(TokenView::illegal(c).text =~= seq![c]);
    }
}

/// What is left of a plainly written text from `cursor` on is, without its
/// whitespace, the written forms of its tokens one after the other.
proof fn lemma_rest_without_whitespace(source: Seq<char>, cursor: int)
    requires
        0 <= cursor <= source.len(),
        plainly_written_from(source, cursor),
    ensures
        without_whitespace(source.subrange(cursor, source.len() as int)) == written_forms(
            token_stream(source, cursor),
            token_stream(source, cursor).len(),
        ),
        forall|i: int|
            0 <= i < token_stream(source, cursor).len() ==> is_dense(
                written_form(#[trigger] token_stream(source, cursor)[i]),
            ),
    decreases remaining(source, cursor),
{
    let scanned = scan_token(source, cursor);
    let start = run_end(source, cursor, CharClass::Whitespace);
    let end = source.len() as int;
    let tokens = token_stream(source, cursor);
    lemma_token_gives_source_back(source, cursor);
    lemma_scan_token_advances(source, cursor);
    let blank = source.subrange(cursor, start);
    assert forall|i: int| 0 <= i < blank.len() implies CharClass::Whitespace.holds(
        #[trigger] blank[i],
    ) by {
        assert(blank[i] == source[cursor + i]);
    }
    lemma_without_whitespace_of_blank(blank);
    if scanned.0.kind == TokenKind::EOF {
        assert(start >= source.len()) by {
            reveal(scan_token);
        }
        assert(source.subrange(cursor, end) =~= blank);
    } else {
        let rest = token_stream(source, scanned.1);
        let form = written_form(scanned.0);
        lemma_plainly_written_is_writable(source, cursor);
        lemma_written_form_is_dense(scanned.0);
        lemma_rest_without_whitespace(source, scanned.1);
        assert(source.subrange(cursor, end) =~= blank + form + source.subrange(scanned.1, end));
        lemma_without_whitespace_of_both(blank + form, source.subrange(scanned.1, end));
        lemma_without_whitespace_of_both(blank, form);
        lemma_without_whitespace_of_dense(form);
        lemma_written_forms_after_first(scanned.0, rest, rest.len());
        assert(Seq::<char>::empty() + form =~= form);
        assert forall|i: int| 0 <= i < tokens.len() implies is_dense(
            written_form(#[trigger] tokens[i]),
        ) by {
            if i > 0 {
                assert(tokens[i] == rest[i - 1]);
            }
        }
    }
}

/// The tokens of a plainly written text without string literals, written
/// out with a space between each two, are the text itself but for
/// whitespace.
pub proof fn lemma_written_tokens_are_the_source(source: Seq<char>)
    requires
        plainly_written_from(source, 0),
    ensures
        without_whitespace(written_text(token_stream(source, 0), token_stream(source, 0).len()))
            == without_whitespace(source),
{
    let tokens = token_stream(source, 0);
    lemma_rest_without_whitespace(source, 0);
    lemma_written_text_without_whitespace(tokens, tokens.len());
    assert(source.subrange(0, source.len() as int) =~= source);
}

} // verus!
