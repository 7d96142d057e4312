//! The syntax tree: programs, statements and expressions, what each of them
//! is as a mathematical tree, and the canonical text that each is printed
//! as.

pub mod expression;
pub mod statement;

use crate::token::{TokenKind, TokenView};
use expression::ExpressionType;
use statement::StatementType;
use vstd::prelude::*;

verus! {

/// What an expression is: a tree whose leaves carry tokens.
pub enum ExpressionView {
    Identifier(TokenView),
    IntegerLiteral(TokenView),
    StringLiteral(TokenView),
    Prefix { operator: TokenView, right: Box<ExpressionView> },
    Infix { operator: TokenView, left: Box<ExpressionView>, right: Box<ExpressionView> },
    Boolean(TokenView),
    If {
        condition: Box<ExpressionView>,
        consequence: Box<StatementView>,
        alternative: Option<Box<StatementView>>,
    },
    Fn { parameters: Seq<ExpressionView>, body: Box<StatementView> },
    Call { token: TokenView, function: Box<ExpressionView>, arguments: Seq<ExpressionView> },
}

/// What a statement is.
pub enum StatementView {
    Let { token: TokenView, name: Seq<char>, value: ExpressionView },
    Return { value: ExpressionView },
    Expression { expression: ExpressionView },
    Block { statements: Seq<StatementView> },
}

/// What a program is: its statements, in order.
pub struct ProgramView {
    pub statements: Seq<StatementView>,
}

/// The tree that an expression is.
pub open spec fn expression_view(e: ExpressionType) -> ExpressionView
    decreases e,
{
    match e {
        ExpressionType::Identifier(node) => ExpressionView::Identifier(node.token@),
        ExpressionType::IntegerLiteral(node) => ExpressionView::IntegerLiteral(node.token@),
        ExpressionType::StringLiteral(node) => ExpressionView::StringLiteral(node.token@),
        ExpressionType::Prefix(node) => ExpressionView::Prefix {
            operator: node.operator@,
            right: Box::new(expression_view(*node.right)),
        },
        ExpressionType::Infix(node) => ExpressionView::Infix {
            operator: node.operator@,
            left: Box::new(expression_view(*node.left)),
            right: Box::new(expression_view(*node.right)),
        },
        ExpressionType::Boolean(node) => ExpressionView::Boolean(node.token@),
        ExpressionType::If(node) => ExpressionView::If {
            condition: Box::new(expression_view(*node.condition)),
            consequence: Box::new(statement_view(*node.consequence)),
            alternative: match node.alternative {
                Some(alternative) => Some(Box::new(statement_view(*alternative))),
                None => None,
            },
        },
        ExpressionType::Fn(node) => ExpressionView::Fn {
            parameters: Seq::new(
                node.parameters@.len(),
                |i: int|
                    if 0 <= i < node.parameters@.len() {
                        expression_view(*node.parameters@[i])
                    } else {
                        arbitrary()
                    },
            ),
            body: Box::new(statement_view(*node.body)),
        },
        ExpressionType::Call(node) => ExpressionView::Call {
            token: node.token@,
            function: Box::new(expression_view(*node.function)),
            arguments: Seq::new(
                node.arguments@.len(),
                |i: int|
                    if 0 <= i < node.arguments@.len() {
                        expression_view(*node.arguments@[i])
                    } else {
                        arbitrary()
                    },
            ),
        },
    }
}

/// The tree that a statement is.
pub open spec fn statement_view(s: StatementType) -> StatementView
    decreases s,
{
    match s {
        StatementType::Let(node) => StatementView::Let {
            token: node.token@,
            name: node.name@,
            value: expression_view(*node.value),
        },
        StatementType::Return(node) => StatementView::Return {
            value: expression_view(*node.value),
        },
        StatementType::Expression(node) => StatementView::Expression {
            expression: expression_view(*node.expression),
        },
        StatementType::Block(node) => StatementView::Block {
            statements: Seq::new(
                node.statements@.len(),
                |i: int|
                    if 0 <= i < node.statements@.len() {
                        statement_view(*node.statements@[i])
                    } else {
                        arbitrary()
                    },
            ),
        },
    }
}

/// The trees of a sequence of expressions.
pub open spec fn expressions_view(items: Seq<Box<ExpressionType>>) -> Seq<ExpressionView> {
    Seq::new(items.len(), |i: int| expression_view(*items[i]))
}

/// The trees of a sequence of statements.
pub open spec fn statements_view(items: Seq<Box<StatementType>>) -> Seq<StatementView> {
    Seq::new(items.len(), |i: int| statement_view(*items[i]))
}

/// The token text by which an expression is known: that of its own token,
/// of its operator, or its keyword.
pub open spec fn expression_literal(e: ExpressionView) -> Seq<char> {
    match e {
        ExpressionView::Identifier(token) => token.literal(),
        ExpressionView::IntegerLiteral(token) => token.literal(),
        ExpressionView::StringLiteral(token) => token.literal(),
        ExpressionView::Prefix { operator, .. } => operator.literal(),
        ExpressionView::Infix { operator, .. } => operator.literal(),
        ExpressionView::Boolean(token) => token.literal(),
        ExpressionView::If { .. } => "if"@,
        ExpressionView::Fn { .. } => "fn"@,
        ExpressionView::Call { token, .. } => token.literal(),
    }
}

/// The token text by which a statement is known.
pub open spec fn statement_literal(s: StatementView) -> Seq<char> {
    match s {
        StatementView::Let { token, .. } => token.literal(),
        StatementView::Return { .. } => "return"@,
        StatementView::Expression { expression } => expression_literal(expression),
        StatementView::Block { .. } => Seq::empty(),
    }
}

/// What stands before the name in a binding: the keyword and a space, and
/// nothing where the statement binds anew with `=` alone.
pub open spec fn binding_prefix(token: TokenView) -> Seq<char> {
    if token.kind == TokenKind::ASSIGN {
        Seq::empty()
    } else {
        token.literal() + " "@
    }
}

/// The canonical text of an expression. Every prefix and every infix
/// operation stands in parentheses of its own, so the text shows the tree
/// without any rule of precedence.
pub open spec fn expression_text(e: ExpressionView) -> Seq<char>
    decreases e, 0nat,
{
    match e {
        ExpressionView::Identifier(token) => token.literal(),
        ExpressionView::IntegerLiteral(token) => token.literal(),
        ExpressionView::StringLiteral(token) => token.literal(),
        ExpressionView::Prefix { operator, right } => "("@ + operator.literal() + expression_text(
            *right,
        ) + ")"@,
        ExpressionView::Infix { operator, left, right } => "("@ + expression_text(*left) + " "@
            + operator.literal() + " "@ + expression_text(*right) + ")"@,
        ExpressionView::Boolean(token) => token.literal(),
        ExpressionView::If { condition, consequence, alternative } => "if "@ + expression_text(
            *condition,
        ) + " "@ + "{ "@ + statement_text(*consequence) + " }"@ + match alternative {
            Some(alternative) => "else "@ + "{ "@ + statement_text(*alternative),
            None => Seq::empty(),
        },
        ExpressionView::Fn { parameters, body } => "fn"@ + "("@ + joined_text(
            parameters,
            parameters.len(),
            ","@,
        ) + ")"@ + statement_text(*body),
        ExpressionView::Call { token, function, arguments } => expression_text(*function) + "("@
            + joined_text(arguments, arguments.len(), ", "@) + ")"@,
    }
}

/// The texts of the first `n` of `items`, with `separator` between each two.
pub open spec fn joined_text(items: Seq<ExpressionView>, n: nat, separator: Seq<char>) -> Seq<
    char,
>
    decreases items, n,
{
    if n == 0 || n > items.len() {
        Seq::empty()
    } else if n == 1 {
        expression_text(items[0])
    } else {
        joined_text(items, (n - 1) as nat, separator) + separator + expression_text(
            items[n - 1],
        )
    }
}

/// The canonical text of a statement.
pub open spec fn statement_text(s: StatementView) -> Seq<char>
    decreases s, 0nat,
{
    match s {
        StatementView::Let { token, name, value } => binding_prefix(token) + name + " = "@
            + expression_text(value) + ";"@,
        StatementView::Return { value } => "return"@ + " "@ + expression_text(value) + ";"@,
        StatementView::Expression { expression } => expression_text(expression),
        StatementView::Block { statements } => block_text(statements, statements.len()),
    }
}

/// The text of the first `n` statements of a block, each in braces of its
/// own.
pub open spec fn block_text(statements: Seq<StatementView>, n: nat) -> Seq<char>
    decreases statements, n,
{
    if n == 0 || n > statements.len() {
        Seq::empty()
    } else {
        block_text(statements, (n - 1) as nat) + "{"@ + statement_text(statements[n - 1]) + "}"@
    }
}

/// The text of the first `n` statements of a program, one after the other.
pub open spec fn program_text(statements: Seq<StatementView>, n: nat) -> Seq<char>
    decreases n,
{
    if n == 0 || n > statements.len() {
        Seq::empty()
    } else {
        program_text(statements, (n - 1) as nat) + statement_text(statements[n - 1])
    }
}

/// The text of every prefix and of every infix operation stands in
/// parentheses of its own: it starts with `(`, ends with `)`, and holds
/// between them the operator and the texts of the operands, which are in
/// parentheses in their turn where they are operations.
pub proof fn lemma_operations_are_parenthesised(e: ExpressionView)
    ensures
        e matches ExpressionView::Prefix { operator, right } ==> expression_text(e) == seq!['(']
            + (operator.literal() + expression_text(*right)) + seq![')'],
        e matches ExpressionView::Infix { operator, left, right } ==> expression_text(e) == seq![
            '(',
        ] + (expression_text(*left) + seq![' '] + operator.literal() + seq![' ']
            + expression_text(*right)) + seq![')'],
        e is Prefix || e is Infix ==> expression_text(e).len() >= 2 && expression_text(e).first()
            == '(' && expression_text(e).last() == ')',
{
    reveal_strlit("(");
    reveal_strlit(")");
    reveal_strlit(" ");
    match e {
        ExpressionView::Prefix { operator, right } => {
            assert(expression_text(e) =~= seq!['('] + (operator.literal() + expression_text(
                *right,
            )) + seq![')']);
        },
        ExpressionView::Infix { operator, left, right } => {
            assert(expression_text(e) =~= seq!['('] + (expression_text(*left) + seq![' ']
                + operator.literal() + seq![' '] + expression_text(*right)) + seq![')']);
        },
        _ => {},
    }
}

/// A node of the syntax tree, with the two texts that every node has.
pub trait TNode {
    /// The token text by which the node is known.
    spec fn literal(&self) -> Seq<char>;

    /// The canonical text of the node.
    spec fn text(&self) -> Seq<char>;

    fn token_literal(&self) -> (s: String)
        ensures
            s@ == self.literal(),
    ;

    fn string(&self) -> (s: String)
        ensures
            s@ == self.text(),
    ;
}

/// Anything that can be evaluated.
#[derive(Debug)]
pub enum Node {
    Statement(StatementType),
    Expression(ExpressionType),
    Program(Program),
}

#[derive(Debug)]
pub struct Program {
    pub statements: Vec<Box<StatementType>>,
}

impl View for Program {
    type V = ProgramView;

    open spec fn view(&self) -> ProgramView {
        ProgramView { statements: statements_view(self.statements@) }
    }
}

impl TNode for Program {
    open spec fn literal(&self) -> Seq<char> {
        "Program"@
    }

    open spec fn text(&self) -> Seq<char> {
        program_text(self@.statements, self@.statements.len())
    }

    fn token_literal(&self) -> (s: String) {
        String::from_str("Program")
    }

    fn string(&self) -> (s: String) {
        let mut out = String::new();
        let mut i: usize = 0;
        while i < self.statements.len()
            invariant
                i <= self.statements.len(),
                out@ == program_text(self@.statements, i as nat),
            decreases self.statements.len() - i,
        {
            let s = self.statements[i].string();
            out.append(s.as_str());
            i = i + 1;
        }
        out
    }
}

impl Program {
    /// The program as something that can be evaluated.
    pub fn to_node(self) -> (node: Node)
        ensures
            node == Node::Program(self),
    {
        Node::Program(self)
    }
}

impl Node {
    /// The statement type that this is, if it is one.
    pub fn as_statement(&self) -> (r: Option<&StatementType>)
        ensures
            self is Statement ==> r == Some(&self->Statement_0),
            !(self is Statement) ==> r is None,
    {
        match self {
            Node::Statement(inner) => Some(inner),
            _ => None,
        }
    }

    /// The expression type that this is, if it is one.
    pub fn as_expression(&self) -> (r: Option<&ExpressionType>)
        ensures
            self is Expression ==> r == Some(&self->Expression_0),
            !(self is Expression) ==> r is None,
    {
        match self {
            Node::Expression(inner) => Some(inner),
            _ => None,
        }
    }

    /// The program that this is, if it is one.
    pub fn as_program(&self) -> (r: Option<&Program>)
        ensures
            self is Program ==> r == Some(&self->Program_0),
            !(self is Program) ==> r is None,
    {
        match self {
            Node::Program(inner) => Some(inner),
            _ => None,
        }
    }
}

} // verus!
