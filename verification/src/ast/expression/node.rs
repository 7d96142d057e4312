//! The node of each kind of expression.

use super::ExpressionType;
use crate::ast::statement::StatementType;
use crate::ast::{
    expression_literal, expression_text, expression_view, expressions_view, joined_text,
    ExpressionView, TNode,
};
use crate::token::Token;
use vstd::prelude::*;

verus! {

/// A name.
#[derive(Debug, PartialEq, Clone)]
pub struct Identifier {
    pub token: Token,
}

/// An integer literal.
#[derive(Debug, PartialEq, Clone)]
pub struct IntegerLiteral {
    pub token: Token,
}

/// A string literal.
#[derive(Debug, PartialEq, Clone)]
pub struct StringLiteral {
    pub token: Token,
}

/// `true` or `false`.
#[derive(Debug, PartialEq, Clone)]
pub struct Boolean {
    pub token: Token,
}

/// An operator before its operand.
#[derive(Debug, PartialEq, Clone)]
pub struct PrefixExpression {
    pub operator: Token,
    pub right: Box<ExpressionType>,
}

/// An operator between its two operands.
#[derive(Debug, PartialEq, Clone)]
pub struct InfixExpression {
    pub operator: Token,
    pub left: Box<ExpressionType>,
    pub right: Box<ExpressionType>,
}

/// A condition with the block for when it holds and, optionally, the block
/// for when it does not.
#[derive(Debug, PartialEq, Clone)]
pub struct IfExpression {
    pub condition: Box<ExpressionType>,
    pub consequence: Box<StatementType>,
    pub alternative: Option<Box<StatementType>>,
}

/// A function: its parameters and its body.
#[derive(Debug, PartialEq, Clone)]
pub struct FunctionLiteral {
    pub parameters: Vec<Box<ExpressionType>>,
    pub body: Box<StatementType>,
}

/// A call: what is called, and the arguments.
#[derive(Debug, PartialEq, Clone)]
pub struct CallExpression {
    pub token: Token,
    pub function: Box<ExpressionType>,
    pub arguments: Vec<Box<ExpressionType>>,
}

impl View for Identifier {
    type V = ExpressionView;

    open spec fn view(&self) -> ExpressionView {
        ExpressionView::Identifier(self.token@)
    }
}

impl View for IntegerLiteral {
    type V = ExpressionView;

    open spec fn view(&self) -> ExpressionView {
        ExpressionView::IntegerLiteral(self.token@)
    }
}

impl View for StringLiteral {
    type V = ExpressionView;

    open spec fn view(&self) -> ExpressionView {
        ExpressionView::StringLiteral(self.token@)
    }
}

impl View for Boolean {
    type V = ExpressionView;

    open spec fn view(&self) -> ExpressionView {
        ExpressionView::Boolean(self.token@)
    }
}

impl View for PrefixExpression {
    type V = ExpressionView;

    open spec fn view(&self) -> ExpressionView {
        expression_view(ExpressionType::Prefix(*self))
    }
}

impl View for InfixExpression {
    type V = ExpressionView;

    open spec fn view(&self) -> ExpressionView {
        expression_view(ExpressionType::Infix(*self))
    }
}

impl View for IfExpression {
    type V = ExpressionView;

    open spec fn view(&self) -> ExpressionView {
        expression_view(ExpressionType::If(*self))
    }
}

impl View for FunctionLiteral {
    type V = ExpressionView;

    open spec fn view(&self) -> ExpressionView {
        expression_view(ExpressionType::Fn(*self))
    }
}

impl View for CallExpression {
    type V = ExpressionView;

    open spec fn view(&self) -> ExpressionView {
        expression_view(ExpressionType::Call(*self))
    }
}

impl TNode for Identifier {
    open spec fn literal(&self) -> Seq<char> {
        expression_literal(self@)
    }

    open spec fn text(&self) -> Seq<char> {
        expression_text(self@)
    }

    fn token_literal(&self) -> (s: String) {
        self.token.to_string()
    }

    fn string(&self) -> (s: String) {
        self.token.to_string()
    }
}

impl TNode for IntegerLiteral {
    open spec fn literal(&self) -> Seq<char> {
        expression_literal(self@)
    }

    open spec fn text(&self) -> Seq<char> {
        expression_text(self@)
    }

    fn token_literal(&self) -> (s: String) {
        self.token.to_string()
    }

    fn string(&self) -> (s: String) {
        self.token.to_string()
    }
}

impl TNode for StringLiteral {
    open spec fn literal(&self) -> Seq<char> {
        expression_literal(self@)
    }

    open spec fn text(&self) -> Seq<char> {
        expression_text(self@)
    }

    fn token_literal(&self) -> (s: String) {
        self.token.to_string()
    }

    fn string(&self) -> (s: String) {
        self.token.to_string()
    }
}

impl TNode for Boolean {
    open spec fn literal(&self) -> Seq<char> {
        expression_literal(self@)
    }

    open spec fn text(&self) -> Seq<char> {
        expression_text(self@)
    }

    fn token_literal(&self) -> (s: String) {
        self.token.to_string()
    }

    fn string(&self) -> (s: String) {
        self.token.to_string()
    }
}

impl TNode for PrefixExpression {
    open spec fn literal(&self) -> Seq<char> {
        expression_literal(self@)
    }

    open spec fn text(&self) -> Seq<char> {
        expression_text(self@)
    }

    fn token_literal(&self) -> (s: String) {
        self.operator.to_string()
    }

    fn string(&self) -> (s: String)
        decreases self,
    {
        let mut out = String::from_str("(");
        let operator = self.operator.to_string();
        out.append(operator.as_str());
        let right = self.right.string();
        out.append(right.as_str());
        out.append(")");
        out
    }
}

impl TNode for InfixExpression {
    open spec fn literal(&self) -> Seq<char> {
        expression_literal(self@)
    }

    open spec fn text(&self) -> Seq<char> {
        expression_text(self@)
    }

    fn token_literal(&self) -> (s: String) {
        self.operator.to_string()
    }

    fn string(&self) -> (s: String)
        decreases self,
    {
        let mut out = String::from_str("(");
        let left = self.left.string();
        out.append(left.as_str());
        out.append(" ");
        let operator = self.operator.to_string();
        out.append(operator.as_str());
        out.append(" ");
        let right = self.right.string();
        out.append(right.as_str());
        out.append(")");
        out
    }
}

impl TNode for IfExpression {
    open spec fn literal(&self) -> Seq<char> {
        expression_literal(self@)
    }

    open spec fn text(&self) -> Seq<char> {
        expression_text(self@)
    }

    fn token_literal(&self) -> (s: String) {
        String::from_str("if")
    }

    fn string(&self) -> (s: String)
        decreases self,
    {
        let mut out = String::from_str("if ");
        let condition = self.condition.string();
        out.append(condition.as_str());
        out.append(" ");
        out.append("{ ");
        let consequence = self.consequence.string();
        out.append(consequence.as_str());
        out.append(" }");
        match &self.alternative {
            Some(alternative) => {
                let ghost before = out@;
                let text = alternative.string();
                out.append("else ");
                out.append("{ ");
                out.append(text.as_str());
                assert(out@ =~= before + ("else "@ + "{ "@ + alternative.text()));
                assert(self@->If_alternative == Some(Box::new(alternative@)));
            },
            None => {
                assert(out@ =~= out@ + Seq::<char>::empty());
            },
        }
        out
    }
}

/// The texts of `items`, with `separator` between each two.
pub fn join_strings(items: &Vec<Box<ExpressionType>>, separator: &str) -> (s: String)
    ensures
        s@ == joined_text(expressions_view(items@), items@.len(), separator@),
    decreases items,
{
    let ghost views = expressions_view(items@);
    let mut out = String::new();
    let mut i: usize = 0;
    while i < items.len()
        invariant
            i <= items.len(),
            views == expressions_view(items@),
            out@ == joined_text(views, i as nat, separator@),
        decreases items.len() - i,
    {
        let ghost before = out@;
        if i > 0 {
            out.append(separator);
        }
        let item = items[i].string();
        out.append(item.as_str());
        proof {
            assert(views[i as int] == items@[i as int]@);
            if i == 0 {
                assert(out@ =~= items@[0].text()) by {
                    assert(before =~= Seq::<char>::empty());
                }
            }
        }
        i = i + 1;
    }
    out
}

impl TNode for FunctionLiteral {
    open spec fn literal(&self) -> Seq<char> {
        expression_literal(self@)
    }

    open spec fn text(&self) -> Seq<char> {
        expression_text(self@)
    }

    fn token_literal(&self) -> (s: String) {
        String::from_str("fn")
    }

    fn string(&self) -> (s: String)
        decreases self,
    {
        assert(self@->Fn_parameters =~= expressions_view(self.parameters@));
        let mut out = String::from_str("fn");
        out.append("(");
        let parameters = join_strings(&self.parameters, ",");
        out.append(parameters.as_str());
        out.append(")");
        let body = self.body.string();
        out.append(body.as_str());
        out
    }
}

impl TNode for CallExpression {
    open spec fn literal(&self) -> Seq<char> {
        expression_literal(self@)
    }

    open spec fn text(&self) -> Seq<char> {
        expression_text(self@)
    }

    fn token_literal(&self) -> (s: String) {
        self.token.to_string()
    }

    fn string(&self) -> (s: String)
        decreases self,
    {
        assert(self@->Call_arguments =~= expressions_view(self.arguments@));
        let mut out = self.function.string();
        out.append("(");
        let arguments = join_strings(&self.arguments, ", ");
        out.append(arguments.as_str());
        out.append(")");
        out
    }
}

} // verus!
