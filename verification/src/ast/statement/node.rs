//! The node of each kind of statement.

use super::{StatementType, TStatement};
use crate::ast::expression::ExpressionType;
use crate::ast::{
    binding_prefix, block_text, statement_literal, statement_text, statement_view,
    statements_view, StatementView, TNode,
};
use crate::token::Token;
use vstd::prelude::*;

verus! {

/// A binding of a name to the value of an expression. The token is `let`;
/// it is `=` where the statement binds the name anew without the keyword.
#[derive(Debug, PartialEq, Clone)]
pub struct LetStatement {
    pub token: Token,
    pub name: String,
    pub value: Box<ExpressionType>,
}

#[derive(Debug, PartialEq, Clone)]
pub struct ReturnStatement {
    pub value: Box<ExpressionType>,
}

/// An expression that stands as a statement.
#[derive(Debug, PartialEq, Clone)]
pub struct ExpressionStatement {
    pub expression: Box<ExpressionType>,
}

/// The statements between a pair of braces.
#[derive(Debug, PartialEq, Clone)]
pub struct BlockStatement {
    pub statements: Vec<Box<StatementType>>,
}

impl View for LetStatement {
    type V = StatementView;

    open spec fn view(&self) -> StatementView {
        statement_view(StatementType::Let(*self))
    }
}

impl View for ReturnStatement {
    type V = StatementView;

    open spec fn view(&self) -> StatementView {
        statement_view(StatementType::Return(*self))
    }
}

impl View for ExpressionStatement {
    type V = StatementView;

    open spec fn view(&self) -> StatementView {
        statement_view(StatementType::Expression(*self))
    }
}

impl View for BlockStatement {
    type V = StatementView;

    open spec fn view(&self) -> StatementView {
        statement_view(StatementType::Block(*self))
    }
}

impl TNode for LetStatement {
    open spec fn literal(&self) -> Seq<char> {
        statement_literal(self@)
    }

    open spec fn text(&self) -> Seq<char> {
        statement_text(self@)
    }

    fn token_literal(&self) -> (s: String) {
        self.token.to_string()
    }

    fn string(&self) -> (s: String)
        decreases self,
    {
        let mut out = String::new();
        if !self.token.is(Token::ASSIGN) {
            let keyword = self.token.to_string();
            out.append(keyword.as_str());
            out.append(" ");
        }
        assert(out@ =~= binding_prefix(self.token@));
        out.append(self.name.as_str());
        out.append(" = ");
        let value = self.value.string();
        out.append(value.as_str());
        out.append(";");
        out
    }
}

impl TNode for ReturnStatement {
    open spec fn literal(&self) -> Seq<char> {
        statement_literal(self@)
    }

    open spec fn text(&self) -> Seq<char> {
        statement_text(self@)
    }

    fn token_literal(&self) -> (s: String) {
        String::from_str("return")
    }

    fn string(&self) -> (s: String)
        decreases self,
    {
        let mut out = String::from_str("return");
        out.append(" ");
        let value = self.value.string();
        out.append(value.as_str());
        out.append(";");
        out
    }
}

impl TNode for ExpressionStatement {
    open spec fn literal(&self) -> Seq<char> {
        statement_literal(self@)
    }

    open spec fn text(&self) -> Seq<char> {
        statement_text(self@)
    }

    fn token_literal(&self) -> (s: String) {
        self.expression.token_literal()
    }

    fn string(&self) -> (s: String)
        decreases self,
    {
        self.expression.string()
    }
}

impl TNode for BlockStatement {
    open spec fn literal(&self) -> Seq<char> {
        statement_literal(self@)
    }

    open spec fn text(&self) -> Seq<char> {
        statement_text(self@)
    }

    fn token_literal(&self) -> (s: String) {
        String::new()
    }

    fn string(&self) -> (s: String)
        decreases self,
    {
        let ghost views = statements_view(self.statements@);
        assert(self@->Block_statements =~= views);
        let mut out = String::new();
        let mut i: usize = 0;
        while i < self.statements.len()
            invariant
                i <= self.statements.len(),
                views == statements_view(self.statements@),
                out@ == block_text(views, i as nat),
            decreases self.statements.len() - i,
        {
            out.append("{");
            let statement = self.statements[i].string();
            out.append(statement.as_str());
            out.append("}");
            assert(views[i as int] == self.statements@[i as int]@);
            i = i + 1;
        }
        out
    }
}

impl TStatement for LetStatement {
    fn statement_node(&self) {
    }
}

impl TStatement for ReturnStatement {
    fn statement_node(&self) {
    }
}

impl TStatement for ExpressionStatement {
    fn statement_node(&self) {
    }
}

impl TStatement for BlockStatement {
    fn statement_node(&self) {
    }
}

} // verus!
