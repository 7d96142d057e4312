//! Statements.

pub mod node;

use crate::ast::expression::ExpressionType;
use crate::ast::{statement_literal, statement_text, statement_view, Node, StatementView, TNode};
use node::{BlockStatement, ExpressionStatement, LetStatement, ReturnStatement};
use vstd::prelude::*;

verus! {

/// A node that stands where a statement may.
pub trait TStatement: TNode {
    fn statement_node(&self);
}

#[derive(Debug, PartialEq)]
pub enum StatementType {
    Let(LetStatement),
    Return(ReturnStatement),
    Expression(ExpressionStatement),
    Block(BlockStatement),
}

impl View for StatementType {
    type V = StatementView;

    open spec fn view(&self) -> StatementView {
        statement_view(*self)
    }
}

impl TNode for StatementType {
    open spec fn literal(&self) -> Seq<char> {
        statement_literal(self@)
    }

    open spec fn text(&self) -> Seq<char> {
        statement_text(self@)
    }

    fn token_literal(&self) -> (s: String) {
        match self {
            StatementType::Let(stmt) => stmt.token_literal(),
            StatementType::Return(stmt) => stmt.token_literal(),
            StatementType::Expression(stmt) => stmt.token_literal(),
            StatementType::Block(stmt) => stmt.token_literal(),
        }
    }

    fn string(&self) -> (s: String)
        decreases self,
    {
        match self {
            StatementType::Let(stmt) => stmt.string(),
            StatementType::Return(stmt) => stmt.string(),
            StatementType::Expression(stmt) => stmt.string(),
            StatementType::Block(stmt) => stmt.string(),
        }
    }
}

impl TStatement for StatementType {
    fn statement_node(&self) {
    }
}

/// A copy of each statement of a list.
pub fn clone_statements(items: &Vec<Box<StatementType>>) -> (copy: Vec<Box<StatementType>>)
    ensures
        copy@.len() == items@.len(),
        forall|i: int| 0 <= i < items@.len() ==> (#[trigger] copy@[i])@ == items@[i]@,
    decreases items,
{
    let mut copy: Vec<Box<StatementType>> = Vec::new();
    let mut i: usize = 0;
    while i < items.len()
        invariant
            i <= items.len(),
            copy@.len() == i,
            forall|j: int| 0 <= j < i ==> (#[trigger] copy@[j])@ == items@[j]@,
        decreases items.len() - i,
    {
        let item: &StatementType = &items[i];
        copy.push(Box::new(item.clone()));
        i = i + 1;
    }
    copy
}

impl Clone for StatementType {
    fn clone(&self) -> (copy: Self)
        ensures
            copy@ == self@,
        decreases self,
    {
        match self {
            StatementType::Let(stmt) => {
                let value: &ExpressionType = &stmt.value;
                StatementType::Let(
                    LetStatement {
                        token: stmt.token.clone(),
                        name: stmt.name.clone(),
                        value: Box::new(value.clone()),
                    },
                )
            },
            StatementType::Return(stmt) => {
                let value: &ExpressionType = &stmt.value;
                StatementType::Return(ReturnStatement { value: Box::new(value.clone()) })
            },
            StatementType::Expression(stmt) => {
                let expression: &ExpressionType = &stmt.expression;
                StatementType::Expression(
                    ExpressionStatement { expression: Box::new(expression.clone()) },
                )
            },
            StatementType::Block(stmt) => {
                let copy = StatementType::Block(
                    BlockStatement { statements: clone_statements(&stmt.statements) },
                );
                assert(copy@->Block_statements =~= self@->Block_statements);
                copy
            },
        }
    }
}

impl StatementType {
    /// The statement as something that can be evaluated.
    pub fn to_node(self: Box<StatementType>) -> (node: Box<Node>)
        ensures
            *node == Node::Statement(*self),
    {
        Box::new(Node::Statement(*self))
    }

    /// The let statement that this is, if it is one.
    pub fn as_let(&self) -> (r: Option<&LetStatement>)
        ensures
            self is Let ==> r == Some(&self->Let_0),
            !(self is Let) ==> r is None,
    {
        match self {
            StatementType::Let(inner) => Some(inner),
            _ => None,
        }
    }

    /// The let statement that this is, or else this itself again.
    pub fn into_let(self) -> (r: Result<LetStatement, Self>)
        ensures
            self is Let ==> r == Ok::<LetStatement, Self>(self->Let_0),
            !(self is Let) ==> r == Err::<LetStatement, Self>(self),
    {
        match self {
            StatementType::Let(inner) => Ok(inner),
            other => Err(other),
        }
    }

    /// The return statement that this is, if it is one.
    pub fn as_return(&self) -> (r: Option<&ReturnStatement>)
        ensures
            self is Return ==> r == Some(&self->Return_0),
            !(self is Return) ==> r is None,
    {
        match self {
            StatementType::Return(inner) => Some(inner),
            _ => None,
        }
    }

    /// The return statement that this is, or else this itself again.
    pub fn into_return(self) -> (r: Result<ReturnStatement, Self>)
        ensures
            self is Return ==> r == Ok::<ReturnStatement, Self>(self->Return_0),
            !(self is Return) ==> r == Err::<ReturnStatement, Self>(self),
    {
        match self {
            StatementType::Return(inner) => Ok(inner),
            other => Err(other),
        }
    }

    /// The expression statement that this is, if it is one.
    pub fn as_expression(&self) -> (r: Option<&ExpressionStatement>)
        ensures
            self is Expression ==> r == Some(&self->Expression_0),
            !(self is Expression) ==> r is None,
    {
        match self {
            StatementType::Expression(inner) => Some(inner),
            _ => None,
        }
    }

    /// The expression statement that this is, or else this itself again.
    pub fn into_expression(self) -> (r: Result<ExpressionStatement, Self>)
        ensures
            self is Expression ==> r == Ok::<ExpressionStatement, Self>(self->Expression_0),
            !(self is Expression) ==> r == Err::<ExpressionStatement, Self>(self),
    {
        match self {
            StatementType::Expression(inner) => Ok(inner),
            other => Err(other),
        }
    }

    /// The block statement that this is, if it is one.
    pub fn as_block(&self) -> (r: Option<&BlockStatement>)
        ensures
            self is Block ==> r == Some(&self->Block_0),
            !(self is Block) ==> r is None,
    {
        match self {
            StatementType::Block(inner) => Some(inner),
            _ => None,
        }
    }

    /// The block statement that this is, or else this itself again.
    pub fn into_block(self) -> (r: Result<BlockStatement, Self>)
        ensures
            self is Block ==> r == Ok::<BlockStatement, Self>(self->Block_0),
            !(self is Block) ==> r == Err::<BlockStatement, Self>(self),
    {
        match self {
            StatementType::Block(inner) => Ok(inner),
            other => Err(other),
        }
    }
}

} // verus!
