//! Expressions.

pub mod node;

use crate::ast::statement::StatementType;
use crate::ast::{expression_literal, expression_text, expression_view, ExpressionView, Node, TNode};
use node::{
    Boolean, CallExpression, FunctionLiteral, Identifier, IfExpression, InfixExpression,
    IntegerLiteral, PrefixExpression, StringLiteral,
};
use vstd::prelude::*;

verus! {

#[derive(Debug, PartialEq)]
pub enum ExpressionType {
    Identifier(Identifier),
    IntegerLiteral(IntegerLiteral),
    StringLiteral(StringLiteral),
    Prefix(PrefixExpression),
    Infix(InfixExpression),
    Boolean(Boolean),
    If(IfExpression),
    Fn(FunctionLiteral),
    Call(CallExpression),
}

impl View for ExpressionType {
    type V = ExpressionView;

    open spec fn view(&self) -> ExpressionView {
        expression_view(*self)
    }
}

impl TNode for ExpressionType {
    open spec fn literal(&self) -> Seq<char> {
        expression_literal(self@)
    }

    open spec fn text(&self) -> Seq<char> {
        expression_text(self@)
    }

    fn token_literal(&self) -> (s: String) {
        match self {
            ExpressionType::Identifier(expr) => expr.token_literal(),
            ExpressionType::IntegerLiteral(expr) => expr.token_literal(),
            ExpressionType::StringLiteral(expr) => expr.token_literal(),
            ExpressionType::Prefix(expr) => expr.token_literal(),
            ExpressionType::Infix(expr) => expr.token_literal(),
            ExpressionType::Boolean(expr) => expr.token_literal(),
            ExpressionType::If(expr) => expr.token_literal(),
            ExpressionType::Fn(expr) => expr.token_literal(),
            ExpressionType::Call(expr) => expr.token_literal(),
        }
    }

    fn string(&self) -> (s: String)
        decreases self,
    {
        match self {
            ExpressionType::Identifier(expr) => expr.string(),
            ExpressionType::IntegerLiteral(expr) => expr.string(),
            ExpressionType::StringLiteral(expr) => expr.string(),
            ExpressionType::Prefix(expr) => expr.string(),
            ExpressionType::Infix(expr) => expr.string(),
            ExpressionType::Boolean(expr) => expr.string(),
            ExpressionType::If(expr) => expr.string(),
            ExpressionType::Fn(expr) => expr.string(),
            ExpressionType::Call(expr) => expr.string(),
        }
    }
}

/// A copy of each expression of a list.
pub fn clone_expressions(items: &Vec<Box<ExpressionType>>) -> (copy: Vec<Box<ExpressionType>>)
    ensures
        copy@.len() == items@.len(),
        forall|i: int| 0 <= i < items@.len() ==> (#[trigger] copy@[i])@ == items@[i]@,
    decreases items,
{
    let mut copy: Vec<Box<ExpressionType>> = Vec::new();
    let mut i: usize = 0;
    while i < items.len()
        invariant
            i <= items.len(),
            copy@.len() == i,
            forall|j: int| 0 <= j < i ==> (#[trigger] copy@[j])@ == items@[j]@,
        decreases items.len() - i,
    {
        let item: &ExpressionType = &items[i];
        copy.push(Box::new(item.clone()));
        i = i + 1;
    }
    copy
}

impl Clone for ExpressionType {
    fn clone(&self) -> (copy: Self)
        ensures
            copy@ == self@,
        decreases self,
    {
        match self {
            ExpressionType::Identifier(expr) => ExpressionType::Identifier(
                Identifier { token: expr.token.clone() },
            ),
            ExpressionType::IntegerLiteral(expr) => ExpressionType::IntegerLiteral(
                IntegerLiteral { token: expr.token.clone() },
            ),
            ExpressionType::StringLiteral(expr) => ExpressionType::StringLiteral(
                StringLiteral { token: expr.token.clone() },
            ),
            ExpressionType::Boolean(expr) => ExpressionType::Boolean(
                Boolean { token: expr.token.clone() },
            ),
            ExpressionType::Prefix(expr) => {
                let right: &ExpressionType = &expr.right;
                ExpressionType::Prefix(
                    PrefixExpression {
                        operator: expr.operator.clone(),
                        right: Box::new(right.clone()),
                    },
                )
            },
            ExpressionType::Infix(expr) => {
                let left: &ExpressionType = &expr.left;
                let right: &ExpressionType = &expr.right;
                ExpressionType::Infix(
                    InfixExpression {
                        operator: expr.operator.clone(),
                        left: Box::new(left.clone()),
                        right: Box::new(right.clone()),
                    },
                )
            },
            ExpressionType::If(expr) => {
                let condition: &ExpressionType = &expr.condition;
                let consequence: &StatementType = &expr.consequence;
                let alternative = match &expr.alternative {
                    Some(alternative) => {
                        let alternative: &StatementType = &alternative;
                        Some(Box::new(alternative.clone()))
                    },
                    None => None,
                };
                ExpressionType::If(
                    IfExpression {
                        condition: Box::new(condition.clone()),
                        consequence: Box::new(consequence.clone()),
                        alternative,
                    },
                )
            },
            ExpressionType::Fn(expr) => {
                let body: &StatementType = &expr.body;
                let copy = ExpressionType::Fn(
                    FunctionLiteral {
                        parameters: clone_expressions(&expr.parameters),
                        body: Box::new(body.clone()),
                    },
                );
                assert(copy@->Fn_parameters =~= self@->Fn_parameters);
                copy
            },
            ExpressionType::Call(expr) => {
                let function: &ExpressionType = &expr.function;
                let copy = ExpressionType::Call(
                    CallExpression {
                        token: expr.token.clone(),
                        function: Box::new(function.clone()),
                        arguments: clone_expressions(&expr.arguments),
                    },
                );
                assert(copy@->Call_arguments =~= self@->Call_arguments);
                copy
            },
        }
    }
}

impl ExpressionType {
    /// The expression as something that can be evaluated.
    pub fn to_node(self: Box<ExpressionType>) -> (node: Box<Node>)
        ensures
            *node == Node::Expression(*self),
    {
        Box::new(Node::Expression(*self))
    }

    /// The identifier that this is, if it is one.
    pub fn as_identifier(&self) -> (r: Option<&Identifier>)
        ensures
            self is Identifier ==> r == Some(&self->Identifier_0),
            !(self is Identifier) ==> r is None,
    {
        match self {
            ExpressionType::Identifier(inner) => Some(inner),
            _ => None,
        }
    }

    /// The identifier that this is, or else this itself again.
    pub fn into_identifier(self) -> (r: Result<Identifier, Self>)
        ensures
            self is Identifier ==> r == Ok::<Identifier, Self>(self->Identifier_0),
            !(self is Identifier) ==> r == Err::<Identifier, Self>(self),
    {
        match self {
            ExpressionType::Identifier(inner) => Ok(inner),
            other => Err(other),
        }
    }

    /// The integer literal that this is, if it is one.
    pub fn as_integer_literal(&self) -> (r: Option<&IntegerLiteral>)
        ensures
            self is IntegerLiteral ==> r == Some(&self->IntegerLiteral_0),
            !(self is IntegerLiteral) ==> r is None,
    {
        match self {
            ExpressionType::IntegerLiteral(inner) => Some(inner),
            _ => None,
        }
    }

    /// The integer literal that this is, or else this itself again.
    pub fn into_integer_literal(self) -> (r: Result<IntegerLiteral, Self>)
        ensures
            self is IntegerLiteral ==> r == Ok::<IntegerLiteral, Self>(self->IntegerLiteral_0),
            !(self is IntegerLiteral) ==> r == Err::<IntegerLiteral, Self>(self),
    {
        match self {
            ExpressionType::IntegerLiteral(inner) => Ok(inner),
            other => Err(other),
        }
    }

    /// The string literal that this is, if it is one.
    pub fn as_string_literal(&self) -> (r: Option<&StringLiteral>)
        ensures
            self is StringLiteral ==> r == Some(&self->StringLiteral_0),
            !(self is StringLiteral) ==> r is None,
    {
        match self {
            ExpressionType::StringLiteral(inner) => Some(inner),
            _ => None,
        }
    }

    /// The string literal that this is, or else this itself again.
    pub fn into_string_literal(self) -> (r: Result<StringLiteral, Self>)
        ensures
            self is StringLiteral ==> r == Ok::<StringLiteral, Self>(self->StringLiteral_0),
            !(self is StringLiteral) ==> r == Err::<StringLiteral, Self>(self),
    {
        match self {
            ExpressionType::StringLiteral(inner) => Ok(inner),
            other => Err(other),
        }
    }

    /// The prefix expression that this is, if it is one.
    pub fn as_prefix(&self) -> (r: Option<&PrefixExpression>)
        ensures
            self is Prefix ==> r == Some(&self->Prefix_0),
            !(self is Prefix) ==> r is None,
    {
        match self {
            ExpressionType::Prefix(inner) => Some(inner),
            _ => None,
        }
    }

    /// The prefix expression that this is, or else this itself again.
    pub fn into_prefix(self) -> (r: Result<PrefixExpression, Self>)
        ensures
            self is Prefix ==> r == Ok::<PrefixExpression, Self>(self->Prefix_0),
            !(self is Prefix) ==> r == Err::<PrefixExpression, Self>(self),
    {
        match self {
            ExpressionType::Prefix(inner) => Ok(inner),
            other => Err(other),
        }
    }

    /// The infix expression that this is, if it is one.
    pub fn as_infix(&self) -> (r: Option<&InfixExpression>)
        ensures
            self is Infix ==> r == Some(&self->Infix_0),
            !(self is Infix) ==> r is None,
    {
        match self {
            ExpressionType::Infix(inner) => Some(inner),
            _ => None,
        }
    }

    /// The infix expression that this is, or else this itself again.
    pub fn into_infix(self) -> (r: Result<InfixExpression, Self>)
        ensures
            self is Infix ==> r == Ok::<InfixExpression, Self>(self->Infix_0),
            !(self is Infix) ==> r == Err::<InfixExpression, Self>(self),
    {
        match self {
            ExpressionType::Infix(inner) => Ok(inner),
            other => Err(other),
        }
    }

    /// The boolean that this is, if it is one.
    pub fn as_boolean(&self) -> (r: Option<&Boolean>)
        ensures
            self is Boolean ==> r == Some(&self->Boolean_0),
            !(self is Boolean) ==> r is None,
    {
        match self {
            ExpressionType::Boolean(inner) => Some(inner),
            _ => None,
        }
    }

    /// The boolean that this is, or else this itself again.
    pub fn into_boolean(self) -> (r: Result<Boolean, Self>)
        ensures
            self is Boolean ==> r == Ok::<Boolean, Self>(self->Boolean_0),
            !(self is Boolean) ==> r == Err::<Boolean, Self>(self),
    {
        match self {
            ExpressionType::Boolean(inner) => Ok(inner),
            other => Err(other),
        }
    }

    /// The if expression that this is, if it is one.
    pub fn as_if(&self) -> (r: Option<&IfExpression>)
        ensures
            self is If ==> r == Some(&self->If_0),
            !(self is If) ==> r is None,
    {
        match self {
            ExpressionType::If(inner) => Some(inner),
            _ => None,
        }
    }

    /// The if expression that this is, or else this itself again.
    pub fn into_if(self) -> (r: Result<IfExpression, Self>)
        ensures
            self is If ==> r == Ok::<IfExpression, Self>(self->If_0),
            !(self is If) ==> r == Err::<IfExpression, Self>(self),
    {
        match self {
            ExpressionType::If(inner) => Ok(inner),
            other => Err(other),
        }
    }

    /// The function literal that this is, if it is one.
    pub fn as_fn(&self) -> (r: Option<&FunctionLiteral>)
        ensures
            self is Fn ==> r == Some(&self->Fn_0),
            !(self is Fn) ==> r is None,
    {
        match self {
            ExpressionType::Fn(inner) => Some(inner),
            _ => None,
        }
    }

    /// The function literal that this is, or else this itself again.
    pub fn into_fn(self) -> (r: Result<FunctionLiteral, Self>)
        ensures
            self is Fn ==> r == Ok::<FunctionLiteral, Self>(self->Fn_0),
            !(self is Fn) ==> r == Err::<FunctionLiteral, Self>(self),
    {
        match self {
            ExpressionType::Fn(inner) => Ok(inner),
            other => Err(other),
        }
    }

    /// The call expression that this is, if it is one.
    pub fn as_call(&self) -> (r: Option<&CallExpression>)
        ensures
            self is Call ==> r == Some(&self->Call_0),
            !(self is Call) ==> r is None,
    {
        match self {
            ExpressionType::Call(inner) => Some(inner),
            _ => None,
        }
    }

    /// The call expression that this is, or else this itself again.
    pub fn into_call(self) -> (r: Result<CallExpression, Self>)
        ensures
            self is Call ==> r == Ok::<CallExpression, Self>(self->Call_0),
            !(self is Call) ==> r == Err::<CallExpression, Self>(self),
    {
        match self {
            ExpressionType::Call(inner) => Ok(inner),
            other => Err(other),
        }
    }
}

} // verus!
