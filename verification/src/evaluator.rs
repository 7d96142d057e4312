//! The evaluator: walks the syntax tree and computes its value in an
//! environment. It is total: what goes wrong comes back as an error value.

use crate::ast::expression::node::IfExpression;
use crate::ast::expression::{clone_expressions, ExpressionType};
use crate::ast::statement::StatementType;
use crate::ast::{
    expression_text, expression_view, expressions_view, statement_view, statements_view,
    ExpressionView, Node, Program, StatementView, TNode,
};
use crate::decimal::{natural_text, usize_to_string};
use crate::object::environment::{bind, enclose, lookup, Environment, ScopeView, GLOBAL_SCOPE};
use crate::object::{
    object_view, Boolean, Error, Function, Integer, Null, Object, ObjectType, ObjectView,
    ReturnValue, StringValue,
};
use crate::token::{Token, TokenKind, TokenView};
use vstd::prelude::*;

verus! {

/// How deeply calls may nest when evaluation starts with `eval`: a bound
/// that a thread with a stack of ordinary size can hold. A caller with a
/// deeper stack to offer names its own bound to `eval_in`.
pub const MAX_CALL_DEPTH: usize = 1000;

/// A value, and the store after its evaluation.
pub struct Evaluated {
    pub value: ObjectView,
    pub env: Seq<ScopeView>,
}

/// The values of a list of expressions, or the first error among them, and
/// the store after their evaluation.
pub struct EvaluatedList {
    pub values: Seq<ObjectView>,
    pub failure: Option<ObjectView>,
    pub env: Seq<ScopeView>,
}

pub open spec fn identifier_not_found(name: Seq<char>) -> Seq<char> {
    "identifier not found: "@ + name
}

pub open spec fn unknown_prefix_operator(operator: Seq<char>, right: ObjectType) -> Seq<char> {
    "unknown operator: "@ + operator + right.name()
}

pub open spec fn type_mismatch(left: ObjectType, operator: Seq<char>, right: ObjectType) -> Seq<
    char,
> {
    "type mismatch: "@ + left.name() + " "@ + operator + " "@ + right.name()
}

pub open spec fn unknown_infix_operator(
    left: ObjectType,
    operator: Seq<char>,
    right: ObjectType,
) -> Seq<char> {
    "unknown operator: "@ + left.name() + " "@ + operator + " "@ + right.name()
}

pub open spec fn not_a_function(callee: ObjectType) -> Seq<char> {
    "not a function: "@ + callee.name()
}

pub open spec fn wrong_number_of_arguments(got: nat, want: nat) -> Seq<char> {
    "wrong number of arguments. got="@ + natural_text(got) + ", want="@ + natural_text(want)
}

pub open spec fn division_by_zero() -> Seq<char> {
    "division by zero"@
}

pub open spec fn call_depth_exceeded() -> Seq<char> {
    "call depth exceeded"@
}

/// The value of `true` or `false`; null for any other token.
pub open spec fn boolean_value(token: TokenView) -> ObjectView {
    if token.kind == TokenKind::TRUE {
        ObjectView::Boolean(true)
    } else if token.kind == TokenKind::FALSE {
        ObjectView::Boolean(false)
    } else {
        ObjectView::Null
    }
}

/// The value of an integer literal; null for any other token.
pub open spec fn integer_value(token: TokenView) -> ObjectView {
    if token.kind == TokenKind::INT {
        ObjectView::Integer(token.number)
    } else {
        ObjectView::Null
    }
}

/// `!` applied to a value: whether the value does not count as true.
pub open spec fn bang_value(right: ObjectView) -> ObjectView {
    ObjectView::Boolean(!right.is_truthy())
}

/// `-` applied to a value: the negated integer, which wraps around, or an
/// error for what is no integer.
pub open spec fn minus_value(right: ObjectView) -> ObjectView {
    match right {
        ObjectView::Integer(i) => ObjectView::Integer(0i64.wrapping_sub(i)),
        _ => ObjectView::Error(unknown_prefix_operator("-"@, right.object_type())),
    }
}

/// A prefix operator applied to the value of its operand.
pub open spec fn prefix_value(operator: TokenView, right: ObjectView) -> ObjectView {
    if operator.kind == TokenKind::BANG {
        bang_value(right)
    } else if operator.kind == TokenKind::MINUS {
        minus_value(right)
    } else {
        ObjectView::Error(unknown_prefix_operator(operator.literal(), right.object_type()))
    }
}

/// An infix operator applied to two integers: the arithmetic operators give
/// an integer, the four comparisons a boolean. Sums, differences and
/// products wrap around; a quotient is cut off towards zero, and division
/// by zero is an error.
pub open spec fn integer_infix_value(operator: TokenView, left: i64, right: i64) -> ObjectView {
    match operator.kind {
        TokenKind::PLUS => ObjectView::Integer(left.wrapping_add(right)),
        TokenKind::MINUS => ObjectView::Integer(left.wrapping_sub(right)),
        TokenKind::ASTERISK => ObjectView::Integer(left.wrapping_mul(right)),
        TokenKind::SLASH => match left.checked_div(right) {
            Some(quotient) => ObjectView::Integer(quotient),
            None => if right == 0 {
                ObjectView::Error(division_by_zero())
            } else {
                ObjectView::Integer(left)
            },
        },
        TokenKind::LT => ObjectView::Boolean(left < right),
        TokenKind::GT => ObjectView::Boolean(left > right),
        TokenKind::EQ => ObjectView::Boolean(left == right),
        TokenKind::NOT_EQ => ObjectView::Boolean(left != right),
        _ => ObjectView::Error(
            unknown_infix_operator(ObjectType::INTEGER, operator.literal(), ObjectType::INTEGER),
        ),
    }
}

/// An infix operator applied to the values of its operands. `==` and `!=`
/// compare any two values; the other operators take two integers, and `+`
/// also two strings, which it joins.
pub open spec fn infix_value(operator: TokenView, left: ObjectView, right: ObjectView) -> ObjectView {
    if operator.kind == TokenKind::EQ {
        ObjectView::Boolean(left.equals(right))
    } else if operator.kind == TokenKind::NOT_EQ {
        ObjectView::Boolean(!left.equals(right))
    } else {
        match (left, right) {
            (ObjectView::Integer(a), ObjectView::Integer(b)) => integer_infix_value(operator, a, b),
            (ObjectView::String(a), ObjectView::String(b)) => if operator.kind
                == TokenKind::PLUS {
                ObjectView::String(a + b)
            } else {
                ObjectView::Error(
                    unknown_infix_operator(
                        ObjectType::STRING,
                        operator.literal(),
                        ObjectType::STRING,
                    ),
                )
            },
            _ => if left.object_type() != right.object_type() {
                ObjectView::Error(
                    type_mismatch(left.object_type(), operator.literal(), right.object_type()),
                )
            } else {
                ObjectView::Error(
                    unknown_infix_operator(
                        left.object_type(),
                        operator.literal(),
                        right.object_type(),
                    ),
                )
            },
        }
    }
}

/// The store after the parameters from `done` on are bound, each to its
/// argument, in scope `scope`. A parameter is bound under its text.
pub open spec fn bind_parameters(
    parameters: Seq<ExpressionView>,
    arguments: Seq<ObjectView>,
    done: nat,
    env: Seq<ScopeView>,
    scope: nat,
) -> Seq<ScopeView>
    decreases parameters.len() - done,
{
    if done >= parameters.len() || done >= arguments.len() {
        env
    } else {
        bind_parameters(
            parameters,
            arguments,
            done + 1,
            bind(env, scope, expression_text(parameters[done as int]), arguments[done as int]),
            scope,
        )
    }
}

/// The value of an expression in scope `scope` of `env`, with calls nested
/// at most `depth` deep.
///
/// An operand, a condition, a callee or an argument that evaluates to an
/// error ends the evaluation of the expression: the error is its value, and
/// nothing after it is evaluated.
#[verifier::opaque]
pub open spec fn value_of_expression(
    e: ExpressionView,
    env: Seq<ScopeView>,
    scope: nat,
    depth: nat,
) -> Evaluated
    decreases depth, 1nat, e, 0nat,
{
    match e {
        ExpressionView::IntegerLiteral(token) => Evaluated { value: integer_value(token), env },
        ExpressionView::StringLiteral(token) => Evaluated {
            value: ObjectView::String(token.literal()),
            env,
        },
        ExpressionView::Boolean(token) => Evaluated { value: boolean_value(token), env },
        ExpressionView::Identifier(token) => match lookup(env, scope, token.literal()) {
            Some(value) => Evaluated { value, env },
            None => Evaluated {
                value: ObjectView::Error(identifier_not_found(token.literal())),
                env,
            },
        },
        ExpressionView::Prefix { operator, right } => {
            let operand = value_of_expression(*right, env, scope, depth);
            if operand.value is Error {
                operand
            } else {
                Evaluated { value: prefix_value(operator, operand.value), env: operand.env }
            }
        },
        ExpressionView::Infix { operator, left, right } => {
            let first = value_of_expression(*left, env, scope, depth);
            if first.value is Error {
                first
            } else {
                let second = value_of_expression(*right, first.env, scope, depth);
                if second.value is Error {
                    second
                } else {
                    Evaluated {
                        value: infix_value(operator, first.value, second.value),
                        env: second.env,
                    }
                }
            }
        },
        ExpressionView::If { condition, consequence, alternative } => {
            let test = value_of_expression(*condition, env, scope, depth);
            if test.value is Error {
                test
            } else if test.value.is_truthy() {
                value_of_statement(*consequence, test.env, scope, depth)
            } else {
                match alternative {
                    Some(alternative) => value_of_statement(*alternative, test.env, scope, depth),
                    None => Evaluated { value: ObjectView::Null, env: test.env },
                }
            }
        },
        ExpressionView::Fn { parameters, body } => Evaluated {
            value: ObjectView::Function { parameters, body: *body, env: env.len() },
            env: enclose(env, scope),
        },
        ExpressionView::Call { token, function, arguments } => {
            let callee = value_of_expression(*function, env, scope, depth);
            if callee.value is Error {
                callee
            } else {
                let list = values_of_expressions(
                    arguments,
                    0,
                    Seq::empty(),
                    callee.env,
                    scope,
                    depth,
                );
                match list.failure {
                    Some(error) => Evaluated { value: error, env: list.env },
                    None => value_of_call(callee.value, list.values, list.env, depth),
                }
            }
        },
    }
}

/// The values of the expressions from `done` on, after `values`, from left
/// to right; the first error among them ends the evaluation.
#[verifier::opaque]
pub open spec fn values_of_expressions(
    items: Seq<ExpressionView>,
    done: nat,
    values: Seq<ObjectView>,
    env: Seq<ScopeView>,
    scope: nat,
    depth: nat,
) -> EvaluatedList
    decreases depth, 1nat, items, items.len() - done,
{
    if done >= items.len() {
        EvaluatedList { values, failure: None, env }
    } else {
        let item = value_of_expression(items[done as int], env, scope, depth);
        if item.value is Error {
            EvaluatedList { values, failure: Some(item.value), env: item.env }
        } else {
            values_of_expressions(items, done + 1, values.push(item.value), item.env, scope, depth)
        }
    }
}

/// The value of a call of `function` with `arguments`: the value of the
/// body in a new scope, inside the scope that the function captured, in
/// which each parameter is bound to its argument. A value that the body
/// returned loses its wrapping. What is no function cannot be called; no
/// call is made where `depth` is 0, nor where the number of arguments is
/// not that of the parameters.
#[verifier::opaque]
pub open spec fn value_of_call(
    function: ObjectView,
    arguments: Seq<ObjectView>,
    env: Seq<ScopeView>,
    depth: nat,
) -> Evaluated
    decreases depth, 0nat, function, 0nat,
{
    match function {
        ObjectView::Function { parameters, body, env: captured } => {
            if depth == 0 {
                Evaluated { value: ObjectView::Error(call_depth_exceeded()), env }
            } else if parameters.len() != arguments.len() {
                Evaluated {
                    value: ObjectView::Error(
                        wrong_number_of_arguments(arguments.len(), parameters.len()),
                    ),
                    env,
                }
            } else {
                let frame = env.len();
                let called = value_of_statement(
                    body,
                    bind_parameters(parameters, arguments, 0, enclose(env, captured), frame),
                    frame,
                    (depth - 1) as nat,
                );
                Evaluated { value: called.value.unwrapped(), env: called.env }
            }
        },
        _ => Evaluated {
            value: ObjectView::Error(not_a_function(function.object_type())),
            env,
        },
    }
}

/// The value of a statement. A binding binds its name in the scope at hand
/// and has the bound value; a return wraps the value of its expression; an
/// error in either is the value of the statement.
#[verifier::opaque]
pub open spec fn value_of_statement(
    s: StatementView,
    env: Seq<ScopeView>,
    scope: nat,
    depth: nat,
) -> Evaluated
    decreases depth, 1nat, s, 0nat,
{
    match s {
        StatementView::Expression { expression } => value_of_expression(expression, env, scope, depth),
        StatementView::Block { statements } => value_of_statements(
            statements,
            0,
            ObjectView::Null,
            env,
            scope,
            depth,
        ),
        StatementView::Return { value } => {
            let returned = value_of_expression(value, env, scope, depth);
            if returned.value is Error {
                returned
            } else {
                Evaluated {
                    value: ObjectView::Return(Box::new(returned.value)),
                    env: returned.env,
                }
            }
        },
        StatementView::Let { token, name, value } => {
            let bound = value_of_expression(value, env, scope, depth);
            if bound.value is Error {
                bound
            } else {
                Evaluated { value: bound.value, env: bind(bound.env, scope, name, bound.value) }
            }
        },
    }
}

/// The value of the statements from `done` on, where `last` is the value of
/// the statement before them: that of the first statement whose value is a
/// returned value or an error, which ends the evaluation, and else that of
/// the last statement.
#[verifier::opaque]
pub open spec fn value_of_statements(
    statements: Seq<StatementView>,
    done: nat,
    last: ObjectView,
    env: Seq<ScopeView>,
    scope: nat,
    depth: nat,
) -> Evaluated
    decreases depth, 1nat, statements, statements.len() - done,
{
    if done >= statements.len() {
        Evaluated { value: last, env }
    } else {
        let current = value_of_statement(statements[done as int], env, scope, depth);
        if current.value is Return || current.value is Error {
            current
        } else {
            value_of_statements(statements, done + 1, current.value, current.env, scope, depth)
        }
    }
}

/// The value of a program: that of its statements, without the wrapping of
/// a return.
pub open spec fn value_of_program(
    statements: Seq<StatementView>,
    env: Seq<ScopeView>,
    scope: nat,
    depth: nat,
) -> Evaluated {
    let run = value_of_statements(statements, 0, ObjectView::Null, env, scope, depth);
    Evaluated { value: run.value.unwrapped(), env: run.env }
}

/// The value of an expression, by its kind.
pub(crate) proof fn lemma_value_of_expression(
    e: ExpressionView,
    env: Seq<ScopeView>,
    scope: nat,
    depth: nat,
)
    ensures
        value_of_expression(e, env, scope, depth) == ({
            match e {
                ExpressionView::IntegerLiteral(token) => Evaluated { value: integer_value(token), env },
                ExpressionView::StringLiteral(token) => Evaluated {
                    value: ObjectView::String(token.literal()),
                    env,
                },
                ExpressionView::Boolean(token) => Evaluated { value: boolean_value(token), env },
                ExpressionView::Identifier(token) => match lookup(env, scope, token.literal()) {
                    Some(value) => Evaluated { value, env },
                    None => Evaluated {
                        value: ObjectView::Error(identifier_not_found(token.literal())),
                        env,
                    },
                },
                ExpressionView::Prefix { operator, right } => {
                    let operand = value_of_expression(*right, env, scope, depth);
                    if operand.value is Error {
                        operand
                    } else {
                        Evaluated { value: prefix_value(operator, operand.value), env: operand.env }
                    }
                },
                ExpressionView::Infix { operator, left, right } => {
                    let first = value_of_expression(*left, env, scope, depth);
                    if first.value is Error {
                        first
                    } else {
                        let second = value_of_expression(*right, first.env, scope, depth);
                        if second.value is Error {
                            second
                        } else {
                            Evaluated {
                                value: infix_value(operator, first.value, second.value),
                                env: second.env,
                            }
                        }
                    }
                },
                ExpressionView::If { condition, consequence, alternative } => {
                    let test = value_of_expression(*condition, env, scope, depth);
                    if test.value is Error {
                        test
                    } else if test.value.is_truthy() {
                        value_of_statement(*consequence, test.env, scope, depth)
                    } else {
                        match alternative {
                            Some(alternative) => value_of_statement(*alternative, test.env, scope, depth),
                            None => Evaluated { value: ObjectView::Null, env: test.env },
                        }
                    }
                },
                ExpressionView::Fn { parameters, body } => Evaluated {
                    value: ObjectView::Function { parameters, body: *body, env: env.len() },
                    env: enclose(env, scope),
                },
                ExpressionView::Call { token, function, arguments } => {
                    let callee = value_of_expression(*function, env, scope, depth);
                    if callee.value is Error {
                        callee
                    } else {
                        let list = values_of_expressions(
                            arguments,
                            0,
                            Seq::empty(),
                            callee.env,
                            scope,
                            depth,
                        );
                        match list.failure {
                            Some(error) => Evaluated { value: error, env: list.env },
                            None => value_of_call(callee.value, list.values, list.env, depth),
                        }
                    }
                },
            }
        }),
{
    reveal(value_of_expression);
    reveal(values_of_expressions);
    reveal(value_of_call);
    reveal(value_of_statement);
}

/// The values of a list of expressions are those of the first and of the rest.
pub(crate) proof fn lemma_values_of_expressions(
    items: Seq<ExpressionView>,
    done: nat,
    values: Seq<ObjectView>,
    env: Seq<ScopeView>,
    scope: nat,
    depth: nat,
)
    ensures
        values_of_expressions(items, done, values, env, scope, depth) == ({
            if done >= items.len() {
                EvaluatedList { values, failure: None, env }
            } else {
                let item = value_of_expression(items[done as int], env, scope, depth);
                if item.value is Error {
                    EvaluatedList { values, failure: Some(item.value), env: item.env }
                } else {
                    values_of_expressions(items, done + 1, values.push(item.value), item.env, scope, depth)
                }
            }
        }),
{
    reveal(values_of_expressions);
    reveal(value_of_expression);
}

/// The value of a call, by what is called.
pub(crate) proof fn lemma_value_of_call(
    function: ObjectView,
    arguments: Seq<ObjectView>,
    env: Seq<ScopeView>,
    depth: nat,
)
    ensures
        value_of_call(function, arguments, env, depth) == ({
            match function {
                ObjectView::Function { parameters, body, env: captured } => {
                    if depth == 0 {
                        Evaluated { value: ObjectView::Error(call_depth_exceeded()), env }
                    } else if parameters.len() != arguments.len() {
                        Evaluated {
                            value: ObjectView::Error(
                                wrong_number_of_arguments(arguments.len(), parameters.len()),
                            ),
                            env,
                        }
                    } else {
                        let frame = env.len();
                        let called = value_of_statement(
                            body,
                            bind_parameters(parameters, arguments, 0, enclose(env, captured), frame),
                            frame,
                            (depth - 1) as nat,
                        );
                        Evaluated { value: called.value.unwrapped(), env: called.env }
                    }
                },
                _ => Evaluated {
                    value: ObjectView::Error(not_a_function(function.object_type())),
                    env,
                },
            }
        }),
{
    reveal(value_of_call);
    reveal(value_of_statement);
}

/// The value of a statement, by its kind.
pub(crate) proof fn lemma_value_of_statement(
    s: StatementView,
    env: Seq<ScopeView>,
    scope: nat,
    depth: nat,
)
    ensures
        value_of_statement(s, env, scope, depth) == ({
            match s {
                StatementView::Expression { expression } => value_of_expression(expression, env, scope, depth),
                StatementView::Block { statements } => value_of_statements(
                    statements,
                    0,
                    ObjectView::Null,
                    env,
                    scope,
                    depth,
                ),
                StatementView::Return { value } => {
                    let returned = value_of_expression(value, env, scope, depth);
                    if returned.value is Error {
                        returned
                    } else {
                        Evaluated {
                            value: ObjectView::Return(Box::new(returned.value)),
                            env: returned.env,
                        }
                    }
                },
                StatementView::Let { token, name, value } => {
                    let bound = value_of_expression(value, env, scope, depth);
                    if bound.value is Error {
                        bound
                    } else {
                        Evaluated { value: bound.value, env: bind(bound.env, scope, name, bound.value) }
                    }
                },
            }
        }),
{
    reveal(value_of_statement);
    reveal(value_of_expression);
    reveal(value_of_statements);
}

/// The value of a sequence of statements is that of the first, or of the rest after it.
pub(crate) proof fn lemma_value_of_statements(
    statements: Seq<StatementView>,
    done: nat,
    last: ObjectView,
    env: Seq<ScopeView>,
    scope: nat,
    depth: nat,
)
    ensures
        value_of_statements(statements, done, last, env, scope, depth) == ({
            if done >= statements.len() {
                Evaluated { value: last, env }
            } else {
                let current = value_of_statement(statements[done as int], env, scope, depth);
                if current.value is Return || current.value is Error {
                    current
                } else {
                    value_of_statements(statements, done + 1, current.value, current.env, scope, depth)
                }
            }
        }),
{
    reveal(value_of_statements);
    reveal(value_of_statement);
}

/// The part of an expression that is evaluated first, where the expression
/// has parts: the operand of a prefix operator, the left operand of an
/// infix operator, the condition of a conditional, and what a call calls.
pub open spec fn first_part(e: ExpressionView) -> Option<ExpressionView> {
    match e {
        ExpressionView::Prefix { right, .. } => Some(*right),
        ExpressionView::Infix { left, .. } => Some(*left),
        ExpressionView::If { condition, .. } => Some(*condition),
        ExpressionView::Call { function, .. } => Some(*function),
        _ => None,
    }
}

/// An error in the part of an expression that is evaluated first is the
/// value of the expression, and the store stays as that part left it:
/// nothing else of the expression is evaluated.
pub proof fn lemma_error_ends_expression(
    e: ExpressionView,
    env: Seq<ScopeView>,
    scope: nat,
    depth: nat,
)
    requires
        first_part(e) is Some,
        value_of_expression(first_part(e)->0, env, scope, depth).value is Error,
    ensures
        value_of_expression(e, env, scope, depth) == value_of_expression(
            first_part(e)->0,
            env,
            scope,
            depth,
        ),
{
    lemma_value_of_expression(e, env, scope, depth);
}

/// An error in the right operand of an infix operator, after a left
/// operand without error, is the value of the operation.
pub proof fn lemma_error_in_right_operand(
    operator: TokenView,
    left: ExpressionView,
    right: ExpressionView,
    env: Seq<ScopeView>,
    scope: nat,
    depth: nat,
)
    requires
        !(value_of_expression(left, env, scope, depth).value is Error),
        value_of_expression(
            right,
            value_of_expression(left, env, scope, depth).env,
            scope,
            depth,
        ).value is Error,
    ensures
        value_of_expression(
            ExpressionView::Infix { operator, left: Box::new(left), right: Box::new(right) },
            env,
            scope,
            depth,
        ) == value_of_expression(
            right,
            value_of_expression(left, env, scope, depth).env,
            scope,
            depth,
        ),
{
    lemma_value_of_expression(
        ExpressionView::Infix { operator, left: Box::new(left), right: Box::new(right) },
        env,
        scope,
        depth,
    );
}

/// The first error among the arguments of a call is the value of the call:
/// nothing is called.
pub proof fn lemma_error_in_arguments(
    token: TokenView,
    function: ExpressionView,
    arguments: Seq<ExpressionView>,
    env: Seq<ScopeView>,
    scope: nat,
    depth: nat,
)
    requires
        !(value_of_expression(function, env, scope, depth).value is Error),
        values_of_expressions(
            arguments,
            0,
            Seq::empty(),
            value_of_expression(function, env, scope, depth).env,
            scope,
            depth,
        ).failure is Some,
    ensures
        ({
            let list = values_of_expressions(
                arguments,
                0,
                Seq::empty(),
                value_of_expression(function, env, scope, depth).env,
                scope,
                depth,
            );
            value_of_expression(
                ExpressionView::Call { token, function: Box::new(function), arguments },
                env,
                scope,
                depth,
            ) == (Evaluated { value: list.failure->0, env: list.env })
        }),
{
    lemma_value_of_expression(
        ExpressionView::Call { token, function: Box::new(function), arguments },
        env,
        scope,
        depth,
    );
}

/// An error among the values of a list of expressions is the first one, and
/// the expressions after it are not evaluated: the store is as the failing
/// expression left it.
pub proof fn lemma_error_ends_expressions(
    items: Seq<ExpressionView>,
    done: nat,
    values: Seq<ObjectView>,
    env: Seq<ScopeView>,
    scope: nat,
    depth: nat,
)
    requires
        done < items.len(),
        value_of_expression(items[done as int], env, scope, depth).value is Error,
    ensures
        values_of_expressions(items, done, values, env, scope, depth) == (EvaluatedList {
            values,
            failure: Some(value_of_expression(items[done as int], env, scope, depth).value),
            env: value_of_expression(items[done as int], env, scope, depth).env,
        }),
{
    lemma_values_of_expressions(items, done, values, env, scope, depth);
}

/// An error in the expression of a statement is the value of the statement:
/// it is not wrapped by a return and not bound by a binding.
pub proof fn lemma_error_ends_statement(
    s: StatementView,
    env: Seq<ScopeView>,
    scope: nat,
    depth: nat,
)
    ensures
        s matches StatementView::Let { value, .. } ==> (value_of_expression(
            value,
            env,
            scope,
            depth,
        ).value is Error ==> value_of_statement(s, env, scope, depth) == value_of_expression(
            value,
            env,
            scope,
            depth,
        )),
        s matches StatementView::Return { value } ==> (value_of_expression(
            value,
            env,
            scope,
            depth,
        ).value is Error ==> value_of_statement(s, env, scope, depth) == value_of_expression(
            value,
            env,
            scope,
            depth,
        )),
        s matches StatementView::Expression { expression } ==> value_of_statement(
            s,
            env,
            scope,
            depth,
        ) == value_of_expression(expression, env, scope, depth),
{
    lemma_value_of_statement(s, env, scope, depth);
}

/// A statement whose value is an error ends the sequence it stands in: the
/// error is the value of the sequence, and the statements after it are not
/// evaluated. The same holds of a returned value.
pub proof fn lemma_error_ends_statements(
    statements: Seq<StatementView>,
    done: nat,
    last: ObjectView,
    env: Seq<ScopeView>,
    scope: nat,
    depth: nat,
)
    requires
        done < statements.len(),
        value_of_statement(statements[done as int], env, scope, depth).value is Error
            || value_of_statement(statements[done as int], env, scope, depth).value is Return,
    ensures
        value_of_statements(statements, done, last, env, scope, depth) == value_of_statement(
            statements[done as int],
            env,
            scope,
            depth,
        ),
{
    lemma_value_of_statements(statements, done, last, env, scope, depth);
}

/// A sequence of statements goes on after a statement whose value is
/// neither an error nor a returned value.
pub proof fn lemma_statements_go_on(
    statements: Seq<StatementView>,
    done: nat,
    last: ObjectView,
    env: Seq<ScopeView>,
    scope: nat,
    depth: nat,
)
    requires
        done < statements.len(),
        !(value_of_statement(statements[done as int], env, scope, depth).value is Error),
        !(value_of_statement(statements[done as int], env, scope, depth).value is Return),
    ensures
        value_of_statements(statements, done, last, env, scope, depth) == value_of_statements(
            statements,
            done + 1,
            value_of_statement(statements[done as int], env, scope, depth).value,
            value_of_statement(statements[done as int], env, scope, depth).env,
            scope,
            depth,
        ),
{
    lemma_value_of_statements(statements, done, last, env, scope, depth);
}

/// Whether the store `later` can come of the store `earlier`: it has every
/// scope of `earlier`, each inside the same scope as before, and with a
/// binding for every name that was bound in it.
pub open spec fn extends(later: Seq<ScopeView>, earlier: Seq<ScopeView>) -> bool {
    &&& earlier.len() <= later.len()
    &&& forall|i: int|
        0 <= i < earlier.len() ==> (#[trigger] later[i]).outer == earlier[i].outer
    &&& forall|i: int, name: Seq<char>|
        0 <= i < earlier.len() && earlier[i].store.contains_key(name)
            ==> #[trigger] later[i].store.contains_key(name)
}

proof fn lemma_extends_twice(a: Seq<ScopeView>, b: Seq<ScopeView>, c: Seq<ScopeView>)
    requires
        extends(b, a),
        extends(c, b),
    ensures
        extends(c, a),
{
    assert forall|i: int| 0 <= i < a.len() implies (#[trigger] c[i]).outer == a[i].outer by {
        assert(b[i].outer == a[i].outer);
    }
    assert forall|i: int, name: Seq<char>|
        0 <= i < a.len() && a[i].store.contains_key(name) implies #[trigger] c[i].store.contains_key(
        name,
    ) by {
        assert(b[i].store.contains_key(name));
    }
}

proof fn lemma_bind_extends(env: Seq<ScopeView>, scope: nat, name: Seq<char>, value: ObjectView)
    ensures
        extends(bind(env, scope, name, value), env),
        bind(env, scope, name, value).len() == env.len(),
{
}

proof fn lemma_bind_parameters_extends(
    parameters: Seq<ExpressionView>,
    arguments: Seq<ObjectView>,
    done: nat,
    env: Seq<ScopeView>,
    scope: nat,
)
    ensures
        extends(bind_parameters(parameters, arguments, done, env, scope), env),
    decreases parameters.len() - done,
{
    if done < parameters.len() && done < arguments.len() {
        let name = expression_text(parameters[done as int]);
        let next = bind(env, scope, name, arguments[done as int]);
        lemma_bind_extends(env, scope, name, arguments[done as int]);
        lemma_bind_parameters_extends(parameters, arguments, done + 1, next, scope);
        lemma_extends_twice(
            env,
            next,
            bind_parameters(parameters, arguments, done + 1, next, scope),
        );
    }
}

/// Evaluating an expression only adds to the store: no scope is taken
/// away or moved to another place, and no name loses its binding. So a
/// scope that a function captured is there for as long as the store is.
pub proof fn lemma_expression_extends_store(
    e: ExpressionView,
    env: Seq<ScopeView>,
    scope: nat,
    depth: nat,
)
    ensures
        extends(value_of_expression(e, env, scope, depth).env, env),
    decreases depth, 1nat, e, 0nat,
{
    lemma_value_of_expression(e, env, scope, depth);
    match e {
        ExpressionView::Prefix { operator, right } => {
            lemma_expression_extends_store(*right, env, scope, depth);
        },
        ExpressionView::Infix { operator, left, right } => {
            let first = value_of_expression(*left, env, scope, depth);
            lemma_expression_extends_store(*left, env, scope, depth);
            lemma_expression_extends_store(*right, first.env, scope, depth);
            lemma_extends_twice(
                env,
                first.env,
                value_of_expression(*right, first.env, scope, depth).env,
            );
        },
        ExpressionView::If { condition, consequence, alternative } => {
            let test = value_of_expression(*condition, env, scope, depth);
            lemma_expression_extends_store(*condition, env, scope, depth);
            lemma_statement_extends_store(*consequence, test.env, scope, depth);
            lemma_extends_twice(
                env,
                test.env,
                value_of_statement(*consequence, test.env, scope, depth).env,
            );
            match alternative {
                Some(alternative) => {
                    lemma_statement_extends_store(*alternative, test.env, scope, depth);
                    lemma_extends_twice(
                        env,
                        test.env,
                        value_of_statement(*alternative, test.env, scope, depth).env,
                    );
                },
                None => {},
            }
        },
        ExpressionView::Call { token, function, arguments } => {
            let callee = value_of_expression(*function, env, scope, depth);
            lemma_expression_extends_store(*function, env, scope, depth);
            let list = values_of_expressions(
                arguments,
                0,
                Seq::empty(),
                callee.env,
                scope,
                depth,
            );
            lemma_expressions_extend_store(arguments, 0, Seq::empty(), callee.env, scope, depth);
            lemma_extends_twice(env, callee.env, list.env);
            lemma_call_extends_store(callee.value, list.values, list.env, depth);
            lemma_extends_twice(
                env,
                list.env,
                value_of_call(callee.value, list.values, list.env, depth).env,
            );
        },
        _ => {},
    }
}

/// Evaluating a list of expressions only adds to the store.
pub proof fn lemma_expressions_extend_store(
    items: Seq<ExpressionView>,
    done: nat,
    values: Seq<ObjectView>,
    env: Seq<ScopeView>,
    scope: nat,
    depth: nat,
)
    ensures
        extends(values_of_expressions(items, done, values, env, scope, depth).env, env),
    decreases depth, 1nat, items, items.len() - done,
{
    lemma_values_of_expressions(items, done, values, env, scope, depth);
    if done < items.len() {
        let item = value_of_expression(items[done as int], env, scope, depth);
        lemma_expression_extends_store(items[done as int], env, scope, depth);
        lemma_expressions_extend_store(
            items,
            done + 1,
            values.push(item.value),
            item.env,
            scope,
            depth,
        );
        lemma_extends_twice(
            env,
            item.env,
            values_of_expressions(items, done + 1, values.push(item.value), item.env, scope, depth).env,
        );
    }
}

/// A call only adds to the store.
pub proof fn lemma_call_extends_store(
    function: ObjectView,
    arguments: Seq<ObjectView>,
    env: Seq<ScopeView>,
    depth: nat,
)
    ensures
        extends(value_of_call(function, arguments, env, depth).env, env),
    decreases depth, 0nat, function, 0nat,
{
    lemma_value_of_call(function, arguments, env, depth);
    match function {
        ObjectView::Function { parameters, body, env: captured } => {
            if depth > 0 && parameters.len() == arguments.len() {
                let frame = env.len();
                let enclosed = enclose(env, captured);
                let bound = bind_parameters(parameters, arguments, 0, enclosed, frame);
                lemma_bind_parameters_extends(parameters, arguments, 0, enclosed, frame);
                lemma_extends_twice(env, enclosed, bound);
                lemma_statement_extends_store(body, bound, frame, (depth - 1) as nat);
                lemma_extends_twice(
                    env,
                    bound,
                    value_of_statement(body, bound, frame, (depth - 1) as nat).env,
                );
            }
        },
        _ => {},
    }
}

/// Evaluating a statement only adds to the store.
pub proof fn lemma_statement_extends_store(
    s: StatementView,
    env: Seq<ScopeView>,
    scope: nat,
    depth: nat,
)
    ensures
        extends(value_of_statement(s, env, scope, depth).env, env),
    decreases depth, 1nat, s, 0nat,
{
    lemma_value_of_statement(s, env, scope, depth);
    match s {
        StatementView::Expression { expression } => {
            lemma_expression_extends_store(expression, env, scope, depth);
        },
        StatementView::Block { statements } => {
            lemma_statements_extend_store(statements, 0, ObjectView::Null, env, scope, depth);
        },
        StatementView::Return { value } => {
            lemma_expression_extends_store(value, env, scope, depth);
        },
        StatementView::Let { token, name, value } => {
            let bound = value_of_expression(value, env, scope, depth);
            lemma_expression_extends_store(value, env, scope, depth);
            lemma_bind_extends(bound.env, scope, name, bound.value);
            lemma_extends_twice(env, bound.env, bind(bound.env, scope, name, bound.value));
        },
    }
}

/// Evaluating a sequence of statements only adds to the store.
pub proof fn lemma_statements_extend_store(
    statements: Seq<StatementView>,
    done: nat,
    last: ObjectView,
    env: Seq<ScopeView>,
    scope: nat,
    depth: nat,
)
    ensures
        extends(value_of_statements(statements, done, last, env, scope, depth).env, env),
    decreases depth, 1nat, statements, statements.len() - done,
{
    lemma_value_of_statements(statements, done, last, env, scope, depth);
    if done < statements.len() {
        let current = value_of_statement(statements[done as int], env, scope, depth);
        lemma_statement_extends_store(statements[done as int], env, scope, depth);
        lemma_statements_extend_store(
            statements,
            done + 1,
            current.value,
            current.env,
            scope,
            depth,
        );
        lemma_extends_twice(
            env,
            current.env,
            value_of_statements(statements, done + 1, current.value, current.env, scope, depth).env,
        );
    }
}

/// Whether a text starts with `prefix`.
pub open spec fn starts_with(text: Seq<char>, prefix: Seq<char>) -> bool {
    prefix.len() <= text.len() && text.subrange(0, prefix.len() as int) == prefix
}

/// Whether a message is one of those that evaluation gives: a name that is
/// not bound, an operator that does not suit its operands, operands of two
/// types, a call of what is no function or with the wrong number of
/// arguments, a division by zero, or calls nested too deeply.
pub open spec fn is_evaluation_message(message: Seq<char>) -> bool {
    ||| starts_with(message, "identifier not found: "@)
    ||| starts_with(message, "unknown operator: "@)
    ||| starts_with(message, "type mismatch: "@)
    ||| starts_with(message, "not a function: "@)
    ||| starts_with(message, "wrong number of arguments. got="@)
    ||| message == division_by_zero()
    ||| message == call_depth_exceeded()
}

/// Whether a value is one that evaluation gives: any value but an error
/// with a message of another kind, bare or in the wrapping of a return.
pub open spec fn is_evaluation_value(value: ObjectView) -> bool
    decreases value,
{
    match value {
        ObjectView::Error(message) => is_evaluation_message(message),
        ObjectView::Return(inner) => is_evaluation_value(*inner),
        _ => true,
    }
}

/// Whether every value bound in a store is one that evaluation gives.
pub open spec fn holds_evaluation_values(env: Seq<ScopeView>) -> bool {
    forall|i: int, name: Seq<char>|
        0 <= i < env.len() && #[trigger] env[i].store.contains_key(name)
            ==> is_evaluation_value(env[i].store[name])
}

proof fn lemma_starts_with(prefix: Seq<char>, rest: Seq<char>)
    ensures
        starts_with(prefix + rest, prefix),
{
    assert((prefix + rest).subrange(0, prefix.len() as int) =~= prefix);
}

/// The messages that the evaluator writes are evaluation messages.
proof fn lemma_messages()
    ensures
        forall|name: Seq<char>| is_evaluation_message(#[trigger] identifier_not_found(name)),
        forall|operator: Seq<char>, right: ObjectType|
            is_evaluation_message(#[trigger] unknown_prefix_operator(operator, right)),
        forall|left: ObjectType, operator: Seq<char>, right: ObjectType|
            is_evaluation_message(#[trigger] type_mismatch(left, operator, right)),
        forall|left: ObjectType, operator: Seq<char>, right: ObjectType|
            is_evaluation_message(#[trigger] unknown_infix_operator(left, operator, right)),
        forall|callee: ObjectType| is_evaluation_message(#[trigger] not_a_function(callee)),
        forall|got: nat, want: nat|
            is_evaluation_message(#[trigger] wrong_number_of_arguments(got, want)),
{
    assert forall|name: Seq<char>| is_evaluation_message(
        #[trigger] identifier_not_found(name),
    ) by {
        lemma_starts_with("identifier not found: "@, name);
    }
    assert forall|operator: Seq<char>, right: ObjectType|
        is_evaluation_message(#[trigger] unknown_prefix_operator(operator, right)) by {
        let rest = operator + right.name();
        assert(unknown_prefix_operator(operator, right) =~= "unknown operator: "@ + rest);
        lemma_starts_with("unknown operator: "@, rest);
    }
    assert forall|left: ObjectType, operator: Seq<char>, right: ObjectType|
        is_evaluation_message(#[trigger] type_mismatch(left, operator, right)) by {
        let rest = left.name() + " "@ + operator + " "@ + right.name();
        assert(type_mismatch(left, operator, right) =~= "type mismatch: "@ + rest);
        lemma_starts_with("type mismatch: "@, rest);
    }
    assert forall|left: ObjectType, operator: Seq<char>, right: ObjectType|
        is_evaluation_message(#[trigger] unknown_infix_operator(left, operator, right)) by {
        let rest = left.name() + " "@ + operator + " "@ + right.name();
        assert(unknown_infix_operator(left, operator, right) =~= "unknown operator: "@ + rest);
        lemma_starts_with("unknown operator: "@, rest);
    }
    assert forall|callee: ObjectType| is_evaluation_message(
        #[trigger] not_a_function(callee),
    ) by {
        lemma_starts_with("not a function: "@, callee.name());
    }
    assert forall|got: nat, want: nat|
        is_evaluation_message(#[trigger] wrong_number_of_arguments(got, want)) by {
        let rest = natural_text(got) + ", want="@ + natural_text(want);
        assert(wrong_number_of_arguments(got, want) =~= "wrong number of arguments. got="@
            + rest);
        lemma_starts_with("wrong number of arguments. got="@, rest);
    }
}

proof fn lemma_lookup_is_evaluation_value(env: Seq<ScopeView>, scope: nat, name: Seq<char>)
    requires
        holds_evaluation_values(env),
    ensures
        lookup(env, scope, name) matches Some(value) ==> is_evaluation_value(value),
    decreases scope,
{
    if scope < env.len() && !env[scope as int].store.contains_key(name) {
        match env[scope as int].outer {
            Some(outer) => {
                if outer < scope {
                    lemma_lookup_is_evaluation_value(env, outer, name);
                }
            },
            None => {},
        }
    }
}

proof fn lemma_bind_holds_evaluation_values(
    env: Seq<ScopeView>,
    scope: nat,
    name: Seq<char>,
    value: ObjectView,
)
    requires
        holds_evaluation_values(env),
        is_evaluation_value(value),
    ensures
        holds_evaluation_values(bind(env, scope, name, value)),
{
    let bound = bind(env, scope, name, value);
    assert forall|i: int, other: Seq<char>|
        0 <= i < bound.len() && #[trigger] bound[i].store.contains_key(
            other,
        ) implies is_evaluation_value(bound[i].store[other]) by {
        if i == scope && other == name {
        } else {
            assert(env[i].store.contains_key(other));
        }
    }
}

proof fn lemma_enclose_holds_evaluation_values(env: Seq<ScopeView>, outer: nat)
    requires
        holds_evaluation_values(env),
    ensures
        holds_evaluation_values(enclose(env, outer)),
{
    let enclosed = enclose(env, outer);
    assert forall|i: int, name: Seq<char>|
        0 <= i < enclosed.len() && #[trigger] enclosed[i].store.contains_key(
            name,
        ) implies is_evaluation_value(enclosed[i].store[name]) by {
        if i < env.len() {
            assert(env[i].store.contains_key(name));
        }
    }
}

proof fn lemma_bind_parameters_hold_evaluation_values(
    parameters: Seq<ExpressionView>,
    arguments: Seq<ObjectView>,
    done: nat,
    env: Seq<ScopeView>,
    scope: nat,
)
    requires
        holds_evaluation_values(env),
        forall|i: int| 0 <= i < arguments.len() ==> is_evaluation_value(#[trigger] arguments[i]),
    ensures
        holds_evaluation_values(bind_parameters(parameters, arguments, done, env, scope)),
    decreases parameters.len() - done,
{
    if done < parameters.len() && done < arguments.len() {
        let name = expression_text(parameters[done as int]);
        lemma_bind_holds_evaluation_values(env, scope, name, arguments[done as int]);
        lemma_bind_parameters_hold_evaluation_values(
            parameters,
            arguments,
            done + 1,
            bind(env, scope, name, arguments[done as int]),
            scope,
        );
    }
}

/// The value of an expression is an evaluation value: where it is an error,
/// bare or wrapped, the error carries an evaluation message. So is every
/// value that the evaluation binds.
pub proof fn lemma_expression_gives_evaluation_value(
    e: ExpressionView,
    env: Seq<ScopeView>,
    scope: nat,
    depth: nat,
)
    requires
        holds_evaluation_values(env),
    ensures
        is_evaluation_value(value_of_expression(e, env, scope, depth).value),
        holds_evaluation_values(value_of_expression(e, env, scope, depth).env),
    decreases depth, 1nat, e, 0nat,
{
    lemma_messages();
    lemma_value_of_expression(e, env, scope, depth);
    match e {
        ExpressionView::Identifier(token) => {
            lemma_lookup_is_evaluation_value(env, scope, token.literal());
        },
        ExpressionView::Prefix { operator, right } => {
            lemma_expression_gives_evaluation_value(*right, env, scope, depth);
        },
        ExpressionView::Infix { operator, left, right } => {
            let first = value_of_expression(*left, env, scope, depth);
            lemma_expression_gives_evaluation_value(*left, env, scope, depth);
            lemma_expression_gives_evaluation_value(*right, first.env, scope, depth);
        },
        ExpressionView::If { condition, consequence, alternative } => {
            let test = value_of_expression(*condition, env, scope, depth);
            lemma_expression_gives_evaluation_value(*condition, env, scope, depth);
            lemma_statement_gives_evaluation_value(*consequence, test.env, scope, depth);
            match alternative {
                Some(alternative) => {
                    lemma_statement_gives_evaluation_value(*alternative, test.env, scope, depth);
                },
                None => {},
            }
        },
        ExpressionView::Fn { parameters, body } => {
            lemma_enclose_holds_evaluation_values(env, scope);
        },
        ExpressionView::Call { token, function, arguments } => {
            let callee = value_of_expression(*function, env, scope, depth);
            lemma_expression_gives_evaluation_value(*function, env, scope, depth);
            let list = values_of_expressions(
                arguments,
                0,
                Seq::empty(),
                callee.env,
                scope,
                depth,
            );
            lemma_expressions_give_evaluation_values(
                arguments,
                0,
                Seq::empty(),
                callee.env,
                scope,
                depth,
            );
            lemma_call_gives_evaluation_value(callee.value, list.values, list.env, depth);
        },
        _ => {},
    }
}

/// Every value of a list of expressions is an evaluation value.
pub proof fn lemma_expressions_give_evaluation_values(
    items: Seq<ExpressionView>,
    done: nat,
    values: Seq<ObjectView>,
    env: Seq<ScopeView>,
    scope: nat,
    depth: nat,
)
    requires
        holds_evaluation_values(env),
        forall|i: int| 0 <= i < values.len() ==> is_evaluation_value(#[trigger] values[i]),
    ensures
        ({
            let list = values_of_expressions(items, done, values, env, scope, depth);
            &&& holds_evaluation_values(list.env)
            &&& forall|i: int|
                0 <= i < list.values.len() ==> is_evaluation_value(#[trigger] list.values[i])
            &&& list.failure matches Some(error) ==> is_evaluation_value(error)
        }),
    decreases depth, 1nat, items, items.len() - done,
{
    lemma_values_of_expressions(items, done, values, env, scope, depth);
    if done < items.len() {
        let item = value_of_expression(items[done as int], env, scope, depth);
        lemma_expression_gives_evaluation_value(items[done as int], env, scope, depth);
        if !(item.value is Error) {
            let grown = values.push(item.value);
            assert forall|i: int| 0 <= i < grown.len() implies is_evaluation_value(
                #[trigger] grown[i],
            ) by {
                if i < values.len() {
                    assert(grown[i] == values[i]);
                }
            }
            lemma_expressions_give_evaluation_values(
                items,
                done + 1,
                grown,
                item.env,
                scope,
                depth,
            );
        }
    }
}

/// The value of a call is an evaluation value.
pub proof fn lemma_call_gives_evaluation_value(
    function: ObjectView,
    arguments: Seq<ObjectView>,
    env: Seq<ScopeView>,
    depth: nat,
)
    requires
        holds_evaluation_values(env),
        forall|i: int| 0 <= i < arguments.len() ==> is_evaluation_value(#[trigger] arguments[i]),
    ensures
        is_evaluation_value(value_of_call(function, arguments, env, depth).value),
        holds_evaluation_values(value_of_call(function, arguments, env, depth).env),
    decreases depth, 0nat, function, 0nat,
{
    lemma_messages();
    lemma_value_of_call(function, arguments, env, depth);
    match function {
        ObjectView::Function { parameters, body, env: captured } => {
            if depth > 0 && parameters.len() == arguments.len() {
                let frame = env.len();
                let enclosed = enclose(env, captured);
                lemma_enclose_holds_evaluation_values(env, captured);
                lemma_bind_parameters_hold_evaluation_values(
                    parameters,
                    arguments,
                    0,
                    enclosed,
                    frame,
                );
                lemma_statement_gives_evaluation_value(
                    body,
                    bind_parameters(parameters, arguments, 0, enclosed, frame),
                    frame,
                    (depth - 1) as nat,
                );
            }
        },
        _ => {},
    }
}

/// The value of a statement is an evaluation value.
pub proof fn lemma_statement_gives_evaluation_value(
    s: StatementView,
    env: Seq<ScopeView>,
    scope: nat,
    depth: nat,
)
    requires
        holds_evaluation_values(env),
    ensures
        is_evaluation_value(value_of_statement(s, env, scope, depth).value),
        holds_evaluation_values(value_of_statement(s, env, scope, depth).env),
    decreases depth, 1nat, s, 0nat,
{
    lemma_value_of_statement(s, env, scope, depth);
    match s {
        StatementView::Expression { expression } => {
            lemma_expression_gives_evaluation_value(expression, env, scope, depth);
        },
        StatementView::Block { statements } => {
            lemma_statements_give_evaluation_value(
                statements,
                0,
                ObjectView::Null,
                env,
                scope,
                depth,
            );
        },
        StatementView::Return { value } => {
            lemma_expression_gives_evaluation_value(value, env, scope, depth);
        },
        StatementView::Let { token, name, value } => {
            let bound = value_of_expression(value, env, scope, depth);
            lemma_expression_gives_evaluation_value(value, env, scope, depth);
            lemma_bind_holds_evaluation_values(bound.env, scope, name, bound.value);
        },
    }
}

/// The value of a sequence of statements is an evaluation value.
pub proof fn lemma_statements_give_evaluation_value(
    statements: Seq<StatementView>,
    done: nat,
    last: ObjectView,
    env: Seq<ScopeView>,
    scope: nat,
    depth: nat,
)
    requires
        holds_evaluation_values(env),
        is_evaluation_value(last),
    ensures
        is_evaluation_value(value_of_statements(statements, done, last, env, scope, depth).value),
        holds_evaluation_values(
            value_of_statements(statements, done, last, env, scope, depth).env,
        ),
    decreases depth, 1nat, statements, statements.len() - done,
{
    lemma_value_of_statements(statements, done, last, env, scope, depth);
    if done < statements.len() {
        let current = value_of_statement(statements[done as int], env, scope, depth);
        lemma_statement_gives_evaluation_value(statements[done as int], env, scope, depth);
        lemma_statements_give_evaluation_value(
            statements,
            done + 1,
            current.value,
            current.env,
            scope,
            depth,
        );
    }
}

/// The value of a program in a new environment is of one of the seven
/// kinds of value, and where it is an error, the message is an evaluation
/// message.
pub proof fn lemma_program_gives_evaluation_value(statements: Seq<StatementView>, depth: nat)
    ensures
        is_evaluation_value(
            value_of_program(statements, seq![ScopeView::empty(None)], 0, depth).value,
        ),
        value_of_program(
            statements,
            seq![ScopeView::empty(None)],
            0,
            depth,
        ).value matches ObjectView::Error(message) ==> is_evaluation_message(message),
{
    let env = seq![ScopeView::empty(None)];
    assert(holds_evaluation_values(env));
    lemma_statements_give_evaluation_value(statements, 0, ObjectView::Null, env, 0, depth);
}

/// What each of a list of values is.
pub open spec fn objects_view(values: Seq<Object>) -> Seq<ObjectView> {
    Seq::new(values.len(), |i: int| values[i]@)
}

/// The value of anything that can be evaluated: of an expression, of a
/// statement, or of a program.
pub open spec fn value_of_node(node: Node, env: Seq<ScopeView>, scope: nat, depth: nat) -> Evaluated {
    match node {
        Node::Expression(expression) => value_of_expression(expression@, env, scope, depth),
        Node::Statement(statement) => value_of_statement(statement@, env, scope, depth),
        Node::Program(program) => value_of_program(program@.statements, env, scope, depth),
    }
}

/// Evaluates `node` in the outermost scope of `env`, with calls nested at
/// most `MAX_CALL_DEPTH` deep.
pub fn eval(node: Box<Node>, env: &mut Environment) -> (value: Object)
    ensures
        value@ == value_of_node(*node, old(env)@, GLOBAL_SCOPE as nat, MAX_CALL_DEPTH as nat).value,
        final(env)@ == value_of_node(
            *node,
            old(env)@,
            GLOBAL_SCOPE as nat,
            MAX_CALL_DEPTH as nat,
        ).env,
{
    eval_in(&*node, env, GLOBAL_SCOPE, MAX_CALL_DEPTH)
}

/// Evaluates `node` in scope `scope` of `env`, with calls nested at most
/// `depth` deep.
pub fn eval_in(node: &Node, env: &mut Environment, scope: usize, depth: usize) -> (value: Object)
    ensures
        value@ == value_of_node(*node, old(env)@, scope as nat, depth as nat).value,
        final(env)@ == value_of_node(*node, old(env)@, scope as nat, depth as nat).env,
{
    match node {
        Node::Expression(expr) => eval_expression(expr, env, scope, depth),
        Node::Statement(stmt) => eval_statement(stmt, env, scope, depth),
        Node::Program(program) => eval_program(program, env, scope, depth),
    }
}

/// An error value with the given message.
pub fn new_error(message: String) -> (error: Object)
    ensures
        error@ == ObjectView::Error(message@),
{
    Object::Error(Error { message })
}

/// Evaluates an expression in scope `scope` of `env`, with calls nested at
/// most `depth` deep.
pub fn eval_expression(
    expr: &ExpressionType,
    env: &mut Environment,
    scope: usize,
    depth: usize,
) -> (value: Object)
    ensures
        value@ == value_of_expression(expr@, old(env)@, scope as nat, depth as nat).value,
        final(env)@ == value_of_expression(expr@, old(env)@, scope as nat, depth as nat).env,
    decreases depth, 1nat, expr, 0nat,
{
    proof {
        lemma_value_of_expression(expr@, env@, scope as nat, depth as nat);
    }
    match expr {
        ExpressionType::IntegerLiteral(node) => match node.token.as_int() {
            Some(value) => Object::Integer(Integer { value }),
            None => Object::Null(Null),
        },
        ExpressionType::StringLiteral(node) => Object::String(
            StringValue { value: node.token.to_string() },
        ),
        ExpressionType::Boolean(node) => evel_boolean_expression(&node.token),
        ExpressionType::Identifier(node) => {
            let name = node.token.to_string();
            match env.get(scope, &name) {
                Some(value) => value,
                None => {
                    let mut message = String::from_str("identifier not found: ");
                    message.append(name.as_str());
                    new_error(message)
                },
            }
        },
        ExpressionType::Prefix(node) => {
            let right = eval_expression(&node.right, env, scope, depth);
            if right.is_error() {
                return right;
            }
            eval_prefix_expression(&node.operator, right)
        },
        ExpressionType::Infix(node) => eval_infix_expression(node, env, scope, depth),
        ExpressionType::If(node) => eval_if_expression(node, env, scope, depth),
        ExpressionType::Fn(node) => {
            let own = env.new_enclosed_environment(scope);
            let body: &StatementType = &node.body;
            let function = Object::Function(
                Function {
                    parameters: clone_expressions(&node.parameters),
                    body: Box::new(body.clone()),
                    env: own,
                },
            );
            assert(function@->Function_parameters =~= expr@->Fn_parameters);
            function
        },
        ExpressionType::Call(node) => {
            let func = eval_expression(&node.function, env, scope, depth);
            if func.is_error() {
                return func;
            }
            assert(expr@->Call_arguments =~= expressions_view(node.arguments@));
            match eval_expressions(&node.arguments, env, scope, depth) {
                Err(error) => error,
                Ok(args) => apply_function(func, args, env, depth),
            }
        },
    }
}

/// Evaluates a statement in scope `scope` of `env`, with calls nested at
/// most `depth` deep.
pub fn eval_statement(
    stmt: &StatementType,
    env: &mut Environment,
    scope: usize,
    depth: usize,
) -> (value: Object)
    ensures
        value@ == value_of_statement(stmt@, old(env)@, scope as nat, depth as nat).value,
        final(env)@ == value_of_statement(stmt@, old(env)@, scope as nat, depth as nat).env,
    decreases depth, 1nat, stmt, 0nat,
{
    proof {
        lemma_value_of_statement(stmt@, env@, scope as nat, depth as nat);
    }
    match stmt {
        StatementType::Expression(node) => eval_expression(&node.expression, env, scope, depth),
        StatementType::Block(node) => {
            assert(stmt@->Block_statements =~= statements_view(node.statements@));
            eval_statements(&node.statements, env, scope, depth)
        },
        StatementType::Return(node) => {
            let val = eval_expression(&node.value, env, scope, depth);
            if val.is_error() {
                return val;
            }
            Object::Return(ReturnValue { value: Box::new(val) })
        },
        StatementType::Let(node) => {
            let val = eval_expression(&node.value, env, scope, depth);
            if val.is_error() {
                return val;
            }
            env.init(scope, node.name.clone(), val)
        },
    }
}

/// Evaluates a program: its statements, up to the first that returns or
/// fails.
pub fn eval_program(program: &Program, env: &mut Environment, scope: usize, depth: usize) -> (value:
    Object)
    ensures
        value@ == value_of_program(program@.statements, old(env)@, scope as nat, depth as nat).value,
        final(env)@ == value_of_program(
            program@.statements,
            old(env)@,
            scope as nat,
            depth as nat,
        ).env,
{
    unwrap_return_value(eval_statements(&program.statements, env, scope, depth))
}

/// Evaluates the statements in order, up to the first whose value is a
/// returned value or an error. A returned value keeps its wrapping.
pub fn eval_statements(
    stmts: &Vec<Box<StatementType>>,
    env: &mut Environment,
    scope: usize,
    depth: usize,
) -> (value: Object)
    ensures
        value@ == value_of_statements(
            statements_view(stmts@),
            0,
            ObjectView::Null,
            old(env)@,
            scope as nat,
            depth as nat,
        ).value,
        final(env)@ == value_of_statements(
            statements_view(stmts@),
            0,
            ObjectView::Null,
            old(env)@,
            scope as nat,
            depth as nat,
        ).env,
    decreases depth, 1nat, stmts, 0nat,
{
    let ghost views = statements_view(stmts@);
    let ghost start = env@;
    let mut result = Object::Null(Null);
    let mut i: usize = 0;
    while i < stmts.len()
        invariant
            i <= stmts.len(),
            views == statements_view(stmts@),
            start == old(env)@,
            value_of_statements(views, i as nat, result@, env@, scope as nat, depth as nat)
                == value_of_statements(views, 0, ObjectView::Null, start, scope as nat, depth as nat),
        decreases stmts.len() - i,
    {
        proof {
            lemma_value_of_statements(views, i as nat, result@, env@, scope as nat, depth as nat);
        }
        result = eval_statement(&stmts[i], env, scope, depth);
        if result.is_return() || result.is_error() {
            return result;
        }
        i = i + 1;
    }
    proof {
        lemma_value_of_statements(views, i as nat, result@, env@, scope as nat, depth as nat);
    }
    result
}

/// The value of `true` or `false`.
pub fn evel_boolean_expression(token: &Token) -> (value: Object)
    ensures
        value@ == boolean_value(token@),
{
    match token {
        Token::TRUE => Object::Boolean(Boolean { value: true }),
        Token::FALSE => Object::Boolean(Boolean { value: false }),
        _ => Object::Null(Null),
    }
}

/// Applies a prefix operator to the value of its operand.
pub fn eval_prefix_expression(operator: &Token, right: Object) -> (value: Object)
    ensures
        value@ == prefix_value(operator@, right@),
{
    match operator {
        Token::BANG => eval_bang_operator_expression(right),
        Token::MINUS => evel_minus_prefix_operator_expression(right),
        _ => {
            let mut message = String::from_str("unknown operator: ");
            let literal = operator.to_string();
            message.append(literal.as_str());
            let name = right.object_type().to_string();
            message.append(name.as_str());
            new_error(message)
        },
    }
}

/// Applies `!` to a value.
pub fn eval_bang_operator_expression(right: Object) -> (value: Object)
    ensures
        value@ == bang_value(right@),
{
    match right {
        Object::Boolean(Boolean { value }) => Object::Boolean(Boolean { value: !value }),
        Object::Null(_) => Object::Boolean(Boolean { value: true }),
        _ => Object::Boolean(Boolean { value: false }),
    }
}

/// Applies `-` to a value.
pub fn evel_minus_prefix_operator_expression(right: Object) -> (value: Object)
    ensures
        value@ == minus_value(right@),
{
    match right {
        Object::Integer(Integer { value }) => Object::Integer(
            Integer { value: 0i64.wrapping_sub(value) },
        ),
        other => {
            let mut message = String::from_str("unknown operator: ");
            message.append("-");
            let name = other.object_type().to_string();
            message.append(name.as_str());
            new_error(message)
        },
    }
}

/// The message for an infix operator between two values, after `prefix`.
fn infix_message(prefix: &str, left: ObjectType, operator: &Token, right: ObjectType) -> (message:
    String)
    ensures
        message@ == prefix@ + left.name() + " "@ + operator@.literal() + " "@ + right.name(),
{
    let mut message = String::from_str(prefix);
    let left_name = left.to_string();
    message.append(left_name.as_str());
    message.append(" ");
    let literal = operator.to_string();
    message.append(literal.as_str());
    message.append(" ");
    let right_name = right.to_string();
    message.append(right_name.as_str());
    message
}

/// Evaluates the operands of an infix operator, the left one first, and
/// applies the operator to their values.
pub fn eval_infix_expression(
    node: &crate::ast::expression::node::InfixExpression,
    env: &mut Environment,
    scope: usize,
    depth: usize,
) -> (value: Object)
    ensures
        value@ == value_of_expression(node@, old(env)@, scope as nat, depth as nat).value,
        final(env)@ == value_of_expression(node@, old(env)@, scope as nat, depth as nat).env,
    decreases depth, 1nat, node, 0nat,
{
    proof {
        lemma_value_of_expression(node@, env@, scope as nat, depth as nat);
    }
    let left = eval_expression(&node.left, env, scope, depth);
    if left.is_error() {
        return left;
    }
    let right = eval_expression(&node.right, env, scope, depth);
    if right.is_error() {
        return right;
    }
    apply_infix_operator(&node.operator, left, right)
}

/// Applies an infix operator to the values of its operands.
pub fn apply_infix_operator(operator: &Token, left: Object, right: Object) -> (value: Object)
    ensures
        value@ == infix_value(operator@, left@, right@),
{
    match operator {
        Token::EQ => Object::Boolean(Boolean { value: left.equals(&right) }),
        Token::NOT_EQ => Object::Boolean(Boolean { value: !left.equals(&right) }),
        _ => match (&left, &right) {
            (Object::Integer(a), Object::Integer(b)) => eval_integer_infix_expression(
                operator,
                a.value,
                b.value,
            ),
            (Object::String(a), Object::String(b)) => match operator {
                Token::PLUS => {
                    let mut joined = a.value.clone();
                    joined.append(b.value.as_str());
                    Object::String(StringValue { value: joined })
                },
                _ => new_error(
                    infix_message(
                        "unknown operator: ",
                        ObjectType::STRING,
                        operator,
                        ObjectType::STRING,
                    ),
                ),
            },
            _ => {
                let left_type = left.object_type();
                let right_type = right.object_type();
                if left_type != right_type {
                    new_error(infix_message("type mismatch: ", left_type, operator, right_type))
                } else {
                    new_error(
                        infix_message("unknown operator: ", left_type, operator, right_type),
                    )
                }
            },
        },
    }
}

/// Applies an infix operator to two integers.
pub fn eval_integer_infix_expression(operator: &Token, left: i64, right: i64) -> (value: Object)
    ensures
        value@ == integer_infix_value(operator@, left, right),
{
    match operator {
        Token::PLUS => Object::Integer(Integer { value: left.wrapping_add(right) }),
        Token::MINUS => Object::Integer(Integer { value: left.wrapping_sub(right) }),
        Token::ASTERISK => Object::Integer(Integer { value: left.wrapping_mul(right) }),
        Token::SLASH => match left.checked_div(right) {
            Some(quotient) => Object::Integer(Integer { value: quotient }),
            None => if right == 0 {
                new_error(String::from_str("division by zero"))
            } else {
                Object::Integer(Integer { value: left })
            },
        },
        Token::LT => Object::Boolean(Boolean { value: left < right }),
        Token::GT => Object::Boolean(Boolean { value: left > right }),
        Token::EQ => Object::Boolean(Boolean { value: left == right }),
        Token::NOT_EQ => Object::Boolean(Boolean { value: left != right }),
        _ => new_error(
            infix_message(
                "unknown operator: ",
                ObjectType::INTEGER,
                operator,
                ObjectType::INTEGER,
            ),
        ),
    }
}

/// Evaluates a conditional: the block that its condition selects, or null
/// where the condition fails and there is no second block.
pub fn eval_if_expression(ie: &IfExpression, env: &mut Environment, scope: usize, depth: usize) -> (value:
    Object)
    ensures
        value@ == value_of_expression(ie@, old(env)@, scope as nat, depth as nat).value,
        final(env)@ == value_of_expression(ie@, old(env)@, scope as nat, depth as nat).env,
    decreases depth, 1nat, ie, 0nat,
{
    proof {
        lemma_value_of_expression(ie@, env@, scope as nat, depth as nat);
    }
    let condition = eval_expression(&ie.condition, env, scope, depth);
    if condition.is_error() {
        return condition;
    }
    if is_truthy(&condition) {
        eval_statement(&ie.consequence, env, scope, depth)
    } else {
        match &ie.alternative {
            Some(alternative) => eval_statement(alternative, env, scope, depth),
            None => Object::Null(Null),
        }
    }
}

/// Whether a value counts as true.
pub fn is_truthy(obj: &Object) -> (truthy: bool)
    ensures
        truthy == obj@.is_truthy(),
{
    match obj {
        Object::Null(_) => false,
        Object::Boolean(Boolean { value }) => *value,
        _ => true,
    }
}

/// Evaluates the expressions from left to right. The first error among
/// their values ends the evaluation and is handed out alone.
pub fn eval_expressions(
    exps: &Vec<Box<ExpressionType>>,
    env: &mut Environment,
    scope: usize,
    depth: usize,
) -> (result: Result<Vec<Object>, Object>)
    ensures
        ({
            let list = values_of_expressions(
                expressions_view(exps@),
                0,
                Seq::empty(),
                old(env)@,
                scope as nat,
                depth as nat,
            );
            &&& final(env)@ == list.env
            &&& match result {
                Ok(values) => list.failure is None && objects_view(values@) == list.values,
                Err(error) => list.failure == Some(error@),
            }
        }),
    decreases depth, 1nat, exps, 0nat,
{
    let ghost views = expressions_view(exps@);
    let ghost start = env@;
    let mut result: Vec<Object> = Vec::new();
    assert(objects_view(result@) =~= Seq::<ObjectView>::empty());
    let mut i: usize = 0;
    while i < exps.len()
        invariant
            i <= exps.len(),
            views == expressions_view(exps@),
            start == old(env)@,
            values_of_expressions(
                views,
                i as nat,
                objects_view(result@),
                env@,
                scope as nat,
                depth as nat,
            ) == values_of_expressions(views, 0, Seq::empty(), start, scope as nat, depth as nat),
        decreases exps.len() - i,
    {
        proof {
            lemma_values_of_expressions(
                views,
                i as nat,
                objects_view(result@),
                env@,
                scope as nat,
                depth as nat,
            );
        }
        let evaluated = eval_expression(&exps[i], env, scope, depth);
        if evaluated.is_error() {
            return Err(evaluated);
        }
        let ghost before = objects_view(result@);
        let ghost item = evaluated@;
        result.push(evaluated);
        assert(objects_view(result@) =~= before.push(item));
        i = i + 1;
    }
    proof {
        lemma_values_of_expressions(
            views,
            i as nat,
            objects_view(result@),
            env@,
            scope as nat,
            depth as nat,
        );
    }
    Ok(result)
}

/// Calls `func_obj` with `args`.
pub fn apply_function(func_obj: Object, args: Vec<Object>, env: &mut Environment, depth: usize) -> (value:
    Object)
    ensures
        value@ == value_of_call(func_obj@, objects_view(args@), old(env)@, depth as nat).value,
        final(env)@ == value_of_call(
            func_obj@,
            objects_view(args@),
            old(env)@,
            depth as nat,
        ).env,
    decreases depth, 0nat, func_obj, 0nat,
{
    proof {
        lemma_value_of_call(func_obj@, objects_view(args@), env@, depth as nat);
    }
    match func_obj {
        Object::Function(function) => {
            if depth == 0 {
                return new_error(String::from_str("call depth exceeded"));
            }
            match extend_function_env(&function, args, env) {
                Err(error) => error,
                Ok(frame) => {
                    let evaluated = eval_statement(&function.body, env, frame, depth - 1);
                    unwrap_return_value(evaluated)
                },
            }
        },
        other => {
            let mut message = String::from_str("not a function: ");
            let name = other.object_type().to_string();
            message.append(name.as_str());
            new_error(message)
        },
    }
}

/// Makes the scope for a call of `func_obj`: a new scope inside the one
/// that the function captured, with each parameter bound to its argument.
/// Fails, and leaves the store as it is, where the number of arguments is
/// not that of the parameters.
pub fn extend_function_env(func_obj: &Function, args: Vec<Object>, env: &mut Environment) -> (result:
    Result<usize, Object>)
    ensures
        match result {
            Ok(frame) => {
                &&& func_obj.parameters@.len() == args@.len()
                &&& frame == old(env)@.len()
                &&& final(env)@ == bind_parameters(
                    expressions_view(func_obj.parameters@),
                    objects_view(args@),
                    0,
                    enclose(old(env)@, func_obj.env as nat),
                    frame as nat,
                )
            },
            Err(error) => {
                &&& func_obj.parameters@.len() != args@.len()
                &&& final(env)@ == old(env)@
                &&& error@ == ObjectView::Error(
                    wrong_number_of_arguments(args@.len(), func_obj.parameters@.len()),
                )
            },
        },
{
    if func_obj.parameters.len() != args.len() {
        let mut message = String::from_str("wrong number of arguments. got=");
        let got = usize_to_string(args.len());
        message.append(got.as_str());
        message.append(", want=");
        let want = usize_to_string(func_obj.parameters.len());
        message.append(want.as_str());
        return Err(new_error(message));
    }
    let frame = env.new_enclosed_environment(func_obj.env);
    let ghost parameters = expressions_view(func_obj.parameters@);
    let ghost arguments = objects_view(args@);
    let ghost start = env@;
    let mut i: usize = 0;
    while i < func_obj.parameters.len()
        invariant
            i <= func_obj.parameters.len(),
            func_obj.parameters@.len() == args@.len(),
            parameters == expressions_view(func_obj.parameters@),
            arguments == objects_view(args@),
            bind_parameters(parameters, arguments, i as nat, env@, frame as nat)
                == bind_parameters(parameters, arguments, 0, start, frame as nat),
        decreases func_obj.parameters.len() - i,
    {
        let name = func_obj.parameters[i].string();
        env.init(frame, name, args[i].clone());
        i = i + 1;
    }
    Ok(frame)
}

/// The value without the wrapping of a return, if it has one.
pub fn unwrap_return_value(obj: Object) -> (value: Object)
    ensures
        value@ == obj@.unwrapped(),
{
    match obj {
        Object::Return(ReturnValue { value }) => *value,
        other => other,
    }
}

} // verus!
