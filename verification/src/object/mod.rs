//! Runtime values: what evaluation yields, the type tag of each value, and
//! the text that each is shown as.

pub mod environment;

use crate::ast::expression::node::join_strings;
use crate::ast::expression::{clone_expressions, ExpressionType};
use crate::ast::statement::StatementType;
use crate::ast::{
    expression_view, expressions_view, joined_text, statement_text, statement_view,
    ExpressionView, StatementView, TNode,
};
use crate::decimal::{decimal_text, i64_to_string};
use vstd::prelude::*;

verus! {

/// The tag of a value, by which messages name its type.
#[derive(Debug, Clone, Copy, PartialEq, Eq, Structural)]
pub enum ObjectType {
    INTEGER,
    BOOLEAN,
    STRING,
    NULL,
    FUNCTION,
    ERROR,
    RETURN,
}

impl ObjectType {
    /// The name of the type in messages.
    pub open spec fn name(self) -> Seq<char> {
        match self {
            ObjectType::INTEGER => "INTEGER"@,
            ObjectType::BOOLEAN => "BOOLEAN"@,
            ObjectType::STRING => "STRING"@,
            ObjectType::NULL => "NULL"@,
            ObjectType::FUNCTION => "FUNCTION"@,
            ObjectType::ERROR => "ERROR"@,
            ObjectType::RETURN => "RETURN"@,
        }
    }

    /// The name of the type in messages.
    pub fn to_string(&self) -> (s: String)
        ensures
            s@ == self.name(),
    {
        match self {
            ObjectType::INTEGER => String::from_str("INTEGER"),
            ObjectType::BOOLEAN => String::from_str("BOOLEAN"),
            ObjectType::STRING => String::from_str("STRING"),
            ObjectType::NULL => String::from_str("NULL"),
            ObjectType::FUNCTION => String::from_str("FUNCTION"),
            ObjectType::ERROR => String::from_str("ERROR"),
            ObjectType::RETURN => String::from_str("RETURN"),
        }
    }
}

#[derive(Debug, PartialEq, Clone)]
pub struct Integer {
    pub value: i64,
}

#[derive(Debug, PartialEq, Clone)]
pub struct Boolean {
    pub value: bool,
}

#[derive(Debug, PartialEq, Clone)]
pub struct StringValue {
    pub value: String,
}

#[derive(Debug, PartialEq, Clone)]
pub struct Null;

/// A value on its way out of the function that returned it.
#[derive(Debug, PartialEq, Clone)]
pub struct ReturnValue {
    pub value: Box<Object>,
}

#[derive(Debug, PartialEq, Clone)]
pub struct Error {
    pub message: String,
}

/// A function with the scope that it captured. That scope is the
/// function's own: no other function has it, so it tells one function from
/// another.
#[derive(Debug, PartialEq, Clone)]
pub struct Function {
    pub parameters: Vec<Box<ExpressionType>>,
    pub body: Box<StatementType>,
    pub env: usize,
}

#[derive(Debug, PartialEq)]
pub enum Object {
    Integer(Integer),
    Boolean(Boolean),
    String(StringValue),
    Null(Null),
    Return(ReturnValue),
    Function(Function),
    Error(Error),
}

/// What a value is.
pub enum ObjectView {
    Integer(i64),
    Boolean(bool),
    String(Seq<char>),
    Null,
    Return(Box<ObjectView>),
    Function { parameters: Seq<ExpressionView>, body: StatementView, env: nat },
    Error(Seq<char>),
}

/// What a value is.
pub open spec fn object_view(o: Object) -> ObjectView
    decreases o,
{
    match o {
        Object::Integer(i) => ObjectView::Integer(i.value),
        Object::Boolean(b) => ObjectView::Boolean(b.value),
        Object::String(s) => ObjectView::String(s.value@),
        Object::Null(_) => ObjectView::Null,
        Object::Return(r) => ObjectView::Return(Box::new(object_view(*r.value))),
        Object::Function(f) => ObjectView::Function {
            parameters: expressions_view(f.parameters@),
            body: statement_view(*f.body),
            env: f.env as nat,
        },
        Object::Error(e) => ObjectView::Error(e.message@),
    }
}

impl View for Object {
    type V = ObjectView;

    open spec fn view(&self) -> ObjectView {
        object_view(*self)
    }
}

impl ObjectView {
    /// The type tag of the value.
    pub open spec fn object_type(self) -> ObjectType {
        match self {
            ObjectView::Integer(_) => ObjectType::INTEGER,
            ObjectView::Boolean(_) => ObjectType::BOOLEAN,
            ObjectView::String(_) => ObjectType::STRING,
            ObjectView::Null => ObjectType::NULL,
            ObjectView::Return(_) => ObjectType::RETURN,
            ObjectView::Function { .. } => ObjectType::FUNCTION,
            ObjectView::Error(_) => ObjectType::ERROR,
        }
    }

    /// The text that the value is shown as. A returned value is shown as
    /// the value itself.
    pub open spec fn inspect(self) -> Seq<char>
        decreases self,
    {
        match self {
            ObjectView::Integer(i) => decimal_text(i as int),
            ObjectView::Boolean(b) => if b {
                "true"@
            } else {
                "false"@
            },
            ObjectView::String(s) => s,
            ObjectView::Null => "null"@,
            ObjectView::Return(inner) => inner.inspect(),
            ObjectView::Function { parameters, body, .. } => "fn"@ + "("@ + joined_text(
                parameters,
                parameters.len(),
                ", "@,
            ) + ") {\n"@ + statement_text(body) + "\n}"@,
            ObjectView::Error(message) => "ERROR: "@ + message,
        }
    }

    /// Whether the value counts as true: every value but null and `false`
    /// does.
    pub open spec fn is_truthy(self) -> bool {
        match self {
            ObjectView::Null => false,
            ObjectView::Boolean(b) => b,
            _ => true,
        }
    }

    /// Whether two values are equal: integers, booleans and strings that
    /// hold the same, null and null, and a function and itself.
    pub open spec fn equals(self, other: ObjectView) -> bool
        decreases self,
    {
        match (self, other) {
            (ObjectView::Integer(a), ObjectView::Integer(b)) => a == b,
            (ObjectView::Boolean(a), ObjectView::Boolean(b)) => a == b,
            (ObjectView::String(a), ObjectView::String(b)) => a == b,
            (ObjectView::Null, ObjectView::Null) => true,
            (ObjectView::Return(a), ObjectView::Return(b)) => a.equals(*b),
            (ObjectView::Function { env: a, .. }, ObjectView::Function { env: b, .. }) => a == b,
            (ObjectView::Error(a), ObjectView::Error(b)) => a == b,
            _ => false,
        }
    }

    /// The value without the wrapping of a return, if it has one.
    pub open spec fn unwrapped(self) -> ObjectView {
        match self {
            ObjectView::Return(inner) => *inner,
            _ => self,
        }
    }
}

impl Clone for Object {
    fn clone(&self) -> (copy: Self)
        ensures
            copy@ == self@,
        decreases self,
    {
        match self {
            Object::Integer(i) => Object::Integer(Integer { value: i.value }),
            Object::Boolean(b) => Object::Boolean(Boolean { value: b.value }),
            Object::String(s) => Object::String(StringValue { value: s.value.clone() }),
            Object::Null(_) => Object::Null(Null),
            Object::Return(r) => {
                let inner: &Object = &r.value;
                Object::Return(ReturnValue { value: Box::new(inner.clone()) })
            },
            Object::Function(f) => {
                let body: &StatementType = &f.body;
                let copy = Object::Function(
                    Function {
                        parameters: clone_expressions(&f.parameters),
                        body: Box::new(body.clone()),
                        env: f.env,
                    },
                );
                assert(copy@->Function_parameters =~= self@->Function_parameters);
                copy
            },
            Object::Error(e) => Object::Error(Error { message: e.message.clone() }),
        }
    }
}

impl Function {
    /// The text that the function is shown as: its parameters, and its
    /// body between braces on lines of their own.
    pub fn inspect(&self) -> (s: String)
        ensures
            s@ == object_view(Object::Function(*self)).inspect(),
    {
        let mut out = String::from_str("fn");
        out.append("(");
        let parameters = join_strings(&self.parameters, ", ");
        out.append(parameters.as_str());
        out.append(") {\n");
        let body = self.body.string();
        out.append(body.as_str());
        out.append("\n}");
        out
    }
}

impl Object {
    /// The text that the value is shown as.
    pub fn inspect(&self) -> (s: String)
        ensures
            s@ == self@.inspect(),
        decreases self,
    {
        match self {
            Object::Integer(i) => i64_to_string(i.value),
            Object::Boolean(b) => if b.value {
                String::from_str("true")
            } else {
                String::from_str("false")
            },
            Object::String(s) => s.value.clone(),
            Object::Null(_) => String::from_str("null"),
            Object::Return(r) => r.value.inspect(),
            Object::Function(f) => f.inspect(),
            Object::Error(e) => {
                let mut out = String::from_str("ERROR: ");
                out.append(e.message.as_str());
                out
            },
        }
    }

    /// The type tag of the value.
    pub fn object_type(&self) -> (t: ObjectType)
        ensures
            t == self@.object_type(),
    {
        match self {
            Object::Integer(_) => ObjectType::INTEGER,
            Object::Boolean(_) => ObjectType::BOOLEAN,
            Object::String(_) => ObjectType::STRING,
            Object::Null(_) => ObjectType::NULL,
            Object::Return(_) => ObjectType::RETURN,
            Object::Function(_) => ObjectType::FUNCTION,
            Object::Error(_) => ObjectType::ERROR,
        }
    }

    /// Whether the two values are equal.
    pub fn equals(&self, other: &Object) -> (same: bool)
        ensures
            same == self@.equals(other@),
        decreases self,
    {
        match (self, other) {
            (Object::Integer(a), Object::Integer(b)) => a.value == b.value,
            (Object::Boolean(a), Object::Boolean(b)) => a.value == b.value,
            (Object::String(a), Object::String(b)) => a.value == b.value,
            (Object::Null(_), Object::Null(_)) => true,
            (Object::Return(a), Object::Return(b)) => a.value.equals(&b.value),
            (Object::Function(a), Object::Function(b)) => a.env == b.env,
            (Object::Error(a), Object::Error(b)) => a.message == b.message,
            _ => false,
        }
    }

    /// Whether this is an integer.
    pub fn is_integer(&self) -> (b: bool)
        ensures
            b == (self is Integer),
    {
        match self {
            Object::Integer(_) => true,
            _ => false,
        }
    }

    /// The integer that this is, if it is one.
    pub fn as_integer(&self) -> (r: Option<&Integer>)
        ensures
            self is Integer ==> r == Some(&self->Integer_0),
            !(self is Integer) ==> r is None,
    {
        match self {
            Object::Integer(inner) => Some(inner),
            _ => None,
        }
    }

    /// The integer that this is, or else this itself again.
    pub fn into_integer(self) -> (r: Result<Integer, Self>)
        ensures
            self is Integer ==> r == Ok::<Integer, Self>(self->Integer_0),
            !(self is Integer) ==> r == Err::<Integer, Self>(self),
    {
        match self {
            Object::Integer(inner) => Ok(inner),
            other => Err(other),
        }
    }

    /// Whether this is a boolean.
    pub fn is_boolean(&self) -> (b: bool)
        ensures
            b == (self is Boolean),
    {
        match self {
            Object::Boolean(_) => true,
            _ => false,
        }
    }

    /// The boolean that this is, if it is one.
    pub fn as_boolean(&self) -> (r: Option<&Boolean>)
        ensures
            self is Boolean ==> r == Some(&self->Boolean_0),
            !(self is Boolean) ==> r is None,
    {
        match self {
            Object::Boolean(inner) => Some(inner),
            _ => None,
        }
    }

    /// The boolean that this is, or else this itself again.
    pub fn into_boolean(self) -> (r: Result<Boolean, Self>)
        ensures
            self is Boolean ==> r == Ok::<Boolean, Self>(self->Boolean_0),
            !(self is Boolean) ==> r == Err::<Boolean, Self>(self),
    {
        match self {
            Object::Boolean(inner) => Ok(inner),
            other => Err(other),
        }
    }

    /// Whether this is a string.
    pub fn is_string(&self) -> (b: bool)
        ensures
            b == (self is String),
    {
        match self {
            Object::String(_) => true,
            _ => false,
        }
    }

    /// The string value that this is, if it is one.
    pub fn as_string(&self) -> (r: Option<&StringValue>)
        ensures
            self is String ==> r == Some(&self->String_0),
            !(self is String) ==> r is None,
    {
        match self {
            Object::String(inner) => Some(inner),
            _ => None,
        }
    }

    /// The string value that this is, or else this itself again.
    pub fn into_string(self) -> (r: Result<StringValue, Self>)
        ensures
            self is String ==> r == Ok::<StringValue, Self>(self->String_0),
            !(self is String) ==> r == Err::<StringValue, Self>(self),
    {
        match self {
            Object::String(inner) => Ok(inner),
            other => Err(other),
        }
    }

    /// Whether this is a null.
    pub fn is_null(&self) -> (b: bool)
        ensures
            b == (self is Null),
    {
        match self {
            Object::Null(_) => true,
            _ => false,
        }
    }

    /// The null that this is, if it is one.
    pub fn as_null(&self) -> (r: Option<&Null>)
        ensures
            self is Null ==> r == Some(&self->Null_0),
            !(self is Null) ==> r is None,
    {
        match self {
            Object::Null(inner) => Some(inner),
            _ => None,
        }
    }

    /// The null that this is, or else this itself again.
    pub fn into_null(self) -> (r: Result<Null, Self>)
        ensures
            self is Null ==> r == Ok::<Null, Self>(self->Null_0),
            !(self is Null) ==> r == Err::<Null, Self>(self),
    {
        match self {
            Object::Null(inner) => Ok(inner),
            other => Err(other),
        }
    }

    /// Whether this is a return.
    pub fn is_return(&self) -> (b: bool)
        ensures
            b == (self is Return),
    {
        match self {
            Object::Return(_) => true,
            _ => false,
        }
    }

    /// The return value that this is, if it is one.
    pub fn as_return(&self) -> (r: Option<&ReturnValue>)
        ensures
            self is Return ==> r == Some(&self->Return_0),
            !(self is Return) ==> r is None,
    {
        match self {
            Object::Return(inner) => Some(inner),
            _ => None,
        }
    }

    /// The return value that this is, or else this itself again.
    pub fn into_return(self) -> (r: Result<ReturnValue, Self>)
        ensures
            self is Return ==> r == Ok::<ReturnValue, Self>(self->Return_0),
            !(self is Return) ==> r == Err::<ReturnValue, Self>(self),
    {
        match self {
            Object::Return(inner) => Ok(inner),
            other => Err(other),
        }
    }

    /// Whether this is a function.
    pub fn is_function(&self) -> (b: bool)
        ensures
            b == (self is Function),
    {
        match self {
            Object::Function(_) => true,
            _ => false,
        }
    }

    /// The function that this is, if it is one.
    pub fn as_function(&self) -> (r: Option<&Function>)
        ensures
            self is Function ==> r == Some(&self->Function_0),
            !(self is Function) ==> r is None,
    {
        match self {
            Object::Function(inner) => Some(inner),
            _ => None,
        }
    }

    /// The function that this is, or else this itself again.
    pub fn into_function(self) -> (r: Result<Function, Self>)
        ensures
            self is Function ==> r == Ok::<Function, Self>(self->Function_0),
            !(self is Function) ==> r == Err::<Function, Self>(self),
    {
        match self {
            Object::Function(inner) => Ok(inner),
            other => Err(other),
        }
    }

    /// Whether this is an error.
    pub fn is_error(&self) -> (b: bool)
        ensures
            b == (self is Error),
    {
        match self {
            Object::Error(_) => true,
            _ => false,
        }
    }

    /// The error that this is, if it is one.
    pub fn as_error(&self) -> (r: Option<&Error>)
        ensures
            self is Error ==> r == Some(&self->Error_0),
            !(self is Error) ==> r is None,
    {
        match self {
            Object::Error(inner) => Some(inner),
            _ => None,
        }
    }

    /// The error that this is, or else this itself again.
    pub fn into_error(self) -> (r: Result<Error, Self>)
        ensures
            self is Error ==> r == Ok::<Error, Self>(self->Error_0),
            !(self is Error) ==> r == Err::<Error, Self>(self),
    {
        match self {
            Object::Error(inner) => Ok(inner),
            other => Err(other),
        }
    }
}

/// Every value has exactly one of the seven type tags, and the tag tells
/// which kind of value it is.
pub proof fn lemma_object_type_classifies(o: ObjectView)
    ensures
        o.object_type() == ObjectType::INTEGER <==> o is Integer,
        o.object_type() == ObjectType::BOOLEAN <==> o is Boolean,
        o.object_type() == ObjectType::STRING <==> o is String,
        o.object_type() == ObjectType::NULL <==> o is Null,
        o.object_type() == ObjectType::RETURN <==> o is Return,
        o.object_type() == ObjectType::FUNCTION <==> o is Function,
        o.object_type() == ObjectType::ERROR <==> o is Error,
{
}

} // verus!
