//! A small dynamically typed expression language: a lexer, a Pratt parser
//! that builds a syntax tree, and a tree-walking evaluator with lexically
//! scoped environments and first-class functions.
//!
//! Every function comes with a contract over a mathematical model of the
//! data it works on: source text is a sequence of characters, a token is its
//! kind with its payload, a syntax tree is a tree of such tokens, and an
//! environment is a store of scopes that map names to values.

pub mod ast;
pub mod decimal;
pub mod evaluator;
pub mod lexer;
pub mod object;
pub mod parser;
pub mod roundtrip;
pub mod token;
