//! The expression tree of the tree-walking front end.
//!
//! A number literal keeps its source text: parsing it to an IEEE 754
//! double is the host's work, and this stage of the system only ever
//! prints the tree.

use vstd::prelude::*;
use crate::tree::token::Token;

verus! {

/// An expression.
#[derive(Debug)]
pub enum Expr {
    Binary(Binary),
    Grouping(Box<Expr>),
    Literal(Literal),
    Unary(Unary),
}

/// A binary application.
#[derive(Debug)]
pub struct Binary {
    pub left: Box<Expr>,
    pub right: Box<Expr>,
    pub operator: Token,
}

/// A literal value; numbers and strings keep their source text.
#[derive(Debug, Clone)]
pub enum Literal {
    Nil,
    Number(Vec<char>),
    Bool(bool),
    Str(Vec<char>),
}

/// A unary application.
#[derive(Debug)]
pub struct Unary {
    pub operator: Token,
    pub right: Box<Expr>,
}

} // verus!
