//! The earlier tree-walking front end for the same language: an eager
//! scanner that produces a token list, the expression tree, a recursive
//! descent parser scaffold, and the diagnostic formatting both share.

pub mod token;
pub mod expr;
pub mod scanner;
pub mod parser;
pub mod report;
