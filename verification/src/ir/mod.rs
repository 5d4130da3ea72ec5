//! Intermediate representations: the abstract syntax tree and three-address code.

pub mod ast;
pub mod tac;
