//! Lexical rules of MiniC.

pub mod identifiers;
