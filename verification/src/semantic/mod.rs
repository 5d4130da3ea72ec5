//! Semantic analysis: the type checker and its environments.

pub mod env;
pub mod properties;
pub mod type_checker;
