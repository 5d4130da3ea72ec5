//! MiniC: the type checker and the three-address-code generator of a small
//! C-like language, with their contracts.

pub mod text;
pub mod ir;
pub mod semantic;
pub mod codegen;
pub mod parser;
