//! Code generation.

pub mod properties;
pub mod tac_code_gen;
pub mod freshness;
pub mod semantics;
