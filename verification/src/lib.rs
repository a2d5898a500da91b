//! A two-pass Intel 8080 / Z80-compatible assembler for the Vector-06c.

pub mod text;
pub mod diagnostics;
pub mod expr;
pub mod symbols;
pub mod lexer;
pub mod instructions;
pub mod encoding;
pub mod parser;
pub mod preprocessor;
pub mod assembler;
pub mod output;
