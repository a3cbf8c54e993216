//! Core of a small expression language: its token model, the operator
//! table, a precedence-climbing expression parser and the stack machine's
//! value and frame bookkeeping.

pub mod operators;
pub mod token;
pub mod ast;
pub mod chunk;
pub mod number;
pub mod parser;
pub mod value;
pub mod vm;
