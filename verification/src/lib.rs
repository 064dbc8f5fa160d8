//! Front end of a small Lox interpreter: scanning, parsing, error reporting
//! and variable scopes, each with its contract.

pub mod ast;
pub mod environment;
pub mod error;
pub mod expr;
pub mod interpreter;
pub mod lexer;
pub mod lox;
pub mod number;
pub mod parser;
pub mod text;
pub mod utils;
