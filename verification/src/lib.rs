//! Front end of a small scripting language: a lexer from source bytes to
//! tokens and a statement parser from tokens to a syntax tree with a list of
//! diagnostics.

pub mod ast;
pub mod lexer;
pub mod parser;
pub mod text;
pub mod token;
