//! Front end of a small interpreter for a minimal C-like scripting language:
//! a character-stream lexer and an operator-precedence (Pratt) expression
//! parser that turn source text into an abstract syntax tree.

pub mod ast;
pub mod lexer;
pub mod parser;
pub mod token;
