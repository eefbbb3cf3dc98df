//! Front end of an interpreter for a small C-like scripting language:
//! a lexer that turns source text into tokens and a recursive-descent
//! parser that turns tokens into a syntax tree, both specified against
//! mathematical models of their input.

pub mod token;
pub mod lexer;
pub mod ast;
pub mod parser;
