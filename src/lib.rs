//! Front end of a small scripting language: a scanner that turns source text
//! into tokens, and a recursive-descent parser that builds expression trees
//! from them.

pub mod text;
pub mod token;
pub mod lexer;
pub mod parser;
pub mod laws;
