//! A small lexer for LeafLang source: the lexer turns
//! character input into tokens, modules written in Rust are tokenized for
//! their function definitions and calls, and the parser turns tokens back
//! into Rust source text.
pub mod lexer;
pub mod literal;
pub mod parser;
pub mod text;
pub mod tokens;
