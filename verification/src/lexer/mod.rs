pub mod lexer;
pub mod modules;
