//! The command language of the interactive front ends: tokens, lexer,
//! statements and parser.
pub mod cmd_error;
pub mod lexer;
pub mod parser;
pub mod statement;
pub mod token;
