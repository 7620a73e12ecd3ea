//! The tokens of the command language.
pub mod arg;
pub mod command;
pub mod datatype;
pub mod symbol;
pub mod token;
