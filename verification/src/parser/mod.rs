pub mod ast;
pub mod grammar;
pub mod lexer;
pub mod names;

pub use grammar::{ParseError, Parser};
