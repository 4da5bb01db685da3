pub mod ast;
pub mod chars;
pub mod evaluator;
pub mod lexer;
pub mod object;
pub mod operators;
pub mod parser;
pub mod reparse;
pub mod token;
