//! A tree-walking interpreter for the Lox language: scanner, parser and
//! evaluator, with their behaviour stated as contracts.

pub mod error;
pub mod object;
pub mod token;
pub mod scanner;
pub mod expr;
pub mod stmt;
pub mod grammar;
pub mod parser;
pub mod enviorment;
pub mod machine;
pub mod interpreter;
pub mod trace;
