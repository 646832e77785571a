//! The calculator: a lexer, a parser of assignments and binary operations
//! over `i32`, an evaluator, and a machine that runs a script through all
//! three.
pub mod lexer;
pub mod paser;
pub mod engine;
pub mod vm;
pub mod printing;
