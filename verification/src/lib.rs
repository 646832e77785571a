//! A small scripting language: a parser for its surface syntax, an evaluator
//! with variable scopes and libraries, and the engine that runs programs;
//! beside it, a token-level calculator and a variant of the language with
//! built-in libraries (`genv`).
pub mod text;
pub mod arith;
pub mod names;
pub mod genv;
pub mod ast;
pub mod parser;
pub mod package;
pub mod context;
pub mod types;
pub mod object;
pub mod engine;
pub mod api;
