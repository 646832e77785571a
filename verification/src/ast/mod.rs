//! The abstract syntax of the scripting language.
pub mod binaryop;
pub mod atom;
pub mod expression;
pub mod function;
pub mod parameter;
pub mod block;
pub mod stmt;
pub mod model;
