//! Evaluation: what expressions, function calls and programs mean
//! (`semantics`), and the evaluator that computes it.
pub mod semantics;
pub mod expression;
pub mod function;
pub mod runast;
pub mod budget;
pub mod laws;
