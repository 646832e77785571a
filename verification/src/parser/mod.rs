//! The surface syntax of the language: its grammar (`grammar`), the numbers
//! that the grammar reads (`number`), and the parser (`parser`).
pub mod grammar;
pub mod number;
pub mod parser;
pub mod method_call;
