use vstd::prelude::*;
use crate::ast::binaryop::BinaryOperation;

verus! {

/// A double-precision value, kept as the computation that produces it: a
/// literal by its IEEE-754 bit pattern, or an operation on such values. The
/// language never branches on a double's value, so the computation is
/// carried out only when the value is read out.
#[derive(Debug, PartialEq)]
pub enum Float {
    /// The double whose IEEE-754 bits these are.
    Bits(u64),
    /// `+`, `-`, `*` or `/` on two doubles.
    Arith(BinaryOperation, Box<Float>, Box<Float>),
    /// The absolute value of a double.
    Abs(Box<Float>),
    /// The double nearest to an integer.
    FromInt(i64),
}

/// The smallest pieces of an expression.
#[derive(Debug, PartialEq)]
pub enum Atom {
    String(String),
    Variable(String),
    Boolean(bool),
    Integer(i64),
    Double(Float),
}

} // verus!
