use vstd::prelude::*;
use crate::ast::atom::Atom;
use crate::ast::binaryop::BinaryOperation;
use crate::ast::function::Function;

verus! {

#[derive(Debug, PartialEq)]
pub enum Expression {
    BinaryOperation(BinaryOperation, Box<Expression>, Box<Expression>),
    Atom(Atom),
    Function(Box<Function>),
    MethodCall(String, String, Vec<Expression>),
    FunctionCall(String, Vec<Expression>),
    Tuple(Vec<Expression>),
}

impl From<Function> for Expression {
    fn from(func: Function) -> Self {
        Expression::Function(Box::new(func))
    }
}

impl vstd::std_specs::convert::FromSpecImpl<Function> for Expression {
    open spec fn obeys_from_spec() -> bool {
        true
    }

    open spec fn from_spec(func: Function) -> Self {
        Expression::Function(Box::new(func))
    }
}

impl vstd::std_specs::convert::FromSpecImpl<Atom> for Expression {
    open spec fn obeys_from_spec() -> bool {
        true
    }

    open spec fn from_spec(atom: Atom) -> Self {
        Expression::Atom(atom)
    }
}

impl From<Atom> for Expression {
    fn from(atom: Atom) -> Self {
        Expression::Atom(atom)
    }
}

} // verus!
