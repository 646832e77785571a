use vstd::prelude::*;
use crate::ast::expression::Expression;
use crate::ast::stmt::Statement;

verus! {

#[derive(Debug, PartialEq)]
pub struct Block {
    pub statements: Vec<Statement>,
    pub return_expr: Expression,
}

} // verus!
