use vstd::prelude::*;
use crate::ast::expression::Expression;
use crate::ast::function::Function;

verus! {

#[derive(Debug, PartialEq)]
pub enum Statement {
    VariableDeclaration(String, Expression),
    Assignment(String, Expression),
    TupleAssignment(Vec<String>, Expression),
    FunctionDefinition(Function),
    FunctionCall(String, Vec<Expression>),
}

} // verus!
