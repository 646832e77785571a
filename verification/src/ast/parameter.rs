use vstd::prelude::*;
use crate::ast::expression::Expression;

verus! {

#[derive(Debug, PartialEq)]
pub struct Parameter {
    pub name: String,
    pub default_value: Option<Expression>,
}

} // verus!
