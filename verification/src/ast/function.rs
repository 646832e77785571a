use vstd::prelude::*;
use crate::ast::block::Block;
use crate::ast::parameter::Parameter;

verus! {

#[derive(Debug, PartialEq)]
pub struct Function {
    pub name: String,
    pub parameters: Vec<Parameter>,
    pub body: Block,
}

} // verus!
