use vstd::prelude::*;
use crate::ast::expression::Expression;
use crate::ast::model::{SpecExpression, exprs_view};

verus! {

/// A result of evaluation, with the value by its view and the error by its
/// characters.
pub open spec fn result_view(r: Result<Expression, String>) -> Result<SpecExpression, Seq<char>> {
    match r {
        Ok(e) => Ok(e@),
        Err(m) => Err(m@),
    }
}

/// A library whose methods scripts call by name.
pub trait Library {
    /// What the method `name` gives on `args`.
    spec fn spec_call_method(&self, name: Seq<char>, args: Seq<SpecExpression>) -> Result<SpecExpression, Seq<char>>;

    fn call_method(&self, name: &str, args: Vec<Expression>) -> (r: Result<Expression, String>)
        ensures
            result_view(r) == self.spec_call_method(name@, exprs_view(args@)),
    ;
}

} // verus!
