use vstd::prelude::*;
use crate::ast::atom::{Atom, Float};
use crate::ast::expression::Expression;
use crate::ast::model::{SpecAtom, SpecExpression, exprs_view, lemma_exprs_view, copy_float};
use crate::package::lib::{Library, result_view};
use crate::text::{text_eq, join_text};

verus! {

broadcast use vstd::string::group_string_axioms;

/// The `math` library: `abs` of a double.
#[derive(Debug)]
pub struct Math;

/// What `math.<name>` gives on `args`.
pub open spec fn math_call(name: Seq<char>, args: Seq<SpecExpression>) -> Result<SpecExpression, Seq<char>> {
    if name == "abs"@ {
        match if args.len() > 0 { Some(args[0]) } else { None } {
            Some(SpecExpression::Atom(SpecAtom::Double(v))) => Ok(SpecExpression::Atom(SpecAtom::Double(Float::Abs(Box::new(v))))),
            _ => Err("Invalid argument for math.abs"@),
        }
    } else {
        Err("Function "@ + name + " not found in math library"@)
    }
}

impl Library for Math {
    open spec fn spec_call_method(&self, name: Seq<char>, args: Seq<SpecExpression>) -> Result<SpecExpression, Seq<char>> {
        math_call(name, args)
    }

    fn call_method(&self, func_name: &str, args: Vec<Expression>) -> (r: Result<Expression, String>) {
        proof { lemma_exprs_view(args@); }
        if text_eq(func_name, "abs") {
            if args.len() > 0 {
                if let Expression::Atom(Atom::Double(value)) = &args[0] {
                    return Ok(Expression::Atom(Atom::Double(Float::Abs(Box::new(copy_float(value))))));
                }
            }
            Err("Invalid argument for math.abs".to_string())
        } else {
            let m = join_text("Function ", func_name);
            Err(join_text(m.as_str(), " not found in math library"))
        }
    }
}

} // verus!
