//! Built-in libraries that scripts call by a dotted name.
use vstd::prelude::*;
use crate::ast::atom::Atom;
use crate::ast::expression::Expression;
use crate::ast::model::{SpecAtom, SpecExpression, exprs_view, lemma_exprs_view};
use crate::package::lib::result_view;
use crate::text::{text_eq, join_text};

verus! {

broadcast use vstd::string::group_string_axioms;

/// A library of functions that a script calls as `library.function(..)`.
pub trait BuiltinLibrary {
    /// What the call of `func_name` (the full dotted name) gives on the
    /// arguments as written; `None` where the library panics.
    spec fn spec_call(&self, func_name: Seq<char>, args: Seq<SpecExpression>) -> Option<Result<SpecExpression, Seq<char>>>;

    fn call(&self, func_name: &str, args: Vec<Expression>) -> (r: Result<Expression, String>)
        requires
            self.spec_call(func_name@, exprs_view(args@)) is Some,
        ensures
            self.spec_call(func_name@, exprs_view(args@)) == Some(result_view(r)),
    ;
}

/// The `math` library: `math.abs` of an integer.
#[derive(Debug, Clone, Copy)]
pub struct MathLibrary;

/// What `MathLibrary` gives for `name` on `args`: the absolute value of a
/// first argument that is an integer literal (`None` for `i64::MIN`, whose
/// absolute value overflows), else an error.
pub open spec fn math_builtin(name: Seq<char>, args: Seq<SpecExpression>) -> Option<Result<SpecExpression, Seq<char>>> {
    if name == "math.abs"@ {
        match if args.len() > 0 { Some(args[0]) } else { None } {
            Some(SpecExpression::Atom(SpecAtom::Integer(v))) => if v == i64::MIN {
                None
            } else {
                Some(Ok(SpecExpression::Atom(SpecAtom::Integer((if v < 0 { -v } else { v as int }) as i64))))
            },
            _ => Some(Err("Invalid argument for math.abs"@)),
        }
    } else {
        Some(Err("Function "@ + name + " not found in math library"@))
    }
}

impl BuiltinLibrary for MathLibrary {
    open spec fn spec_call(&self, func_name: Seq<char>, args: Seq<SpecExpression>) -> Option<Result<SpecExpression, Seq<char>>> {
        math_builtin(func_name, args)
    }

    fn call(&self, func_name: &str, args: Vec<Expression>) -> (r: Result<Expression, String>) {
        proof { lemma_exprs_view(args@); }
        if text_eq(func_name, "math.abs") {
            if args.len() > 0 {
                if let Expression::Atom(Atom::Integer(value)) = &args[0] {
                    let v = *value;
                    let a = if v < 0 { -v } else { v };
                    return Ok(Expression::Atom(Atom::Integer(a)));
                }
            }
            Err("Invalid argument for math.abs".to_string())
        } else {
            let m = join_text("Function ", func_name);
            Err(join_text(m.as_str(), " not found in math library"))
        }
    }
}

} // verus!
