//! Evaluating expressions in a scope.
use vstd::prelude::*;
use crate::ast::atom::{Atom, Float};
use crate::ast::binaryop::BinaryOperation;
use crate::ast::expression::Expression;
use crate::ast::model::{SpecExpression, exprs_view, lemma_exprs_view, lemma_exprs_concat, copy_atom, copy_exprs,
    copy_function, copy_string, copy_float};
use crate::arith::quotient_i64;
use crate::context::semantics::{Env, ev, ev_list, binop_value, terminates, evaluation};
use crate::context::function::call_in;
use crate::package::lib::{Library, result_view};
use crate::types::scope::Scope;
use crate::text::join_text;

verus! {

broadcast use vstd::string::group_string_axioms;

/// A list of values or an error, with the values by their views.
pub open spec fn list_view(r: Result<Vec<Expression>, String>) -> Result<Seq<SpecExpression>, Seq<char>> {
    match r {
        Ok(v) => Ok(exprs_view(v@)),
        Err(m) => Err(m@),
    }
}

/// An operator applied to two values.
fn binop_exec(op: BinaryOperation, lv: Expression, rv: Expression) -> (r: Result<Expression, String>)
    requires
        binop_value(op, lv@, rv@) is Some,
    ensures
        binop_value(op, lv@, rv@) == Some(result_view(r)),
{
    match (&lv, &rv) {
        (Expression::Atom(Atom::Integer(l)), Expression::Atom(Atom::Integer(r))) => {
            let (l, r) = (*l, *r);
            match op {
                BinaryOperation::Plus => Ok(Expression::Atom(Atom::Integer(l + r))),
                BinaryOperation::Minus => Ok(Expression::Atom(Atom::Integer(l - r))),
                BinaryOperation::Times => Ok(Expression::Atom(Atom::Integer(l * r))),
                BinaryOperation::Divide => {
                    if l == i64::MIN && r == -1 {
                        assert(crate::arith::trunc_div(l as int, r as int) == 9223372036854775808int);
                    }
                    Ok(Expression::Atom(Atom::Integer(quotient_i64(l, r))))
                },
                _ => Err("Unsupported binary operation".to_string()),
            }
        },
        (Expression::Atom(Atom::Double(l)), Expression::Atom(Atom::Double(r))) => {
            match op {
                BinaryOperation::Plus | BinaryOperation::Minus | BinaryOperation::Times | BinaryOperation::Divide =>
                    Ok(Expression::Atom(Atom::Double(Float::Arith(op, Box::new(copy_float(l)), Box::new(copy_float(r)))))),
                _ => Err("Unsupported binary operation".to_string()),
            }
        },
        _ => Err("Type error in binary operation".to_string()),
    }
}

/// Evaluates `e` within the budget `fuel`.
pub fn eval_in<L: Library>(e: &Expression, ctx: &mut Scope<L>, Ghost(fuel): Ghost<nat>) -> (r: Result<Expression, String>)
    requires
        ev(fuel, e@, old(ctx).env(), old(ctx).libs()) is Some,
    ensures
        ev(fuel, e@, old(ctx).env(), old(ctx).libs()) == Some((result_view(r), final(ctx).env())),
        final(ctx).others() == old(ctx).others(),
    decreases fuel, 0nat,
{
    let ghost f1 = (fuel - 1) as nat;
    match e {
        Expression::Atom(Atom::Variable(v)) => {
            match ctx.get_variable(v.as_str()) {
                Some(val) => eval_in(&val, ctx, Ghost(f1)),
                None => Err(join_text("Undefined variable: ", v.as_str())),
            }
        },
        Expression::Atom(a) => Ok(Expression::Atom(copy_atom(a))),
        Expression::BinaryOperation(op, l, r) => {
            let lv = eval_in(l, ctx, Ghost(f1))?;
            let rv = eval_in(r, ctx, Ghost(f1))?;
            binop_exec(*op, lv, rv)
        },
        Expression::Function(func) => {
            ctx.set_function(copy_string(&func.name), copy_function(func));
            Ok(Expression::Function(Box::new(copy_function(func))))
        },
        Expression::Tuple(exprs) => {
            proof { lemma_exprs_view(exprs@); assert(exprs_view(exprs@).skip(0) =~= exprs_view(exprs@)); }
            let vals = eval_list_in(exprs, 0, ctx, Ghost(f1))?;
            Ok(Expression::Tuple(vals))
        },
        Expression::FunctionCall(name, args) => {
            let func = match ctx.get_function(name.as_str()) {
                Some(f) => f,
                None => {
                    let m = join_text("Function '", name.as_str());
                    return Err(join_text(m.as_str(), "' not found"));
                },
            };
            proof { assert(exprs_view(args@).skip(0) =~= exprs_view(args@)); }
            let vals = eval_list_in(args, 0, ctx, Ghost(f1))?;
            call_in(&func, vals, ctx, Ghost(f1))
        },
        Expression::MethodCall(lib_name, method_name, args) => {
            ctx.call_library_function(lib_name.as_str(), method_name.as_str(), copy_exprs(args))
        },
    }
}

/// Evaluates `es[i..]` in order within the budget `fuel`, stopping at the
/// first error.
pub fn eval_list_in<L: Library>(es: &Vec<Expression>, i: usize, ctx: &mut Scope<L>, Ghost(fuel): Ghost<nat>)
    -> (r: Result<Vec<Expression>, String>)
    requires
        i <= es.len(),
        ev_list(fuel, exprs_view(es@).skip(i as int), old(ctx).env(), old(ctx).libs()) is Some,
    ensures
        ev_list(fuel, exprs_view(es@).skip(i as int), old(ctx).env(), old(ctx).libs()) == Some((list_view(r), final(ctx).env())),
        final(ctx).others() == old(ctx).others(),
    decreases fuel, es.len() - i + 1,
{
    proof { lemma_exprs_view(es@); }
    if i == es.len() {
        let v: Vec<Expression> = Vec::new();
        assert(exprs_view(v@) =~= Seq::<SpecExpression>::empty());
        assert(exprs_view(es@).skip(i as int) =~= Seq::<SpecExpression>::empty());
        return Ok(v);
    }
    let ghost sv = exprs_view(es@).skip(i as int);
    assert(sv[0] == es@[i as int]@);
    assert(sv.drop_first() =~= exprs_view(es@).skip(i + 1));
    let x = eval_in(&es[i], ctx, Ghost(fuel))?;
    let rest = eval_list_in(es, i + 1, ctx, Ghost(fuel))?;
    let mut out: Vec<Expression> = Vec::new();
    out.push(x);
    let mut rest = rest;
    proof {
        lemma_exprs_concat(out@, rest@);
        lemma_exprs_view(out@);
        assert(exprs_view(out@) =~= seq![x@]);
    }
    out.append(&mut rest);
    Ok(out)
}

impl Expression {
    /// Evaluates the expression in `context`; see `ev` for what that means.
    /// An evaluation that does not end overflows the stack, and the
    /// evaluator panics on an `i64` overflow or division by zero, so `requires`
    /// leaves those out.
    pub fn evaluate<L: Library>(&self, context: &mut Scope<L>) -> (r: Result<Expression, String>)
        requires
            terminates(self@, old(context).env(), old(context).libs()),
        ensures
            evaluation(self@, old(context).env(), old(context).libs()) == (result_view(r), final(context).env()),
            final(context).others() == old(context).others(),
    {
        let ghost fuel = choose|fuel: nat| ev(fuel, self@, context.env(), context.libs()) is Some;
        eval_in(self, context, Ghost(fuel))
    }
}

} // verus!
