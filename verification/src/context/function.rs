//! Calling a script function.
use vstd::prelude::*;
use crate::ast::expression::Expression;
use crate::ast::function::Function;
use crate::ast::stmt::Statement;
use crate::ast::model::{SpecExpression, exprs_view, params_view, stmts_view, lemma_exprs_view, lemma_params_view,
    lemma_stmts_view, copy_string};
use crate::context::semantics::{Env, ev, call_fn, bind_args, run_decls, call_terminates, call_result};
use crate::context::expression::eval_in;
use crate::package::lib::{Library, result_view};
use crate::types::scope::Scope;

verus! {

/// Runs `f` on `args` with the variables of `outer`, within the budget `fuel`.
pub fn call_in<L: Library>(f: &Function, args: Vec<Expression>, outer: &Scope<L>, Ghost(fuel): Ghost<nat>)
    -> (r: Result<Expression, String>)
    requires
        call_fn::<L>(fuel, f@, exprs_view(args@), outer.env().vars) is Some,
    ensures
        call_fn::<L>(fuel, f@, exprs_view(args@), outer.env().vars) == Some(result_view(r)),
    decreases fuel, f@.parameters.len() + f@.body.statements.len() + 3,
{
    proof {
        lemma_exprs_view(args@);
        lemma_params_view(f.parameters@);
        lemma_stmts_view(f.body.statements@);
    }
    if args.len() != f.parameters.len() {
        return Err("Argument count mismatch".to_string());
    }
    let mut local: Scope<L> = Scope::new_with_variables(outer);
    bind_in(f, &args, 0, &mut local, Ghost(fuel))?;
    decls_in(f, 0, &mut local, Ghost(fuel))?;
    eval_in(&f.body.return_expr, &mut local, Ghost(fuel))
}

/// Evaluates `args[i..]` and binds each to its parameter in `local`.
fn bind_in<L: Library>(f: &Function, args: &Vec<Expression>, i: usize, local: &mut Scope<L>, Ghost(fuel): Ghost<nat>)
    -> (r: Result<(), String>)
    requires
        i <= args.len(),
        args.len() == f.parameters.len(),
        old(local).libs() == Seq::<(Seq<char>, L)>::empty(),
        bind_args::<L>(fuel, f@, exprs_view(args@), i as int, old(local).env()) is Some,
    ensures
        final(local).libs() == Seq::<(Seq<char>, L)>::empty(),
        match bind_args::<L>(fuel, f@, exprs_view(args@), i as int, old(local).env()).unwrap() {
            Ok(env) => r is Ok && final(local).env() == env,
            Err(m) => r matches Err(x) && x@ == m,
        },
    decreases fuel, f@.parameters.len() - i + 1,
{
    proof {
        lemma_exprs_view(args@);
        lemma_params_view(f.parameters@);
    }
    if i >= f.parameters.len() || i >= args.len() {
        return Ok(());
    }
    let v = eval_in(&args[i], local, Ghost(fuel))?;
    local.set_variable(copy_string(&f.parameters[i].name), v);
    bind_in(f, args, i + 1, local, Ghost(fuel))
}

/// Runs the variable declarations among the body's statements from the
/// `i`-th on, binding each in `local`.
fn decls_in<L: Library>(f: &Function, i: usize, local: &mut Scope<L>, Ghost(fuel): Ghost<nat>) -> (r: Result<(), String>)
    requires
        i <= f.body.statements.len(),
        old(local).libs() == Seq::<(Seq<char>, L)>::empty(),
        run_decls::<L>(fuel, f@, i as int, old(local).env()) is Some,
    ensures
        final(local).libs() == Seq::<(Seq<char>, L)>::empty(),
        match run_decls::<L>(fuel, f@, i as int, old(local).env()).unwrap() {
            Ok(env) => r is Ok && final(local).env() == env,
            Err(m) => r matches Err(x) && x@ == m,
        },
    decreases fuel, f@.body.statements.len() - i + 1,
{
    proof { lemma_stmts_view(f.body.statements@); }
    if i >= f.body.statements.len() {
        return Ok(());
    }
    match &f.body.statements[i] {
        Statement::VariableDeclaration(name, expr) => {
            let v = eval_in(expr, local, Ghost(fuel))?;
            local.set_variable(copy_string(name), v);
        },
        _ => {},
    }
    decls_in(f, i + 1, local, Ghost(fuel))
}

impl Function {
    /// Calls the function on `args` with the variables of `context`; see
    /// `call_fn`. A call that does not end overflows the stack, and the
    /// evaluator panics on an `i64` overflow or division by zero, so
    /// `requires` leaves those out.
    pub fn call<L: Library>(&self, args: Vec<Expression>, context: &Scope<L>) -> (r: Result<Expression, String>)
        requires
            call_terminates::<L>(self@, exprs_view(args@), context.env().vars),
        ensures
            result_view(r) == call_result::<L>(self@, exprs_view(args@), context.env().vars),
    {
        let ghost fuel = choose|fuel: nat| call_fn::<L>(fuel, self@, exprs_view(args@), context.env().vars) is Some;
        call_in(self, args, context, Ghost(fuel))
    }
}

} // verus!
