//! The budget of steps decides only whether evaluation finishes, never what
//! it gives: a larger budget gives the same result as any budget within
//! which evaluation finishes.
use vstd::prelude::*;
use crate::ast::model::{SpecExpression, SpecFunction};
use crate::context::semantics::{Env, Libs, Val, ev, ev_list, call_fn, bind_args, run_decls, run_step, run_stmts,
    terminates, evaluation, call_terminates, call_result, binop_value, library_call};
use crate::package::lib::Library;

verus! {

pub(crate) proof fn lemma_ev_mono<L: Library>(f1: nat, f2: nat, e: SpecExpression, env: Env, libs: Libs<L>)
    requires
        f1 <= f2,
        ev(f1, e, env, libs) is Some,
    ensures
        ev(f2, e, env, libs) == ev(f1, e, env, libs),
    decreases f1, 0nat,
{
    let g1 = (f1 - 1) as nat;
    let g2 = (f2 - 1) as nat;
    match e {
        SpecExpression::Atom(crate::ast::model::SpecAtom::Variable(v)) => {
            match crate::names::lookup(env.vars, v) {
                Some(x) => lemma_ev_mono(g1, g2, x, env, libs),
                None => {},
            }
        },
        SpecExpression::Atom(_) => {},
        SpecExpression::BinaryOperation(op, l, r) => {
            lemma_ev_mono(g1, g2, *l, env, libs);
            match ev(g1, *l, env, libs) {
                Some((Ok(_), env1)) => lemma_ev_mono(g1, g2, *r, env1, libs),
                _ => {},
            }
        },
        SpecExpression::Function(_) => {},
        SpecExpression::Tuple(es) => lemma_ev_list_mono(g1, g2, es, env, libs),
        SpecExpression::FunctionCall(name, args) => {
            match crate::names::lookup(env.funcs, name) {
                Some(func) => {
                    lemma_ev_list_mono(g1, g2, args, env, libs);
                    match ev_list(g1, args, env, libs) {
                        Some((Ok(vals), env1)) => lemma_call_mono::<L>(g1, g2, func, vals, env1.vars),
                        _ => {},
                    }
                },
                None => {},
            }
        },
        SpecExpression::MethodCall(..) => {},
    }
}

proof fn lemma_ev_list_mono<L: Library>(f1: nat, f2: nat, es: Seq<SpecExpression>, env: Env, libs: Libs<L>)
    requires
        f1 <= f2,
        ev_list(f1, es, env, libs) is Some,
    ensures
        ev_list(f2, es, env, libs) == ev_list(f1, es, env, libs),
    decreases f1, es.len() + 1,
{
    if es.len() > 0 {
        lemma_ev_mono(f1, f2, es[0], env, libs);
        match ev(f1, es[0], env, libs) {
            Some((Ok(_), env1)) => lemma_ev_list_mono(f1, f2, es.drop_first(), env1, libs),
            _ => {},
        }
    }
}

proof fn lemma_call_mono<L: Library>(f1: nat, f2: nat, f: SpecFunction, args: Seq<SpecExpression>,
    outer: Seq<(Seq<char>, SpecExpression)>)
    requires
        f1 <= f2,
        call_fn::<L>(f1, f, args, outer) is Some,
    ensures
        call_fn::<L>(f2, f, args, outer) == call_fn::<L>(f1, f, args, outer),
    decreases f1, f.parameters.len() + f.body.statements.len() + 3,
{
    if args.len() == f.parameters.len() {
        let local = Env { vars: outer, funcs: Seq::empty() };
        lemma_bind_mono::<L>(f1, f2, f, args, 0, local);
        match bind_args::<L>(f1, f, args, 0, local) {
            Some(Ok(local1)) => {
                lemma_decls_mono::<L>(f1, f2, f, 0, local1);
                match run_decls::<L>(f1, f, 0, local1) {
                    Some(Ok(local2)) => lemma_ev_mono(f1, f2, f.body.return_expr, local2, Seq::<(Seq<char>, L)>::empty()),
                    _ => {},
                }
            },
            _ => {},
        }
    }
}

proof fn lemma_bind_mono<L: Library>(f1: nat, f2: nat, f: SpecFunction, args: Seq<SpecExpression>, i: int, local: Env)
    requires
        f1 <= f2,
        bind_args::<L>(f1, f, args, i, local) is Some,
    ensures
        bind_args::<L>(f2, f, args, i, local) == bind_args::<L>(f1, f, args, i, local),
    decreases f1, f.parameters.len() - i + 1,
{
    if !(i < 0 || i >= f.parameters.len() || i >= args.len()) {
        lemma_ev_mono(f1, f2, args[i], local, Seq::<(Seq<char>, L)>::empty());
        match ev(f1, args[i], local, Seq::<(Seq<char>, L)>::empty()) {
            Some((Ok(v), l1)) => lemma_bind_mono::<L>(f1, f2, f, args, i + 1,
                Env { vars: l1.vars.push((f.parameters[i].name, v)), funcs: l1.funcs }),
            _ => {},
        }
    }
}

proof fn lemma_decls_mono<L: Library>(f1: nat, f2: nat, f: SpecFunction, i: int, local: Env)
    requires
        f1 <= f2,
        run_decls::<L>(f1, f, i, local) is Some,
    ensures
        run_decls::<L>(f2, f, i, local) == run_decls::<L>(f1, f, i, local),
    decreases f1, f.body.statements.len() - i + 1,
{
    if !(i < 0 || i >= f.body.statements.len()) {
        match f.body.statements[i] {
            crate::ast::model::SpecStatement::VariableDeclaration(n, x) => {
                lemma_ev_mono(f1, f2, x, local, Seq::<(Seq<char>, L)>::empty());
                match ev(f1, x, local, Seq::<(Seq<char>, L)>::empty()) {
                    Some((Ok(v), l1)) => lemma_decls_mono::<L>(f1, f2, f, i + 1,
                        Env { vars: l1.vars.push((n, v)), funcs: l1.funcs }),
                    _ => {},
                }
            },
            _ => lemma_decls_mono::<L>(f1, f2, f, i + 1, local),
        }
    }
}

proof fn lemma_step_mono<L: Library>(f1: nat, f2: nat, st: crate::ast::model::SpecStatement, env: Env, libs: Libs<L>)
    requires
        f1 <= f2,
        run_step(f1, st, env, libs) is Some,
    ensures
        run_step(f2, st, env, libs) == run_step(f1, st, env, libs),
{
    match st {
        crate::ast::model::SpecStatement::VariableDeclaration(_, e)
        | crate::ast::model::SpecStatement::Assignment(_, e)
        | crate::ast::model::SpecStatement::TupleAssignment(_, e) => lemma_ev_mono(f1, f2, e, env, libs),
        crate::ast::model::SpecStatement::FunctionDefinition(_) => {},
        crate::ast::model::SpecStatement::FunctionCall(name, args) => {
            match crate::names::lookup(env.funcs, name) {
                Some(func) => {
                    lemma_ev_list_mono(f1, f2, args, env, libs);
                    match ev_list(f1, args, env, libs) {
                        Some((Ok(vals), env1)) => lemma_call_mono::<L>(f1, f2, func, vals, env1.vars),
                        _ => {},
                    }
                },
                None => {},
            }
        },
    }
}

/// Statements that finish within a budget give the same within any larger
/// one.
pub proof fn lemma_stmts_mono<L: Library>(f1: nat, f2: nat, ss: Seq<crate::ast::model::SpecStatement>, i: int,
    env: Env, libs: Libs<L>)
    requires
        f1 <= f2,
        run_stmts(f1, ss, i, env, libs) is Some,
    ensures
        run_stmts(f2, ss, i, env, libs) == run_stmts(f1, ss, i, env, libs),
    decreases ss.len() - i,
{
    if !(i < 0 || i >= ss.len()) {
        lemma_step_mono(f1, f2, ss[i], env, libs);
        match run_step(f1, ss[i], env, libs) {
            Some((Ok(()), env1)) => lemma_stmts_mono(f1, f2, ss, i + 1, env1, libs),
            _ => {},
        }
    }
}

/// Evaluation does not depend on the budget: within any budget in which
/// `e` evaluates, it gives `evaluation(e)`.
pub proof fn lemma_evaluation_any_budget<L: Library>(fuel: nat, e: SpecExpression, env: Env, libs: Libs<L>)
    requires
        ev(fuel, e, env, libs) is Some,
    ensures
        terminates(e, env, libs),
        ev(fuel, e, env, libs) == Some(evaluation(e, env, libs)),
{
    let c = choose|fuel: nat| ev(fuel, e, env, libs) is Some;
    if c <= fuel {
        lemma_ev_mono(c, fuel, e, env, libs);
    } else {
        lemma_ev_mono(fuel, c, e, env, libs);
    }
}

/// A call does not depend on the budget: within any budget in which it
/// finishes, it gives `call_result`.
pub proof fn lemma_call_any_budget<L: Library>(fuel: nat, f: SpecFunction, args: Seq<SpecExpression>,
    outer: Seq<(Seq<char>, SpecExpression)>)
    requires
        call_fn::<L>(fuel, f, args, outer) is Some,
    ensures
        call_terminates::<L>(f, args, outer),
        call_fn::<L>(fuel, f, args, outer) == Some(call_result::<L>(f, args, outer)),
{
    let c = choose|fuel: nat| call_fn::<L>(fuel, f, args, outer) is Some;
    if c <= fuel {
        lemma_call_mono::<L>(c, fuel, f, args, outer);
    } else {
        lemma_call_mono::<L>(fuel, c, f, args, outer);
    }
}

/// An expression that reads no variable and neither defines nor calls a
/// function of the scope: atoms other than variables, operations, tuples
/// and library calls.
pub open spec fn closed(e: SpecExpression) -> bool
    decreases e,
{
    match e {
        SpecExpression::Atom(a) => !(a is Variable),
        SpecExpression::BinaryOperation(_, l, r) => closed(*l) && closed(*r),
        SpecExpression::Tuple(es) => closed_list(es),
        SpecExpression::MethodCall(..) => true,
        SpecExpression::Function(_) | SpecExpression::FunctionCall(..) => false,
    }
}

pub open spec fn closed_list(es: Seq<SpecExpression>) -> bool
    decreases es,
{
    if es.len() == 0 {
        true
    } else {
        closed(es[0]) && closed_list(es.drop_first())
    }
}

/// The depth of an expression.
pub open spec fn height(e: SpecExpression) -> nat
    decreases e,
{
    match e {
        SpecExpression::BinaryOperation(_, l, r) => 1 + if height(*l) > height(*r) { height(*l) } else { height(*r) },
        SpecExpression::Tuple(es) => 1 + list_height(es),
        _ => 1,
    }
}

/// The greatest depth in a list of expressions.
pub open spec fn list_height(es: Seq<SpecExpression>) -> nat
    decreases es,
{
    if es.len() == 0 {
        0
    } else {
        let a = height(es[0]);
        let b = list_height(es.drop_first());
        if a > b { a } else { b }
    }
}

/// The value of a closed expression, computed without a budget; `None`
/// where an `i64` operation overflows or divides by zero.
pub open spec fn closed_value<L: Library>(e: SpecExpression, libs: Libs<L>) -> Option<Val>
    decreases e,
{
    match e {
        SpecExpression::BinaryOperation(op, l, r) => match closed_value(*l, libs) {
            None => None,
            Some(Err(m)) => Some(Err(m)),
            Some(Ok(lv)) => match closed_value(*r, libs) {
                None => None,
                Some(Err(m)) => Some(Err(m)),
                Some(Ok(rv)) => binop_value(op, lv, rv),
            },
        },
        SpecExpression::Tuple(es) => match closed_values(es, libs) {
            None => None,
            Some(Err(m)) => Some(Err(m)),
            Some(Ok(vs)) => Some(Ok(SpecExpression::Tuple(vs))),
        },
        SpecExpression::MethodCall(lib, m, args) => Some(library_call(libs, lib, m, args)),
        _ => Some(Ok(e)),
    }
}

/// The values of a list of closed expressions, in order, stopping at the
/// first error.
pub open spec fn closed_values<L: Library>(es: Seq<SpecExpression>, libs: Libs<L>) -> Option<Result<Seq<SpecExpression>, Seq<char>>>
    decreases es,
{
    if es.len() == 0 {
        Some(Ok(Seq::empty()))
    } else {
        match closed_value(es[0], libs) {
            None => None,
            Some(Err(m)) => Some(Err(m)),
            Some(Ok(v)) => match closed_values(es.drop_first(), libs) {
                None => None,
                Some(Err(m)) => Some(Err(m)),
                Some(Ok(vs)) => Some(Ok(seq![v] + vs)),
            },
        }
    }
}

proof fn lemma_closed_ev<L: Library>(fuel: nat, e: SpecExpression, env: Env, libs: Libs<L>)
    requires
        closed(e),
        fuel >= height(e),
    ensures
        ev(fuel, e, env, libs) == match closed_value(e, libs) {
            Some(v) => Some((v, env)),
            None => None,
        },
    decreases e,
{
    let f1 = (fuel - 1) as nat;
    match e {
        SpecExpression::BinaryOperation(_, l, r) => {
            lemma_closed_ev(f1, *l, env, libs);
            lemma_closed_ev(f1, *r, env, libs);
        },
        SpecExpression::Tuple(es) => {
            lemma_closed_ev_list(f1, es, env, libs);
        },
        _ => {},
    }
}

proof fn lemma_closed_ev_list<L: Library>(fuel: nat, es: Seq<SpecExpression>, env: Env, libs: Libs<L>)
    requires
        closed_list(es),
        fuel >= list_height(es),
    ensures
        ev_list(fuel, es, env, libs) == match closed_values(es, libs) {
            Some(r) => Some((r, env)),
            None => None,
        },
    decreases es,
{
    if es.len() > 0 {
        lemma_closed_ev(fuel, es[0], env, libs);
        lemma_closed_ev_list(fuel, es.drop_first(), env, libs);
    }
}

/// An expression that reads no variable and defines or calls no function
/// of the scope ends without running out of budget: it fails only where an
/// `i64` operation overflows or divides by zero, and otherwise gives
/// `closed_value`, leaving the variables and functions as they were.
pub proof fn lemma_closed_terminates<L: Library>(e: SpecExpression, env: Env, libs: Libs<L>)
    requires
        closed(e),
        closed_value(e, libs) is Some,
    ensures
        terminates(e, env, libs),
        evaluation(e, env, libs) == (closed_value(e, libs).unwrap(), env),
{
    lemma_closed_ev(height(e), e, env, libs);
    lemma_evaluation_any_budget(height(e), e, env, libs);
}

} // verus!
