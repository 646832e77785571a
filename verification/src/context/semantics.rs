//! The meaning of expressions, calls and programs.
//!
//! Evaluation can run forever (a function may reach itself through a variable
//! that holds it), so each function here takes a budget of steps (`fuel`)
//! and gives `None` when the budget runs out, and also where the evaluator
//! would stop with a panic: an `i64` operation that overflows or divides by
//! zero.
use vstd::prelude::*;
use crate::ast::atom::Float;
use crate::ast::binaryop::BinaryOperation;
use crate::ast::model::{SpecAtom, SpecExpression, SpecFunction, SpecStatement};
use crate::arith::trunc_div;
use crate::names::lookup;
use crate::package::lib::Library;

verus! {

/// The variables and the functions that evaluation reads and writes, each
/// as the list of its bindings, oldest first.
pub struct Env {
    pub vars: Seq<(Seq<char>, SpecExpression)>,
    pub funcs: Seq<(Seq<char>, SpecFunction)>,
}

/// The libraries, each under its name.
pub type Libs<L> = Seq<(Seq<char>, L)>;

/// A value or an error message.
pub type Val = Result<SpecExpression, Seq<char>>;

pub open spec fn undefined_variable(v: Seq<char>) -> Seq<char> {
    "Undefined variable: "@ + v
}

pub open spec fn function_not_found(n: Seq<char>) -> Seq<char> {
    "Function '"@ + n + "' not found"@
}

pub open spec fn library_not_found(n: Seq<char>) -> Seq<char> {
    "Library '"@ + n + "' not found"@
}

/// Calls the method `m` of the library named `lib` on `args`.
pub open spec fn library_call<L: Library>(libs: Libs<L>, lib: Seq<char>, m: Seq<char>, args: Seq<SpecExpression>) -> Val {
    match lookup(libs, lib) {
        Some(l) => l.spec_call_method(m, args),
        None => Err(library_not_found(lib)),
    }
}

/// Whether an integer fits in an `i64`.
pub open spec fn fits_i64(v: int) -> bool {
    i64::MIN <= v <= i64::MAX
}

/// An operator applied to two values: integers and doubles combine with
/// `+ - * /`; `None` where the `i64` operation overflows or divides by zero.
pub open spec fn binop_value(op: BinaryOperation, lv: SpecExpression, rv: SpecExpression) -> Option<Val> {
    match (lv, rv) {
        (SpecExpression::Atom(SpecAtom::Integer(l)), SpecExpression::Atom(SpecAtom::Integer(r))) => {
            let v: int = match op {
                BinaryOperation::Plus => l + r,
                BinaryOperation::Minus => l - r,
                BinaryOperation::Times => l * r,
                _ => if r == 0 { 0 } else { trunc_div(l as int, r as int) },
            };
            if op is Equal || op is NotEqual {
                Some(Err("Unsupported binary operation"@))
            } else if (op is Divide && r == 0) || !fits_i64(v) {
                None
            } else {
                Some(Ok(SpecExpression::Atom(SpecAtom::Integer(v as i64))))
            }
        },
        (SpecExpression::Atom(SpecAtom::Double(l)), SpecExpression::Atom(SpecAtom::Double(r))) => {
            if op is Equal || op is NotEqual {
                Some(Err("Unsupported binary operation"@))
            } else {
                Some(Ok(SpecExpression::Atom(SpecAtom::Double(Float::Arith(op, Box::new(l), Box::new(r))))))
            }
        },
        _ => Some(Err("Type error in binary operation"@)),
    }
}

/// Evaluates `e`: its value or error, and the variables and functions after
/// it. A variable evaluates what it holds; a function expression defines the
/// function; a call evaluates its arguments in order and runs the function;
/// a method call hands its arguments, unevaluated, to the library.
pub open spec fn ev<L: Library>(fuel: nat, e: SpecExpression, env: Env, libs: Libs<L>) -> Option<(Val, Env)>
    decreases fuel, 0nat,
{
    if fuel == 0 {
        None
    } else {
        let f1 = (fuel - 1) as nat;
        match e {
            SpecExpression::Atom(SpecAtom::Variable(v)) => match lookup(env.vars, v) {
                Some(x) => ev(f1, x, env, libs),
                None => Some((Err(undefined_variable(v)), env)),
            },
            SpecExpression::Atom(a) => Some((Ok(SpecExpression::Atom(a)), env)),
            SpecExpression::BinaryOperation(op, l, r) => match ev(f1, *l, env, libs) {
                None => None,
                Some((Err(m), env1)) => Some((Err(m), env1)),
                Some((Ok(lv), env1)) => match ev(f1, *r, env1, libs) {
                    None => None,
                    Some((Err(m), env2)) => Some((Err(m), env2)),
                    Some((Ok(rv), env2)) => match binop_value(op, lv, rv) {
                        Some(x) => Some((x, env2)),
                        None => None,
                    },
                },
            },
            SpecExpression::Function(f) => Some((
                Ok(SpecExpression::Function(f)),
                Env { vars: env.vars, funcs: env.funcs.push((f.name, *f)) },
            )),
            SpecExpression::Tuple(es) => match ev_list(f1, es, env, libs) {
                None => None,
                Some((Err(m), env1)) => Some((Err(m), env1)),
                Some((Ok(vs), env1)) => Some((Ok(SpecExpression::Tuple(vs)), env1)),
            },
            SpecExpression::FunctionCall(name, args) => match lookup(env.funcs, name) {
                None => Some((Err(function_not_found(name)), env)),
                Some(func) => match ev_list(f1, args, env, libs) {
                    None => None,
                    Some((Err(m), env1)) => Some((Err(m), env1)),
                    Some((Ok(vals), env1)) => match call_fn::<L>(f1, func, vals, env1.vars) {
                        None => None,
                        Some(res) => Some((res, env1)),
                    },
                },
            },
            SpecExpression::MethodCall(lib, m, args) => Some((library_call(libs, lib, m, args), env)),
        }
    }
}

/// Evaluates the expressions in order, stopping at the first error.
pub open spec fn ev_list<L: Library>(fuel: nat, es: Seq<SpecExpression>, env: Env, libs: Libs<L>)
    -> Option<(Result<Seq<SpecExpression>, Seq<char>>, Env)>
    decreases fuel, es.len() + 1,
{
    if es.len() == 0 {
        Some((Ok(Seq::empty()), env))
    } else {
        match ev(fuel, es[0], env, libs) {
            None => None,
            Some((Err(m), env1)) => Some((Err(m), env1)),
            Some((Ok(v), env1)) => match ev_list(fuel, es.drop_first(), env1, libs) {
                None => None,
                Some((Err(m), env2)) => Some((Err(m), env2)),
                Some((Ok(vs), env2)) => Some((Ok(seq![v] + vs), env2)),
            },
        }
    }
}

/// Runs `f` on the values `args`, in a fresh scope that starts with the
/// caller's variables and no functions or libraries: each argument is
/// evaluated there again and bound to its parameter, the body's variable
/// declarations are run (its other statements are skipped), and the return
/// expression gives the result.
pub open spec fn call_fn<L: Library>(fuel: nat, f: SpecFunction, args: Seq<SpecExpression>, outer: Seq<(Seq<char>, SpecExpression)>)
    -> Option<Val>
    decreases fuel, f.parameters.len() + f.body.statements.len() + 3,
{
    if args.len() != f.parameters.len() {
        Some(Err("Argument count mismatch"@))
    } else {
        let local = Env { vars: outer, funcs: Seq::empty() };
        match bind_args::<L>(fuel, f, args, 0, local) {
            None => None,
            Some(Err(m)) => Some(Err(m)),
            Some(Ok(local1)) => match run_decls::<L>(fuel, f, 0, local1) {
                None => None,
                Some(Err(m)) => Some(Err(m)),
                Some(Ok(local2)) => match ev(fuel, f.body.return_expr, local2, Seq::<(Seq<char>, L)>::empty()) {
                    None => None,
                    Some((r, _)) => Some(r),
                },
            },
        }
    }
}

/// Evaluates the arguments from the `i`-th on and binds each to its
/// parameter.
pub open spec fn bind_args<L: Library>(fuel: nat, f: SpecFunction, args: Seq<SpecExpression>, i: int, local: Env)
    -> Option<Result<Env, Seq<char>>>
    decreases fuel, f.parameters.len() - i + 1,
{
    if i < 0 || i >= f.parameters.len() || i >= args.len() {
        Some(Ok(local))
    } else {
        match ev(fuel, args[i], local, Seq::<(Seq<char>, L)>::empty()) {
            None => None,
            Some((Err(m), _)) => Some(Err(m)),
            Some((Ok(v), l1)) => bind_args::<L>(fuel, f, args, i + 1,
                Env { vars: l1.vars.push((f.parameters[i].name, v)), funcs: l1.funcs }),
        }
    }
}

/// Runs the variable declarations of the body from the `i`-th statement on.
pub open spec fn run_decls<L: Library>(fuel: nat, f: SpecFunction, i: int, local: Env) -> Option<Result<Env, Seq<char>>>
    decreases fuel, f.body.statements.len() - i + 1,
{
    if i < 0 || i >= f.body.statements.len() {
        Some(Ok(local))
    } else {
        match f.body.statements[i] {
            SpecStatement::VariableDeclaration(n, x) => match ev(fuel, x, local, Seq::<(Seq<char>, L)>::empty()) {
                None => None,
                Some((Err(m), _)) => Some(Err(m)),
                Some((Ok(v), l1)) => run_decls::<L>(fuel, f, i + 1, Env { vars: l1.vars.push((n, v)), funcs: l1.funcs }),
            },
            _ => run_decls::<L>(fuel, f, i + 1, local),
        }
    }
}

/// The names of the arguments that are bare variables, in order.
pub open spec fn var_args(args: Seq<SpecExpression>) -> Seq<Seq<char>>
    decreases args.len(),
{
    if args.len() == 0 {
        Seq::empty()
    } else {
        let rest = var_args(args.drop_last());
        match args.last() {
            SpecExpression::Atom(SpecAtom::Variable(v)) => rest.push(v),
            _ => rest,
        }
    }
}

/// The `k`-th name bound to the `k`-th value, for each `k` below `n`.
pub open spec fn pairs(names: Seq<Seq<char>>, vals: Seq<SpecExpression>, n: int) -> Seq<(Seq<char>, SpecExpression)> {
    Seq::new(n as nat, |k: int| (names[k], vals[k]))
}

/// The function definitions among `ss`, each under its name, in order.
pub open spec fn defs(ss: Seq<SpecStatement>) -> Seq<(Seq<char>, SpecFunction)>
    decreases ss.len(),
{
    if ss.len() == 0 {
        Seq::empty()
    } else {
        let rest = defs(ss.drop_last());
        match ss.last() {
            SpecStatement::FunctionDefinition(f) => rest.push((f.name, f)),
            _ => rest,
        }
    }
}

/// `env` with `more` bound after its variables.
pub open spec fn with_vars(env: Env, more: Seq<(Seq<char>, SpecExpression)>) -> Env {
    Env { vars: env.vars + more, funcs: env.funcs }
}

/// Runs one statement of a program: a declaration or an assignment binds
/// the value of its expression; a tuple assignment binds the names to the
/// elements of a tuple of the same length; a definition does nothing (the
/// definitions are bound before the first statement runs); a call runs the
/// function and, where it gives a tuple as long as the list of the
/// arguments that are bare variables, binds those variables to its
/// elements. Gives the error, if any, and the variables and functions
/// after the statement.
pub open spec fn run_step<L: Library>(fuel: nat, st: SpecStatement, env: Env, libs: Libs<L>)
    -> Option<(Result<(), Seq<char>>, Env)>
{
    match st {
        SpecStatement::VariableDeclaration(n, e) | SpecStatement::Assignment(n, e) => match ev(fuel, e, env, libs) {
            None => None,
            Some((Err(m), env1)) => Some((Err(m), env1)),
            Some((Ok(v), env1)) => Some((Ok(()), with_vars(env1, seq![(n, v)]))),
        },
        SpecStatement::TupleAssignment(ns, e) => match ev(fuel, e, env, libs) {
            None => None,
            Some((Err(m), env1)) => Some((Err(m), env1)),
            Some((Ok(SpecExpression::Tuple(vs)), env1)) => if ns.len() == vs.len() {
                Some((Ok(()), with_vars(env1, pairs(ns, vs, ns.len() as int))))
            } else {
                Some((Err("Tuple assignment mismatch"@), env1))
            },
            Some((Ok(_), env1)) => Some((Err("Expected tuple expression"@), env1)),
        },
        SpecStatement::FunctionDefinition(_) => Some((Ok(()), env)),
        SpecStatement::FunctionCall(name, args) => match lookup(env.funcs, name) {
            None => Some((Err(function_not_found(name)), env)),
            Some(func) => match ev_list(fuel, args, env, libs) {
                None => None,
                Some((Err(m), env1)) => Some((Err(m), env1)),
                Some((Ok(vals), env1)) => match call_fn::<L>(fuel, func, vals, env1.vars) {
                    None => None,
                    Some(Err(m)) => Some((Err(m), env1)),
                    Some(Ok(SpecExpression::Tuple(rs))) => {
                        let vs = var_args(args);
                        if vs.len() == rs.len() {
                            Some((Ok(()), with_vars(env1, pairs(vs, rs, vs.len() as int))))
                        } else {
                            Some((Ok(()), env1))
                        }
                    },
                    Some(Ok(_)) => Some((Ok(()), env1)),
                },
            },
        },
    }
}

/// Runs the statements `ss[i..]` in order, stopping at the first error.
pub open spec fn run_stmts<L: Library>(fuel: nat, ss: Seq<SpecStatement>, i: int, env: Env, libs: Libs<L>)
    -> Option<(Result<(), Seq<char>>, Env)>
    decreases ss.len() - i,
{
    if i < 0 || i >= ss.len() {
        Some((Ok(()), env))
    } else {
        match run_step(fuel, ss[i], env, libs) {
            None => None,
            Some((Err(m), env1)) => Some((Err(m), env1)),
            Some((Ok(()), env1)) => run_stmts(fuel, ss, i + 1, env1, libs),
        }
    }
}

/// Whether `e` evaluates within some budget.
pub open spec fn terminates<L: Library>(e: SpecExpression, env: Env, libs: Libs<L>) -> bool {
    exists|fuel: nat| ev(fuel, e, env, libs) is Some
}

/// The value or error of `e` and the variables and functions after it.
pub open spec fn evaluation<L: Library>(e: SpecExpression, env: Env, libs: Libs<L>) -> (Val, Env) {
    ev(choose|fuel: nat| ev(fuel, e, env, libs) is Some, e, env, libs).unwrap()
}

/// Whether the call of `f` on `args` finishes within some budget.
pub open spec fn call_terminates<L: Library>(f: SpecFunction, args: Seq<SpecExpression>, outer: Seq<(Seq<char>, SpecExpression)>) -> bool {
    exists|fuel: nat| call_fn::<L>(fuel, f, args, outer) is Some
}

/// What the call of `f` on `args` gives.
pub open spec fn call_result<L: Library>(f: SpecFunction, args: Seq<SpecExpression>, outer: Seq<(Seq<char>, SpecExpression)>) -> Val {
    call_fn::<L>(choose|fuel: nat| call_fn::<L>(fuel, f, args, outer) is Some, f, args, outer).unwrap()
}

} // verus!
