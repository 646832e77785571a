//! What expressions, statements and calls mean in this variant.
//!
//! As for the main language, each function takes a budget of steps
//! (`fuel`) and gives `None` where it runs out, and also where the
//! evaluator would stop with a panic: an `i64` operation that overflows or
//! divides by zero, or a built-in library that panics. Comparing values
//! that hold doubles is floating point, which this library does not
//! compute, so it gives `None` too.
use vstd::prelude::*;
use crate::ast::binaryop::BinaryOperation;
use crate::ast::model::{SpecAtom, SpecExpression, SpecFunction, SpecParameter, SpecStatement};
use crate::arith::trunc_div;
use crate::context::semantics::{fits_i64, pairs, function_not_found};
use crate::genv::script::builtin::BuiltinLibrary;
use crate::genv::script::equality::has_double;
use crate::names::lookup;
use crate::text::find_char;

verus! {

/// The variables and the functions of a context, each as the list of its
/// bindings, oldest first.
pub struct CEnv {
    pub vars: Seq<(Seq<char>, SpecExpression)>,
    pub funcs: Seq<(Seq<char>, SpecFunction)>,
}

/// The built-in libraries, each under its name.
pub type Builtins<B> = Seq<(Seq<char>, B)>;

/// A value or an error message.
pub type SVal = Result<SpecExpression, Seq<char>>;

/// The part of a function's name before its first `.`, or all of it.
pub open spec fn lib_prefix(name: Seq<char>) -> Seq<char> {
    name.take(find_char(name, 0, '.'))
}

/// The name and the arguments of a call: `o.m(args)` calls the function
/// named `o.m`.
pub open spec fn call_target(e: SpecExpression) -> (Seq<char>, Seq<SpecExpression>) {
    match e {
        SpecExpression::MethodCall(o, m, args) => (o + "."@ + m, args),
        SpecExpression::FunctionCall(n, args) => (n, args),
        _ => (Seq::empty(), Seq::empty()),
    }
}

/// The names of the parameters, in order.
pub open spec fn param_names(ps: Seq<SpecParameter>) -> Seq<Seq<char>> {
    Seq::new(ps.len(), |i: int| ps[i].name)
}

/// An operator applied to two values: `+ - * /` on integers (`None` where
/// the `i64` operation overflows or divides by zero), `==` and `!=` on any
/// two values that hold no double.
pub open spec fn op_value(op: BinaryOperation, lv: SpecExpression, rv: SpecExpression) -> Option<SVal> {
    match (op, lv, rv) {
        (BinaryOperation::Plus, SpecExpression::Atom(SpecAtom::Integer(a)), SpecExpression::Atom(SpecAtom::Integer(b))) =>
            if fits_i64(a + b) { Some(Ok(SpecExpression::Atom(SpecAtom::Integer((a + b) as i64)))) } else { None },
        (BinaryOperation::Minus, SpecExpression::Atom(SpecAtom::Integer(a)), SpecExpression::Atom(SpecAtom::Integer(b))) =>
            if fits_i64(a - b) { Some(Ok(SpecExpression::Atom(SpecAtom::Integer((a - b) as i64)))) } else { None },
        (BinaryOperation::Times, SpecExpression::Atom(SpecAtom::Integer(a)), SpecExpression::Atom(SpecAtom::Integer(b))) =>
            if fits_i64(a * b) { Some(Ok(SpecExpression::Atom(SpecAtom::Integer((a * b) as i64)))) } else { None },
        (BinaryOperation::Divide, SpecExpression::Atom(SpecAtom::Integer(a)), SpecExpression::Atom(SpecAtom::Integer(b))) =>
            if b != 0 && fits_i64(trunc_div(a as int, b as int)) {
                Some(Ok(SpecExpression::Atom(SpecAtom::Integer(trunc_div(a as int, b as int) as i64))))
            } else {
                None
            },
        (BinaryOperation::Equal, l, r) =>
            if has_double(l) || has_double(r) { None } else { Some(Ok(SpecExpression::Atom(SpecAtom::Boolean(l == r)))) },
        (BinaryOperation::NotEqual, l, r) =>
            if has_double(l) || has_double(r) { None } else { Some(Ok(SpecExpression::Atom(SpecAtom::Boolean(l != r)))) },
        _ => Some(Err("Unsupported operation"@)),
    }
}

/// Evaluates `e` in the context `env`: an atom, a function or a tuple of
/// values is itself; a call goes to the built-in library named by the
/// part of its name before the first `.`, with the arguments as written,
/// else to the function of that name, with the arguments evaluated.
pub open spec fn sev<B: BuiltinLibrary>(fuel: nat, e: SpecExpression, env: CEnv, bs: Builtins<B>) -> Option<SVal>
    decreases fuel, 0nat,
{
    if fuel == 0 {
        None
    } else {
        let f1 = (fuel - 1) as nat;
        match e {
            SpecExpression::Atom(a) => Some(Ok(SpecExpression::Atom(a))),
            SpecExpression::BinaryOperation(op, l, r) => match sev(f1, *l, env, bs) {
                None => None,
                Some(Err(m)) => Some(Err(m)),
                Some(Ok(lv)) => match sev(f1, *r, env, bs) {
                    None => None,
                    Some(Err(m)) => Some(Err(m)),
                    Some(Ok(rv)) => op_value(op, lv, rv),
                },
            },
            SpecExpression::Tuple(es) => match sev_list(f1, es, env, bs) {
                None => None,
                Some(Err(m)) => Some(Err(m)),
                Some(Ok(vs)) => Some(Ok(SpecExpression::Tuple(vs))),
            },
            SpecExpression::Function(f) => Some(Ok(SpecExpression::Function(f))),
            SpecExpression::FunctionCall(..) | SpecExpression::MethodCall(..) => {
                let (name, args) = call_target(e);
                match lookup(bs, lib_prefix(name)) {
                    Some(lib) => lib.spec_call(name, args),
                    None => match lookup(env.funcs, name) {
                        Some(func) => match sev_list(f1, args, env, bs) {
                            None => None,
                            Some(Err(m)) => Some(Err(m)),
                            Some(Ok(vals)) => scall(f1, func, vals, env, bs),
                        },
                        None => Some(Err(function_not_found(name))),
                    },
                }
            },
        }
    }
}

/// Evaluates the expressions in order, stopping at the first error.
pub open spec fn sev_list<B: BuiltinLibrary>(fuel: nat, es: Seq<SpecExpression>, env: CEnv, bs: Builtins<B>)
    -> Option<Result<Seq<SpecExpression>, Seq<char>>>
    decreases fuel, es.len() + 1,
{
    if es.len() == 0 {
        Some(Ok(Seq::empty()))
    } else {
        match sev(fuel, es[0], env, bs) {
            None => None,
            Some(Err(m)) => Some(Err(m)),
            Some(Ok(v)) => match sev_list(fuel, es.drop_first(), env, bs) {
                None => None,
                Some(Err(m)) => Some(Err(m)),
                Some(Ok(vs)) => Some(Ok(seq![v] + vs)),
            },
        }
    }
}

/// Runs `f` on the values `args` in a copy of the context `env`: the
/// parameters are bound to the values, every statement of the body runs,
/// and the return expression gives the result.
pub open spec fn scall<B: BuiltinLibrary>(fuel: nat, f: SpecFunction, args: Seq<SpecExpression>, env: CEnv, bs: Builtins<B>)
    -> Option<SVal>
    decreases fuel, f.body.statements.len() + 2,
{
    if args.len() != f.parameters.len() {
        Some(Err("Incorrect number of arguments"@))
    } else {
        let local = CEnv {
            vars: env.vars + pairs(param_names(f.parameters), args, args.len() as int),
            funcs: env.funcs,
        };
        match sexec_list(fuel, f.body.statements, 0, local, bs) {
            None => None,
            Some(Err(m)) => Some(Err(m)),
            Some(Ok(local2)) => sev(fuel, f.body.return_expr, local2, bs),
        }
    }
}

/// Runs `ss[i..]` in order, stopping at the first error.
pub open spec fn sexec_list<B: BuiltinLibrary>(fuel: nat, ss: Seq<SpecStatement>, i: int, env: CEnv, bs: Builtins<B>)
    -> Option<Result<CEnv, Seq<char>>>
    decreases fuel, ss.len() - i + 1,
{
    if i < 0 || i >= ss.len() {
        Some(Ok(env))
    } else {
        match sexec(fuel, ss[i], env, bs) {
            None => None,
            Some(Err(m)) => Some(Err(m)),
            Some(Ok(env1)) => sexec_list(fuel, ss, i + 1, env1, bs),
        }
    }
}

/// Runs one statement: a declaration binds its value; an assignment binds
/// the value to a variable that has a binding already; a tuple assignment
/// binds the names to the elements of a tuple of the same length; a
/// definition binds the function; a call runs a function of the context
/// and drops its result.
pub open spec fn sexec<B: BuiltinLibrary>(fuel: nat, st: SpecStatement, env: CEnv, bs: Builtins<B>)
    -> Option<Result<CEnv, Seq<char>>>
    decreases fuel, 1nat,
{
    if fuel == 0 {
        None
    } else {
        let f1 = (fuel - 1) as nat;
        match st {
            SpecStatement::VariableDeclaration(n, e) => match sev(f1, e, env, bs) {
                None => None,
                Some(Err(m)) => Some(Err(m)),
                Some(Ok(v)) => Some(Ok(CEnv { vars: env.vars.push((n, v)), funcs: env.funcs })),
            },
            SpecStatement::Assignment(n, e) => match sev(f1, e, env, bs) {
                None => None,
                Some(Err(m)) => Some(Err(m)),
                Some(Ok(v)) => if lookup(env.vars, n) is Some {
                    Some(Ok(CEnv { vars: env.vars.push((n, v)), funcs: env.funcs }))
                } else {
                    Some(Err("Variable '"@ + n + "' not found"@))
                },
            },
            SpecStatement::TupleAssignment(ns, e) => match sev(f1, e, env, bs) {
                None => None,
                Some(Err(m)) => Some(Err(m)),
                Some(Ok(SpecExpression::Tuple(vs))) => if ns.len() == vs.len() {
                    Some(Ok(CEnv { vars: env.vars + pairs(ns, vs, ns.len() as int), funcs: env.funcs }))
                } else {
                    Some(Err("Tuple lengths do not match"@))
                },
                Some(Ok(_)) => Some(Err("Right-hand side is not a tuple"@)),
            },
            SpecStatement::FunctionDefinition(f) => Some(Ok(CEnv { vars: env.vars, funcs: env.funcs.push((f.name, f)) })),
            SpecStatement::FunctionCall(name, args) => match lookup(env.funcs, name) {
                Some(func) => match sev_list(f1, args, env, bs) {
                    None => None,
                    Some(Err(m)) => Some(Err(m)),
                    Some(Ok(vals)) => match scall(f1, func, vals, env, bs) {
                        None => None,
                        Some(Err(m)) => Some(Err(m)),
                        Some(Ok(_)) => Some(Ok(env)),
                    },
                },
                None => Some(Err(function_not_found(name))),
            },
        }
    }
}

/// Whether `st` runs to its end within some budget.
pub open spec fn statement_terminates<B: BuiltinLibrary>(st: SpecStatement, env: CEnv, bs: Builtins<B>) -> bool {
    exists|fuel: nat| sexec(fuel, st, env, bs) is Some
}

/// What running `st` gives: the context after it, or the error.
pub open spec fn statement_outcome<B: BuiltinLibrary>(st: SpecStatement, env: CEnv, bs: Builtins<B>) -> Result<CEnv, Seq<char>> {
    sexec(choose|fuel: nat| sexec(fuel, st, env, bs) is Some, st, env, bs).unwrap()
}

/// Whether `e` evaluates within some budget.
pub open spec fn expression_terminates<B: BuiltinLibrary>(e: SpecExpression, env: CEnv, bs: Builtins<B>) -> bool {
    exists|fuel: nat| sev(fuel, e, env, bs) is Some
}

/// The value or error of `e`.
pub open spec fn expression_value<B: BuiltinLibrary>(e: SpecExpression, env: CEnv, bs: Builtins<B>) -> SVal {
    sev(choose|fuel: nat| sev(fuel, e, env, bs) is Some, e, env, bs).unwrap()
}

/// Whether the call of `f` on `args` finishes within some budget.
pub open spec fn scall_terminates<B: BuiltinLibrary>(f: SpecFunction, args: Seq<SpecExpression>, env: CEnv, bs: Builtins<B>) -> bool {
    exists|fuel: nat| scall(fuel, f, args, env, bs) is Some
}

/// What the call of `f` on `args` gives.
pub open spec fn scall_result<B: BuiltinLibrary>(f: SpecFunction, args: Seq<SpecExpression>, env: CEnv, bs: Builtins<B>) -> SVal {
    scall(choose|fuel: nat| scall(fuel, f, args, env, bs) is Some, f, args, env, bs).unwrap()
}

} // verus!
