//! As in the main language, the budget decides only whether a statement
//! finishes, never what it gives.
use vstd::prelude::*;
use crate::ast::binaryop::BinaryOperation;
use crate::ast::model::{SpecAtom, SpecExpression, SpecFunction, SpecStatement};
use crate::arith::trunc_div;
use crate::context::semantics::{pairs, fits_i64};
use crate::genv::script::builtin::BuiltinLibrary;
use crate::genv::script::semantics::{CEnv, Builtins, sev, sev_list, scall, sexec, sexec_list, lib_prefix, call_target,
    param_names, statement_terminates, statement_outcome, expression_terminates, expression_value};
use crate::names::lookup;

verus! {

pub(crate) proof fn lemma_sev_mono<B: BuiltinLibrary>(f1: nat, f2: nat, e: SpecExpression, env: CEnv, bs: Builtins<B>)
    requires
        f1 <= f2,
        sev(f1, e, env, bs) is Some,
    ensures
        sev(f2, e, env, bs) == sev(f1, e, env, bs),
    decreases f1, 0nat,
{
    let g1 = (f1 - 1) as nat;
    let g2 = (f2 - 1) as nat;
    match e {
        SpecExpression::BinaryOperation(_, l, r) => {
            lemma_sev_mono(g1, g2, *l, env, bs);
            if sev(g1, *l, env, bs) matches Some(Ok(_)) {
                lemma_sev_mono(g1, g2, *r, env, bs);
            }
        },
        SpecExpression::Tuple(es) => lemma_sev_list_mono(g1, g2, es, env, bs),
        SpecExpression::FunctionCall(..) | SpecExpression::MethodCall(..) => {
            let (name, args) = call_target(e);
            if lookup(bs, lib_prefix(name)) is None {
                if let Some(func) = lookup(env.funcs, name) {
                    lemma_sev_list_mono(g1, g2, args, env, bs);
                    if let Some(Ok(vals)) = sev_list(g1, args, env, bs) {
                        lemma_scall_mono(g1, g2, func, vals, env, bs);
                    }
                }
            }
        },
        _ => {},
    }
}

proof fn lemma_sev_list_mono<B: BuiltinLibrary>(f1: nat, f2: nat, es: Seq<SpecExpression>, env: CEnv, bs: Builtins<B>)
    requires
        f1 <= f2,
        sev_list(f1, es, env, bs) is Some,
    ensures
        sev_list(f2, es, env, bs) == sev_list(f1, es, env, bs),
    decreases f1, es.len() + 1,
{
    if es.len() > 0 {
        lemma_sev_mono(f1, f2, es[0], env, bs);
        if sev(f1, es[0], env, bs) matches Some(Ok(_)) {
            lemma_sev_list_mono(f1, f2, es.drop_first(), env, bs);
        }
    }
}

proof fn lemma_scall_mono<B: BuiltinLibrary>(f1: nat, f2: nat, f: SpecFunction, args: Seq<SpecExpression>, env: CEnv,
    bs: Builtins<B>)
    requires
        f1 <= f2,
        scall(f1, f, args, env, bs) is Some,
    ensures
        scall(f2, f, args, env, bs) == scall(f1, f, args, env, bs),
    decreases f1, f.body.statements.len() + 2,
{
    if args.len() == f.parameters.len() {
        let local = CEnv {
            vars: env.vars + pairs(param_names(f.parameters), args, args.len() as int),
            funcs: env.funcs,
        };
        lemma_sexec_list_mono(f1, f2, f.body.statements, 0, local, bs);
        if let Some(Ok(local2)) = sexec_list(f1, f.body.statements, 0, local, bs) {
            lemma_sev_mono(f1, f2, f.body.return_expr, local2, bs);
        }
    }
}

proof fn lemma_sexec_list_mono<B: BuiltinLibrary>(f1: nat, f2: nat, ss: Seq<SpecStatement>, i: int, env: CEnv,
    bs: Builtins<B>)
    requires
        f1 <= f2,
        sexec_list(f1, ss, i, env, bs) is Some,
    ensures
        sexec_list(f2, ss, i, env, bs) == sexec_list(f1, ss, i, env, bs),
    decreases f1, ss.len() - i + 1,
{
    if !(i < 0 || i >= ss.len()) {
        lemma_sexec_mono(f1, f2, ss[i], env, bs);
        if let Some(Ok(env1)) = sexec(f1, ss[i], env, bs) {
            lemma_sexec_list_mono(f1, f2, ss, i + 1, env1, bs);
        }
    }
}

proof fn lemma_sexec_mono<B: BuiltinLibrary>(f1: nat, f2: nat, st: SpecStatement, env: CEnv, bs: Builtins<B>)
    requires
        f1 <= f2,
        sexec(f1, st, env, bs) is Some,
    ensures
        sexec(f2, st, env, bs) == sexec(f1, st, env, bs),
    decreases f1, 1nat,
{
    let g1 = (f1 - 1) as nat;
    let g2 = (f2 - 1) as nat;
    match st {
        SpecStatement::VariableDeclaration(_, e) | SpecStatement::Assignment(_, e)
        | SpecStatement::TupleAssignment(_, e) => lemma_sev_mono(g1, g2, e, env, bs),
        SpecStatement::FunctionDefinition(_) => {},
        SpecStatement::FunctionCall(name, args) => {
            if let Some(func) = lookup(env.funcs, name) {
                lemma_sev_list_mono(g1, g2, args, env, bs);
                if let Some(Ok(vals)) = sev_list(g1, args, env, bs) {
                    lemma_scall_mono(g1, g2, func, vals, env, bs);
                }
            }
        },
    }
}

/// Running a statement does not depend on the budget: within any budget in
/// which it finishes, it gives `statement_outcome`.
pub proof fn lemma_statement_any_budget<B: BuiltinLibrary>(fuel: nat, st: SpecStatement, env: CEnv, bs: Builtins<B>)
    requires
        sexec(fuel, st, env, bs) is Some,
    ensures
        statement_terminates(st, env, bs),
        sexec(fuel, st, env, bs) == Some(statement_outcome(st, env, bs)),
{
    let c = choose|fuel: nat| sexec(fuel, st, env, bs) is Some;
    if c <= fuel {
        lemma_sexec_mono(c, fuel, st, env, bs);
    } else {
        lemma_sexec_mono(fuel, c, st, env, bs);
    }
}

/// Evaluation does not depend on the budget: within any budget in which
/// `e` evaluates, it gives `expression_value`.
pub proof fn lemma_expression_any_budget<B: BuiltinLibrary>(fuel: nat, e: SpecExpression, env: CEnv, bs: Builtins<B>)
    requires
        sev(fuel, e, env, bs) is Some,
    ensures
        expression_terminates(e, env, bs),
        sev(fuel, e, env, bs) == Some(expression_value(e, env, bs)),
{
    let c = choose|fuel: nat| sev(fuel, e, env, bs) is Some;
    if c <= fuel {
        lemma_sev_mono(c, fuel, e, env, bs);
    } else {
        lemma_sev_mono(fuel, c, e, env, bs);
    }
}

/// A tuple assignment binds each name to the element at its place where the
/// value is a tuple of the same length (a later repeat of a name wins);
/// otherwise it fails with the message for the mismatch, and binds nothing.
pub proof fn lemma_tuple_assignment<B: BuiltinLibrary>(ns: Seq<Seq<char>>, e: SpecExpression, env: CEnv, bs: Builtins<B>)
    requires
        expression_terminates(e, env, bs),
    ensures
        statement_terminates(SpecStatement::TupleAssignment(ns, e), env, bs),
        statement_outcome(SpecStatement::TupleAssignment(ns, e), env, bs) == match expression_value(e, env, bs) {
            Err(m) => Err(m),
            Ok(SpecExpression::Tuple(vs)) => if ns.len() == vs.len() {
                Ok(CEnv { vars: env.vars + pairs(ns, vs, ns.len() as int), funcs: env.funcs })
            } else {
                Err("Tuple lengths do not match"@)
            },
            Ok(_) => Err::<CEnv, Seq<char>>("Right-hand side is not a tuple"@),
        },
{
    let f = choose|fuel: nat| sev(fuel, e, env, bs) is Some;
    lemma_expression_any_budget(f, e, env, bs);
    let st = SpecStatement::TupleAssignment(ns, e);
    assert(sexec(f + 1, st, env, bs) is Some);
    lemma_statement_any_budget(f + 1, st, env, bs);
}

/// `l op r` on two integers: where `l` evaluates to `a` and `r` to `b`,
/// it evaluates to `a + b`, `a - b`, `a * b`, or `a / b` rounded toward
/// zero, left operand first, wherever that fits in an `i64` (and `b` is not
/// 0 for `/`); `==` and `!=` compare the two integers.
pub proof fn lemma_integer_operations<B: BuiltinLibrary>(op: BinaryOperation, l: SpecExpression, r: SpecExpression,
    a: i64, b: i64, env: CEnv, bs: Builtins<B>)
    requires
        expression_terminates(l, env, bs),
        expression_value(l, env, bs) == Ok::<SpecExpression, Seq<char>>(SpecExpression::Atom(SpecAtom::Integer(a))),
        expression_terminates(r, env, bs),
        expression_value(r, env, bs) == Ok::<SpecExpression, Seq<char>>(SpecExpression::Atom(SpecAtom::Integer(b))),
    ensures
        ({
            let e = SpecExpression::BinaryOperation(op, Box::new(l), Box::new(r));
            let value = |v: int| Ok::<SpecExpression, Seq<char>>(SpecExpression::Atom(SpecAtom::Integer(v as i64)));
            &&& (op is Plus && fits_i64(a + b)) ==> expression_terminates(e, env, bs) && expression_value(e, env, bs) == value(a + b)
            &&& (op is Minus && fits_i64(a - b)) ==> expression_terminates(e, env, bs) && expression_value(e, env, bs) == value(a - b)
            &&& (op is Times && fits_i64(a * b)) ==> expression_terminates(e, env, bs) && expression_value(e, env, bs) == value(a * b)
            &&& (op is Divide && b != 0 && fits_i64(trunc_div(a as int, b as int))) ==>
                expression_terminates(e, env, bs) && expression_value(e, env, bs) == value(trunc_div(a as int, b as int))
            &&& op is Equal ==> expression_terminates(e, env, bs)
                && expression_value(e, env, bs) == Ok::<SpecExpression, Seq<char>>(SpecExpression::Atom(SpecAtom::Boolean(a == b)))
            &&& op is NotEqual ==> expression_terminates(e, env, bs)
                && expression_value(e, env, bs) == Ok::<SpecExpression, Seq<char>>(SpecExpression::Atom(SpecAtom::Boolean(a != b)))
        }),
{
    let e = SpecExpression::BinaryOperation(op, Box::new(l), Box::new(r));
    let fl = choose|f: nat| sev(f, l, env, bs) is Some;
    let fr = choose|f: nat| sev(f, r, env, bs) is Some;
    let fuel: nat = if fl <= fr { fr } else { fl };
    lemma_expression_any_budget(fl, l, env, bs);
    lemma_expression_any_budget(fr, r, env, bs);
    lemma_sev_mono(fl, fuel, l, env, bs);
    lemma_sev_mono(fr, fuel, r, env, bs);
    if sev(fuel + 1, e, env, bs) is Some {
        lemma_expression_any_budget(fuel + 1, e, env, bs);
    }
}

} // verus!
