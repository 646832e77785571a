//! What the evaluator computes, stated over the values of the operands and
//! the arguments: arithmetic takes its left operand first, and a call
//! statement binds its variable arguments in the order they are written.
use vstd::prelude::*;
use crate::ast::atom::Float;
use crate::ast::binaryop::BinaryOperation;
use crate::ast::model::{SpecAtom, SpecExpression, SpecFunction, SpecStatement};
use crate::arith::trunc_div;
use crate::context::semantics::{Env, Libs, ev, ev_list, call_fn, run_step, var_args, pairs, fits_i64,
    terminates, evaluation};
use crate::context::budget::{lemma_ev_mono, lemma_evaluation_any_budget};
use crate::names::lookup;
use crate::package::lib::Library;

verus! {

/// Evaluates `l op r` within a budget large enough for both operands, where
/// each operand evaluates to a value; gives that budget.
proof fn lemma_operands<L: Library>(l: SpecExpression, r: SpecExpression, env: Env, libs: Libs<L>)
    -> (fuel: nat)
    requires
        terminates(l, env, libs),
        evaluation(l, env, libs).0 is Ok,
        terminates(r, evaluation(l, env, libs).1, libs),
        evaluation(r, evaluation(l, env, libs).1, libs).0 is Ok,
    ensures
        ev(fuel, l, env, libs) == Some(evaluation(l, env, libs)),
        ev(fuel, r, evaluation(l, env, libs).1, libs) == Some(evaluation(r, evaluation(l, env, libs).1, libs)),
{
    let env1 = evaluation(l, env, libs).1;
    let fl = choose|f: nat| ev(f, l, env, libs) is Some;
    let fr = choose|f: nat| ev(f, r, env1, libs) is Some;
    let fuel: nat = if fl <= fr { fr } else { fl };
    lemma_evaluation_any_budget(fl, l, env, libs);
    lemma_evaluation_any_budget(fr, r, env1, libs);
    lemma_ev_mono(fl, fuel, l, env, libs);
    lemma_ev_mono(fr, fuel, r, env1, libs);
    fuel
}

/// `+ - * /` on two doubles: where the left operand evaluates to the double
/// `x` and then the right one to the double `y`, `l op r` evaluates to the
/// term `x op y`, with `x` first (for `/`, `x` is the dividend and `y` the
/// divisor), and leaves the variables and functions as the operands left
/// them.
pub proof fn lemma_double_arithmetic<L: Library>(op: BinaryOperation, l: SpecExpression, r: SpecExpression,
    x: Float, y: Float, env: Env, libs: Libs<L>)
    requires
        op is Plus || op is Minus || op is Times || op is Divide,
        terminates(l, env, libs),
        evaluation(l, env, libs).0 == Ok::<SpecExpression, Seq<char>>(SpecExpression::Atom(SpecAtom::Double(x))),
        terminates(r, evaluation(l, env, libs).1, libs),
        evaluation(r, evaluation(l, env, libs).1, libs).0 == Ok::<SpecExpression, Seq<char>>(SpecExpression::Atom(SpecAtom::Double(y))),
    ensures
        terminates(SpecExpression::BinaryOperation(op, Box::new(l), Box::new(r)), env, libs),
        evaluation(SpecExpression::BinaryOperation(op, Box::new(l), Box::new(r)), env, libs) == (
            Ok::<SpecExpression, Seq<char>>(SpecExpression::Atom(SpecAtom::Double(Float::Arith(op, Box::new(x), Box::new(y))))),
            evaluation(r, evaluation(l, env, libs).1, libs).1,
        ),
{
    let e = SpecExpression::BinaryOperation(op, Box::new(l), Box::new(r));
    let fuel = lemma_operands(l, r, env, libs);
    assert(ev(fuel + 1, e, env, libs) is Some);
    lemma_evaluation_any_budget(fuel + 1, e, env, libs);
}

/// `+ - * /` on two integers: where the left operand evaluates to `a` and
/// then the right one to `b`, `l op r` evaluates to `a + b`, `a - b`,
/// `a * b`, or `a / b` rounded toward zero, wherever that fits in an `i64`
/// (and `b` is not 0 for `/`).
pub proof fn lemma_integer_arithmetic<L: Library>(op: BinaryOperation, l: SpecExpression, r: SpecExpression,
    a: i64, b: i64, env: Env, libs: Libs<L>)
    requires
        terminates(l, env, libs),
        evaluation(l, env, libs).0 == Ok::<SpecExpression, Seq<char>>(SpecExpression::Atom(SpecAtom::Integer(a))),
        terminates(r, evaluation(l, env, libs).1, libs),
        evaluation(r, evaluation(l, env, libs).1, libs).0 == Ok::<SpecExpression, Seq<char>>(SpecExpression::Atom(SpecAtom::Integer(b))),
    ensures
        ({
            let e = SpecExpression::BinaryOperation(op, Box::new(l), Box::new(r));
            let after = evaluation(r, evaluation(l, env, libs).1, libs).1;
            let value = |v: int| (Ok::<SpecExpression, Seq<char>>(SpecExpression::Atom(SpecAtom::Integer(v as i64))), after);
            &&& (op is Plus && fits_i64(a + b)) ==> terminates(e, env, libs) && evaluation(e, env, libs) == value(a + b)
            &&& (op is Minus && fits_i64(a - b)) ==> terminates(e, env, libs) && evaluation(e, env, libs) == value(a - b)
            &&& (op is Times && fits_i64(a * b)) ==> terminates(e, env, libs) && evaluation(e, env, libs) == value(a * b)
            &&& (op is Divide && b != 0 && fits_i64(trunc_div(a as int, b as int))) ==>
                terminates(e, env, libs) && evaluation(e, env, libs) == value(trunc_div(a as int, b as int))
        }),
{
    let e = SpecExpression::BinaryOperation(op, Box::new(l), Box::new(r));
    let fuel = lemma_operands(l, r, env, libs);
    if ev(fuel + 1, e, env, libs) is Some {
        lemma_evaluation_any_budget(fuel + 1, e, env, libs);
    }
}

/// The names in `ns` are pairwise different.
pub open spec fn distinct_names(ns: Seq<Seq<char>>) -> bool {
    forall|i: int, j: int| 0 <= i < ns.len() && 0 <= j < ns.len() && i != j ==> ns[i] != ns[j]
}

/// Arguments that are all bare variables list exactly those variables.
proof fn lemma_var_args_all(args: Seq<SpecExpression>, ns: Seq<Seq<char>>)
    requires
        args.len() == ns.len(),
        forall|k: int| 0 <= k < args.len() ==> args[k] == SpecExpression::Atom(SpecAtom::Variable(ns[k])),
    ensures
        var_args(args) == ns,
    decreases args.len(),
{
    if args.len() > 0 {
        lemma_var_args_all(args.drop_last(), ns.drop_last());
        assert(ns =~= ns.drop_last().push(ns.last()));
    }
}

/// After binding the `k`-th of distinct names to the `k`-th value, each name
/// reads its own value, and every other name what it read before.
proof fn lemma_lookup_pairs(base: Seq<(Seq<char>, SpecExpression)>, ns: Seq<Seq<char>>, vs: Seq<SpecExpression>, n: int,
    x: Seq<char>)
    requires
        0 <= n <= ns.len(),
        n <= vs.len(),
        distinct_names(ns),
    ensures
        forall|k: int| 0 <= k < n && ns[k] == x ==> lookup(base + pairs(ns, vs, n), x) == Some(vs[k]),
        (forall|k: int| 0 <= k < n ==> ns[k] != x) ==> lookup(base + pairs(ns, vs, n), x) == lookup(base, x),
    decreases n,
{
    let t = base + pairs(ns, vs, n);
    if n == 0 {
        assert(t =~= base);
    } else {
        lemma_lookup_pairs(base, ns, vs, n - 1, x);
        assert(t.drop_last() =~= base + pairs(ns, vs, n - 1));
        assert(t.last() == (ns[n - 1], vs[n - 1]));
    }
}

/// A call statement `f(v1, ..., vn)` whose arguments are distinct variables
/// and whose function gives a tuple `[r1, ..., rn]` of the same length
/// succeeds and leaves each `vk` holding `rk`, in the order written, and
/// every other variable as the arguments' evaluation left it.
pub proof fn lemma_call_statement_binds_arguments<L: Library>(fuel: nat, name: Seq<char>, args: Seq<SpecExpression>,
    ns: Seq<Seq<char>>, f: SpecFunction, vals: Seq<SpecExpression>, rs: Seq<SpecExpression>, env1: Env, env: Env,
    libs: Libs<L>)
    requires
        args.len() == ns.len(),
        forall|k: int| 0 <= k < args.len() ==> args[k] == SpecExpression::Atom(SpecAtom::Variable(ns[k])),
        distinct_names(ns),
        lookup(env.funcs, name) == Some(f),
        ev_list(fuel, args, env, libs) == Some((Ok::<Seq<SpecExpression>, Seq<char>>(vals), env1)),
        call_fn::<L>(fuel, f, vals, env1.vars) == Some(Ok::<SpecExpression, Seq<char>>(SpecExpression::Tuple(rs))),
        rs.len() == ns.len(),
    ensures
        run_step(fuel, SpecStatement::FunctionCall(name, args), env, libs) matches Some((Ok(()), env2)) && {
            &&& env2.funcs == env1.funcs
            &&& forall|k: int| 0 <= k < ns.len() ==> lookup(env2.vars, #[trigger] ns[k]) == Some(rs[k])
            &&& forall|x: Seq<char>| !ns.contains(x) ==> lookup(env2.vars, x) == lookup(env1.vars, x)
        },
{
    lemma_var_args_all(args, ns);
    let n = ns.len() as int;
    assert forall|k: int| 0 <= k < ns.len() implies lookup(env1.vars + pairs(ns, rs, n), #[trigger] ns[k]) == Some(rs[k]) by {
        lemma_lookup_pairs(env1.vars, ns, rs, n, ns[k]);
    }
    assert forall|x: Seq<char>| !ns.contains(x) implies lookup(env1.vars + pairs(ns, rs, n), x) == lookup(env1.vars, x) by {
        lemma_lookup_pairs(env1.vars, ns, rs, n, x);
        assert forall|k: int| 0 <= k < n implies ns[k] != x by {
            if ns[k] == x {
                assert(ns.contains(x));
            }
        }
    }
}

/// A declaration or an assignment binds its name to the value of its
/// expression, and leaves every other variable as the expression's
/// evaluation left it.
pub proof fn lemma_binding_statement<L: Library>(fuel: nat, n: Seq<char>, e: SpecExpression, v: SpecExpression,
    env1: Env, env: Env, libs: Libs<L>)
    requires
        ev(fuel, e, env, libs) == Some((Ok::<SpecExpression, Seq<char>>(v), env1)),
    ensures
        run_step(fuel, SpecStatement::VariableDeclaration(n, e), env, libs) == run_step(fuel, SpecStatement::Assignment(n, e), env, libs),
        run_step(fuel, SpecStatement::Assignment(n, e), env, libs) matches Some((Ok(()), env2)) && {
            &&& env2.funcs == env1.funcs
            &&& lookup(env2.vars, n) == Some(v)
            &&& forall|x: Seq<char>| x != n ==> lookup(env2.vars, x) == lookup(env1.vars, x)
        },
{
    let t = env1.vars + seq![(n, v)];
    assert(t.drop_last() =~= env1.vars);
}

/// A tuple assignment `(n1, ..., nk) = e` with distinct names, where `e`
/// gives a tuple `[v1, ..., vk]` of the same length, binds each `ni` to
/// `vi`, in the order written.
pub proof fn lemma_tuple_assignment_binds<L: Library>(fuel: nat, ns: Seq<Seq<char>>, e: SpecExpression,
    vs: Seq<SpecExpression>, env1: Env, env: Env, libs: Libs<L>)
    requires
        distinct_names(ns),
        ev(fuel, e, env, libs) == Some((Ok::<SpecExpression, Seq<char>>(SpecExpression::Tuple(vs)), env1)),
        vs.len() == ns.len(),
    ensures
        run_step(fuel, SpecStatement::TupleAssignment(ns, e), env, libs) matches Some((Ok(()), env2)) && {
            &&& env2.funcs == env1.funcs
            &&& forall|k: int| 0 <= k < ns.len() ==> lookup(env2.vars, #[trigger] ns[k]) == Some(vs[k])
            &&& forall|x: Seq<char>| !ns.contains(x) ==> lookup(env2.vars, x) == lookup(env1.vars, x)
        },
{
    let n = ns.len() as int;
    assert forall|k: int| 0 <= k < ns.len() implies lookup(env1.vars + pairs(ns, vs, n), #[trigger] ns[k]) == Some(vs[k]) by {
        lemma_lookup_pairs(env1.vars, ns, vs, n, ns[k]);
    }
    assert forall|x: Seq<char>| !ns.contains(x) implies lookup(env1.vars + pairs(ns, vs, n), x) == lookup(env1.vars, x) by {
        lemma_lookup_pairs(env1.vars, ns, vs, n, x);
        assert forall|k: int| 0 <= k < n implies ns[k] != x by {
            if ns[k] == x {
                assert(ns.contains(x));
            }
        }
    }
}

} // verus!
