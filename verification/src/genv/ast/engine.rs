//! Evaluates parsed expressions over a table of `i32` variables.
use vstd::prelude::*;
use crate::genv::ast::paser::{Expr, BinOp, SpecExpr, exprs_view};
use crate::names::{NameMap, lemma_lookup_push};
use crate::arith::{trunc_div, quotient_i32};

verus! {

/// What an operator gives on two `i32` values; `None` where the machine
/// operation overflows or divides by zero, where evaluation panics.
pub open spec fn arith(op: BinOp, a: i32, b: i32) -> Option<i32> {
    let v: int = match op {
        BinOp::Add => a + b,
        BinOp::Sub => a - b,
        BinOp::Mul => a * b,
        BinOp::Div => if b == 0 { 0 } else { trunc_div(a as int, b as int) },
    };
    if (op is Div && b == 0) || v < i32::MIN || v > i32::MAX {
        None
    } else {
        Some(v as i32)
    }
}

/// The value of an expression and the variables after it; an unknown
/// variable reads as 0, and an assignment binds the name to its value.
/// `None` where an operation overflows or divides by zero.
pub open spec fn eval(e: SpecExpr, env: Map<Seq<char>, i32>) -> Option<(i32, Map<Seq<char>, i32>)>
    decreases e,
{
    match e {
        SpecExpr::Number(n) => Some((n, env)),
        SpecExpr::Variable(name) => Some((if env.contains_key(name) { env[name] } else { 0 }, env)),
        SpecExpr::BinaryOp(l, op, r) => match eval(*l, env) {
            Some((a, env1)) => match eval(*r, env1) {
                Some((b, env2)) => match arith(op, a, b) {
                    Some(v) => Some((v, env2)),
                    None => None,
                },
                None => None,
            },
            None => None,
        },
        SpecExpr::Assignment(name, x) => match eval(*x, env) {
            Some((v, env1)) => Some((v, env1.insert(name, v))),
            None => None,
        },
    }
}

/// The variables after evaluating the expressions in order.
pub open spec fn eval_all(es: Seq<SpecExpr>, env: Map<Seq<char>, i32>) -> Option<Map<Seq<char>, i32>>
    decreases es.len(),
{
    if es.len() == 0 {
        Some(env)
    } else {
        match eval(es[0], env) {
            Some((_, env1)) => eval_all(es.drop_first(), env1),
            None => None,
        }
    }
}

pub struct Engine {
    variables: NameMap<i32>,
}

fn apply(op: BinOp, a: i32, b: i32) -> (r: i32)
    requires
        arith(op, a, b) is Some,
    ensures
        arith(op, a, b) == Some(r),
{
    match op {
        BinOp::Add => a + b,
        BinOp::Sub => a - b,
        BinOp::Mul => a * b,
        BinOp::Div => {
            if a == i32::MIN && b == -1 {
                assert(trunc_div(a as int, b as int) == 2147483648int);
            }
            quotient_i32(a, b)
        },
    }
}

impl Engine {
    /// The variables, by name.
    pub closed spec fn env(&self) -> Map<Seq<char>, i32> {
        self.variables.as_map()
    }

    pub fn new() -> (e: Self)
        ensures
            e.env() == Map::<Seq<char>, i32>::empty(),
    {
        let e = Engine { variables: NameMap::new() };
        assert(e.env() =~= Map::<Seq<char>, i32>::empty());
        e
    }

    /// Evaluates the expressions in order, keeping their assignments: only
    /// the names that they assign change, and each of those is bound.
    pub fn evaluate(&mut self, exprs: Vec<Expr>)
        requires
            eval_all(exprs_view(exprs@), old(self).env()) is Some,
        ensures
            eval_all(exprs_view(exprs@), old(self).env()) == Some(final(self).env()),
            changes_only(old(self).env(), final(self).env(), assigned_all(exprs_view(exprs@))),
    {
        let ghost es = exprs_view(exprs@);
        proof { lemma_evaluate_changes_only_assigned(es, self.env()); }
        let mut i: usize = 0;
        assert(es.skip(0) =~= es);
        while i < exprs.len()
            invariant
                i <= exprs.len(),
                eval_all(es, old(self).env()) is Some,
                es == exprs_view(exprs@),
                eval_all(es, old(self).env()) == eval_all(es.skip(i as int), self.env()),
            decreases exprs.len() - i,
        {
            assert(es.skip(i as int)[0] == exprs@[i as int]@);
            assert(es.skip(i as int).drop_first() =~= es.skip(i + 1));
            self.eval_expr(&exprs[i]);
            i = i + 1;
        }
        assert(es.skip(i as int) =~= Seq::<SpecExpr>::empty());
    }

    /// The value of the variable `name`, if it has been assigned.
    pub fn get_variable(&self, name: &str) -> (r: Option<i32>)
        ensures
            r == (if self.env().contains_key(name@) { Some(self.env()[name@]) } else { None::<i32> }),
    {
        match self.variables.get(name) {
            Some(v) => Some(*v),
            None => None,
        }
    }

    fn eval_expr(&mut self, expr: &Expr) -> (r: i32)
        requires
            eval(expr@, old(self).env()) is Some,
        ensures
            eval(expr@, old(self).env()) == Some((r, final(self).env())),
        decreases expr,
    {
        match expr {
            Expr::Number(n) => *n,
            Expr::Variable(name) => {
                match self.variables.get(name.as_str()) {
                    Some(v) => *v,
                    None => 0,
                }
            },
            Expr::BinaryOp(lhs, op, rhs) => {
                let lhs_val = self.eval_expr(lhs);
                let rhs_val = self.eval_expr(rhs);
                apply(*op, lhs_val, rhs_val)
            },
            Expr::Assignment(name, e) => {
                let val = self.eval_expr(e);
                let ghost before = self.variables;
                self.variables.insert(name.clone(), val);
                proof { lemma_insert_env(before, self.variables, name@, val); }
                val
            },
        }
    }
}

proof fn lemma_insert_env(before: NameMap<i32>, after: NameMap<i32>, k: Seq<char>, v: i32)
    requires
        after.bindings() == before.bindings().push((k, v)),
    ensures
        after.as_map() == before.as_map().insert(k, v),
{
    assert forall|j: Seq<char>| #[trigger] after.get_spec(j) == if j == k { Some(v) } else { before.get_spec(j) } by {
        lemma_lookup_push(before.bindings(), k, v, j);
    }
    assert(after.as_map() =~= before.as_map().insert(k, v));
}

/// Evaluating one list of expressions and then another is evaluating the
/// two lists joined, so a script may be fed to an engine in pieces.
pub proof fn lemma_eval_all_append(a: Seq<SpecExpr>, b: Seq<SpecExpr>, env: Map<Seq<char>, i32>)
    ensures
        eval_all(a + b, env) == match eval_all(a, env) {
            Some(mid) => eval_all(b, mid),
            None => None,
        },
    decreases a.len(),
{
    if a.len() > 0 {
        assert((a + b).drop_first() =~= a.drop_first() + b);
        assert((a + b)[0] == a[0]);
        if let Some((_, env1)) = eval(a[0], env) {
            lemma_eval_all_append(a.drop_first(), b, env1);
        }
    } else {
        assert(a + b =~= b);
    }
}

/// After an assignment the name holds the assigned value, which is also the
/// value of the assignment itself; no other variable changes except through
/// the assigned expression.
pub proof fn lemma_assignment_binds(name: Seq<char>, x: SpecExpr, env: Map<Seq<char>, i32>)
    ensures
        eval(SpecExpr::Assignment(name, Box::new(x)), env) == match eval(x, env) {
            Some((v, env1)) => Some((v, env1.insert(name, v))),
            None => None,
        },
        eval(SpecExpr::Assignment(name, Box::new(x)), env) matches Some((v, env2)) ==>
            env2.contains_key(name) && env2[name] == v,
{
}

/// Reading a variable changes nothing and gives its value, or 0 when it has
/// never been assigned.
pub proof fn lemma_variable_reads(name: Seq<char>, env: Map<Seq<char>, i32>)
    ensures
        eval(SpecExpr::Variable(name), env) == Some((if env.contains_key(name) { env[name] } else { 0i32 }, env)),
{
}

/// The names that an expression assigns, at any depth.
pub open spec fn assigned(e: SpecExpr) -> Set<Seq<char>>
    decreases e,
{
    match e {
        SpecExpr::Number(_) | SpecExpr::Variable(_) => Set::empty(),
        SpecExpr::BinaryOp(l, _, r) => assigned(*l).union(assigned(*r)),
        SpecExpr::Assignment(x, v) => assigned(*v).insert(x),
    }
}

/// The names that a list of expressions assigns.
pub open spec fn assigned_all(es: Seq<SpecExpr>) -> Set<Seq<char>>
    decreases es.len(),
{
    if es.len() == 0 {
        Set::empty()
    } else {
        assigned(es[0]).union(assigned_all(es.drop_first()))
    }
}

/// `after` differs from `before` only at `names`, each of which it binds,
/// and keeps every name `before` binds.
pub open spec fn changes_only(before: Map<Seq<char>, i32>, after: Map<Seq<char>, i32>, names: Set<Seq<char>>) -> bool {
    &&& forall|y: Seq<char>| !names.contains(y) ==> (#[trigger] after.contains_key(y) == before.contains_key(y))
    &&& forall|y: Seq<char>| !names.contains(y) && before.contains_key(y) ==> #[trigger] after[y] == before[y]
    &&& forall|x: Seq<char>| names.contains(x) ==> #[trigger] after.contains_key(x)
    &&& forall|k: Seq<char>| before.contains_key(k) ==> #[trigger] after.contains_key(k)
}

proof fn lemma_eval_changes(e: SpecExpr, env: Map<Seq<char>, i32>)
    ensures
        eval(e, env) matches Some((_, env2)) ==> changes_only(env, env2, assigned(e)),
    decreases e,
{
    match e {
        SpecExpr::BinaryOp(l, _, r) => {
            lemma_eval_changes(*l, env);
            if let Some((_, env1)) = eval(*l, env) {
                lemma_eval_changes(*r, env1);
            }
        },
        SpecExpr::Assignment(x, v) => {
            lemma_eval_changes(*v, env);
        },
        _ => {},
    }
}

/// Evaluating expressions changes only the names they assign, and binds
/// each of those.
pub proof fn lemma_evaluate_changes_only_assigned(es: Seq<SpecExpr>, env: Map<Seq<char>, i32>)
    ensures
        eval_all(es, env) matches Some(env2) ==> changes_only(env, env2, assigned_all(es)),
    decreases es.len(),
{
    if es.len() > 0 {
        lemma_eval_changes(es[0], env);
        if let Some((_, env1)) = eval(es[0], env) {
            lemma_evaluate_changes_only_assigned(es.drop_first(), env1);
        }
    }
}

/// Whether evaluating `e` reaches an operation that divides by zero or
/// whose result leaves `i32`, with each operand taken at the value it
/// evaluates to.
pub open spec fn faults(e: SpecExpr, env: Map<Seq<char>, i32>) -> bool
    decreases e,
{
    match e {
        SpecExpr::Number(_) | SpecExpr::Variable(_) => false,
        SpecExpr::BinaryOp(l, op, r) => faults(*l, env) || match eval(*l, env) {
            Some((a, env1)) => faults(*r, env1) || match eval(*r, env1) {
                Some((b, _)) => arith(op, a, b) is None,
                None => true,
            },
            None => true,
        },
        SpecExpr::Assignment(_, x) => faults(*x, env),
    }
}

/// Evaluation is defined exactly where no operation divides by zero or
/// leaves `i32`: then evaluating an expression does not panic.
pub proof fn lemma_eval_defined_unless_faults(e: SpecExpr, env: Map<Seq<char>, i32>)
    ensures
        eval(e, env) is Some <==> !faults(e, env),
    decreases e,
{
    match e {
        SpecExpr::BinaryOp(l, _, r) => {
            lemma_eval_defined_unless_faults(*l, env);
            if let Some((_, env1)) = eval(*l, env) {
                lemma_eval_defined_unless_faults(*r, env1);
            }
        },
        SpecExpr::Assignment(_, x) => lemma_eval_defined_unless_faults(*x, env),
        _ => {},
    }
}

/// `l op r` evaluates `l`, then `r` in the variables that `l` left, and
/// combines the two values as `i32` arithmetic does, left operand first:
/// `a + b`, `a - b` (negative where `a < b`), `a * b`, and `a / b` rounded
/// toward zero, wherever the result fits in an `i32` (and `b` is not 0 for
/// `/`); elsewhere evaluation stops.
pub proof fn lemma_binary_op_values(l: SpecExpr, op: BinOp, r: SpecExpr, a: i32, b: i32,
    env: Map<Seq<char>, i32>, env1: Map<Seq<char>, i32>, env2: Map<Seq<char>, i32>)
    requires
        eval(l, env) == Some((a, env1)),
        eval(r, env1) == Some((b, env2)),
    ensures
        ({
            let v: int = match op {
                BinOp::Add => a + b,
                BinOp::Sub => a - b,
                BinOp::Mul => a * b,
                BinOp::Div => trunc_div(a as int, b as int),
            };
            eval(SpecExpr::BinaryOp(Box::new(l), op, Box::new(r)), env) ==
                if (op is Div && b == 0) || v < i32::MIN || v > i32::MAX { None } else { Some((v as i32, env2)) }
        }),
{
}

} // verus!
