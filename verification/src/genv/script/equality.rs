//! Whether values hold doubles, and whether two values are the same.
use vstd::prelude::*;
use crate::ast::atom::{Atom, Float};
use crate::ast::binaryop::BinaryOperation;
use crate::ast::block::Block;
use crate::ast::expression::Expression;
use crate::ast::function::Function;
use crate::ast::parameter::Parameter;
use crate::ast::stmt::Statement;
use crate::ast::model::{SpecAtom, SpecExpression, SpecFunction, SpecParameter, SpecStatement, exprs_view,
    params_view, stmts_view, names_view, lemma_exprs_view, lemma_params_view, lemma_stmts_view,
    lemma_exprs_view_push, lemma_params_view_push, lemma_stmts_view_push};
use crate::text::text_eq;

verus! {

/// Whether a double occurs anywhere in `e`, function bodies included.
pub open spec fn has_double(e: SpecExpression) -> bool
    decreases e,
{
    match e {
        SpecExpression::BinaryOperation(_, l, r) => has_double(*l) || has_double(*r),
        SpecExpression::Atom(a) => a is Double,
        SpecExpression::Function(f) => function_has_double(*f),
        SpecExpression::MethodCall(_, _, args) => list_has_double(args),
        SpecExpression::FunctionCall(_, args) => list_has_double(args),
        SpecExpression::Tuple(es) => list_has_double(es),
    }
}

pub open spec fn list_has_double(s: Seq<SpecExpression>) -> bool
    decreases s,
{
    if s.len() == 0 {
        false
    } else {
        list_has_double(s.drop_last()) || has_double(s.last())
    }
}

pub open spec fn function_has_double(f: SpecFunction) -> bool
    decreases f,
{
    params_have_double(f.parameters) || stmts_have_double(f.body.statements) || has_double(f.body.return_expr)
}

pub open spec fn params_have_double(s: Seq<SpecParameter>) -> bool
    decreases s,
{
    if s.len() == 0 {
        false
    } else {
        params_have_double(s.drop_last()) || match s.last().default_value {
            Some(e) => has_double(e),
            None => false,
        }
    }
}

pub open spec fn stmts_have_double(s: Seq<SpecStatement>) -> bool
    decreases s,
{
    if s.len() == 0 {
        false
    } else {
        stmts_have_double(s.drop_last()) || stmt_has_double(s.last())
    }
}

pub open spec fn stmt_has_double(st: SpecStatement) -> bool
    decreases st,
{
    match st {
        SpecStatement::VariableDeclaration(_, e) => has_double(e),
        SpecStatement::Assignment(_, e) => has_double(e),
        SpecStatement::TupleAssignment(_, e) => has_double(e),
        SpecStatement::FunctionDefinition(f) => function_has_double(f),
        SpecStatement::FunctionCall(_, args) => list_has_double(args),
    }
}

/// Whether a double occurs in `e`.
pub fn holds_double(e: &Expression) -> (r: bool)
    ensures
        r == has_double(e@),
    decreases e,
{
    match e {
        Expression::BinaryOperation(_, l, r) => holds_double(l) || holds_double(r),
        Expression::Atom(a) => match a {
            Atom::Double(_) => true,
            _ => false,
        },
        Expression::Function(f) => function_holds_double(f),
        Expression::MethodCall(_, _, args) => list_holds_double(args),
        Expression::FunctionCall(_, args) => list_holds_double(args),
        Expression::Tuple(es) => list_holds_double(es),
    }
}

fn list_holds_double(v: &Vec<Expression>) -> (r: bool)
    ensures
        r == list_has_double(exprs_view(v@)),
    decreases v,
{
    let mut i: usize = 0;
    assert(v@.take(0) =~= Seq::<Expression>::empty());
    while i < v.len()
        invariant
            i <= v.len(),
            !list_has_double(exprs_view(v@.take(i as int))),
        decreases v.len() - i,
    {
        assert(decreases_to!(v => v@[i as int]));
        proof {
            lemma_exprs_view_push(v@.take(i as int), v@[i as int]);
            assert(v@.take(i as int).push(v@[i as int]) =~= v@.take(i + 1));
            assert(exprs_view(v@.take(i + 1)).drop_last() =~= exprs_view(v@.take(i as int)));
        }
        if holds_double(&v[i]) {
            proof { lemma_prefix_double(v@, i as int); }
            return true;
        }
        i = i + 1;
    }
    assert(v@.take(i as int) =~= v@);
    false
}

/// A double in a prefix is a double in the whole list.
proof fn lemma_prefix_double(v: Seq<Expression>, i: int)
    requires
        0 <= i < v.len(),
        list_has_double(exprs_view(v.take(i + 1))),
    ensures
        list_has_double(exprs_view(v)),
    decreases v.len() - i,
{
    if i + 1 < v.len() {
        lemma_exprs_view_push(v.take(i + 1), v[i + 1]);
        assert(v.take(i + 1).push(v[i + 1]) =~= v.take(i + 2));
        assert(exprs_view(v.take(i + 2)).drop_last() =~= exprs_view(v.take(i + 1)));
        lemma_prefix_double(v, i + 1);
    } else {
        assert(v.take(i + 1) =~= v);
    }
}

fn function_holds_double(f: &Function) -> (r: bool)
    ensures
        r == function_has_double(f@),
    decreases f,
{
    params_hold_double(&f.parameters) || stmts_hold_double(&f.body.statements) || holds_double(&f.body.return_expr)
}

fn params_hold_double(v: &Vec<Parameter>) -> (r: bool)
    ensures
        r == params_have_double(params_view(v@)),
    decreases v,
{
    let mut i: usize = 0;
    assert(v@.take(0) =~= Seq::<Parameter>::empty());
    while i < v.len()
        invariant
            i <= v.len(),
            !params_have_double(params_view(v@.take(i as int))),
        decreases v.len() - i,
    {
        assert(decreases_to!(v => v@[i as int]));
        proof {
            lemma_params_view_push(v@.take(i as int), v@[i as int]);
            assert(v@.take(i as int).push(v@[i as int]) =~= v@.take(i + 1));
            assert(params_view(v@.take(i + 1)).drop_last() =~= params_view(v@.take(i as int)));
        }
        let found = match &v[i].default_value {
            Some(e) => {
                assert(decreases_to!(v@[i as int] => v@[i as int].default_value));
                holds_double(e)
            },
            None => false,
        };
        if found {
            proof { lemma_prefix_params(v@, i as int); }
            return true;
        }
        i = i + 1;
    }
    assert(v@.take(i as int) =~= v@);
    false
}

proof fn lemma_prefix_params(v: Seq<Parameter>, i: int)
    requires
        0 <= i < v.len(),
        params_have_double(params_view(v.take(i + 1))),
    ensures
        params_have_double(params_view(v)),
    decreases v.len() - i,
{
    if i + 1 < v.len() {
        lemma_params_view_push(v.take(i + 1), v[i + 1]);
        assert(v.take(i + 1).push(v[i + 1]) =~= v.take(i + 2));
        assert(params_view(v.take(i + 2)).drop_last() =~= params_view(v.take(i + 1)));
        lemma_prefix_params(v, i + 1);
    } else {
        assert(v.take(i + 1) =~= v);
    }
}

fn stmts_hold_double(v: &Vec<Statement>) -> (r: bool)
    ensures
        r == stmts_have_double(stmts_view(v@)),
    decreases v,
{
    let mut i: usize = 0;
    assert(v@.take(0) =~= Seq::<Statement>::empty());
    while i < v.len()
        invariant
            i <= v.len(),
            !stmts_have_double(stmts_view(v@.take(i as int))),
        decreases v.len() - i,
    {
        assert(decreases_to!(v => v@[i as int]));
        proof {
            lemma_stmts_view_push(v@.take(i as int), v@[i as int]);
            assert(v@.take(i as int).push(v@[i as int]) =~= v@.take(i + 1));
            assert(stmts_view(v@.take(i + 1)).drop_last() =~= stmts_view(v@.take(i as int)));
        }
        if stmt_holds_double(&v[i]) {
            proof { lemma_prefix_stmts(v@, i as int); }
            return true;
        }
        i = i + 1;
    }
    assert(v@.take(i as int) =~= v@);
    false
}

proof fn lemma_prefix_stmts(v: Seq<Statement>, i: int)
    requires
        0 <= i < v.len(),
        stmts_have_double(stmts_view(v.take(i + 1))),
    ensures
        stmts_have_double(stmts_view(v)),
    decreases v.len() - i,
{
    if i + 1 < v.len() {
        lemma_stmts_view_push(v.take(i + 1), v[i + 1]);
        assert(v.take(i + 1).push(v[i + 1]) =~= v.take(i + 2));
        assert(stmts_view(v.take(i + 2)).drop_last() =~= stmts_view(v.take(i + 1)));
        lemma_prefix_stmts(v, i + 1);
    } else {
        assert(v.take(i + 1) =~= v);
    }
}

fn stmt_holds_double(s: &Statement) -> (r: bool)
    ensures
        r == stmt_has_double(s@),
    decreases s,
{
    match s {
        Statement::VariableDeclaration(_, e) => holds_double(e),
        Statement::Assignment(_, e) => holds_double(e),
        Statement::TupleAssignment(_, e) => holds_double(e),
        Statement::FunctionDefinition(f) => function_holds_double(f),
        Statement::FunctionCall(_, args) => list_holds_double(args),
    }
}

/// Whether two doubles are the same computation.
fn same_float(a: &Float, b: &Float) -> (r: bool)
    ensures
        r == (*a == *b),
    decreases a,
{
    match (a, b) {
        (Float::Bits(x), Float::Bits(y)) => *x == *y,
        (Float::Arith(o1, l1, r1), Float::Arith(o2, l2, r2)) => same_op(*o1, *o2) && same_float(l1, l2) && same_float(r1, r2),
        (Float::Abs(x), Float::Abs(y)) => same_float(x, y),
        (Float::FromInt(x), Float::FromInt(y)) => *x == *y,
        _ => false,
    }
}

fn same_op(a: BinaryOperation, b: BinaryOperation) -> (r: bool)
    ensures
        r == (a == b),
{
    match (a, b) {
        (BinaryOperation::Plus, BinaryOperation::Plus) => true,
        (BinaryOperation::Minus, BinaryOperation::Minus) => true,
        (BinaryOperation::Times, BinaryOperation::Times) => true,
        (BinaryOperation::Divide, BinaryOperation::Divide) => true,
        (BinaryOperation::Equal, BinaryOperation::Equal) => true,
        (BinaryOperation::NotEqual, BinaryOperation::NotEqual) => true,
        _ => false,
    }
}

fn same_text(a: &String, b: &String) -> (r: bool)
    ensures
        r == (a@ == b@),
{
    text_eq(a.as_str(), b.as_str())
}

fn same_atom(a: &Atom, b: &Atom) -> (r: bool)
    ensures
        r == (a@ == b@),
{
    match (a, b) {
        (Atom::String(x), Atom::String(y)) => same_text(x, y),
        (Atom::Variable(x), Atom::Variable(y)) => same_text(x, y),
        (Atom::Boolean(x), Atom::Boolean(y)) => *x == *y,
        (Atom::Integer(x), Atom::Integer(y)) => *x == *y,
        (Atom::Double(x), Atom::Double(y)) => same_float(x, y),
        _ => false,
    }
}

/// Whether two expressions are the same, piece by piece.
pub fn same_value(a: &Expression, b: &Expression) -> (r: bool)
    ensures
        r == (a@ == b@),
    decreases a,
{
    match (a, b) {
        (Expression::BinaryOperation(o1, l1, r1), Expression::BinaryOperation(o2, l2, r2)) =>
            same_op(*o1, *o2) && same_value(l1, l2) && same_value(r1, r2),
        (Expression::Atom(x), Expression::Atom(y)) => same_atom(x, y),
        (Expression::Function(f), Expression::Function(g)) => same_function(f, g),
        (Expression::MethodCall(o1, m1, a1), Expression::MethodCall(o2, m2, a2)) =>
            same_text(o1, o2) && same_text(m1, m2) && same_list(a1, a2),
        (Expression::FunctionCall(n1, a1), Expression::FunctionCall(n2, a2)) => same_text(n1, n2) && same_list(a1, a2),
        (Expression::Tuple(e1), Expression::Tuple(e2)) => same_list(e1, e2),
        _ => false,
    }
}

fn same_list(v: &Vec<Expression>, w: &Vec<Expression>) -> (r: bool)
    ensures
        r == (exprs_view(v@) == exprs_view(w@)),
    decreases v,
{
    proof {
        lemma_exprs_view(v@);
        lemma_exprs_view(w@);
    }
    if v.len() != w.len() {
        return false;
    }
    let mut i: usize = 0;
    while i < v.len()
        invariant
            i <= v.len(),
            v.len() == w.len(),
            exprs_view(v@).len() == v.len(),
            exprs_view(w@).len() == w.len(),
            forall|j: int| 0 <= j < v.len() ==> #[trigger] exprs_view(v@)[j] == v@[j]@,
            forall|j: int| 0 <= j < w.len() ==> #[trigger] exprs_view(w@)[j] == w@[j]@,
            forall|j: int| 0 <= j < i ==> #[trigger] exprs_view(v@)[j] == exprs_view(w@)[j],
        decreases v.len() - i,
    {
        assert(decreases_to!(v => v@[i as int]));
        if !same_value(&v[i], &w[i]) {
            assert(exprs_view(v@)[i as int] != exprs_view(w@)[i as int]);
            return false;
        }
        i = i + 1;
    }
    assert(exprs_view(v@) =~= exprs_view(w@));
    true
}

fn same_function(f: &Function, g: &Function) -> (r: bool)
    ensures
        r == (f@ == g@),
    decreases f,
{
    same_text(&f.name, &g.name) && same_params(&f.parameters, &g.parameters) && same_block(&f.body, &g.body)
}

fn same_block(a: &Block, b: &Block) -> (r: bool)
    ensures
        r == (a@ == b@),
    decreases a,
{
    same_stmts(&a.statements, &b.statements) && same_value(&a.return_expr, &b.return_expr)
}

fn same_param(p: &Parameter, q: &Parameter) -> (r: bool)
    ensures
        r == (p@ == q@),
    decreases p,
{
    if !same_text(&p.name, &q.name) {
        return false;
    }
    match (&p.default_value, &q.default_value) {
        (Some(x), Some(y)) => {
            assert(decreases_to!(p => p.default_value));
            same_value(x, y)
        },
        (None, None) => true,
        _ => false,
    }
}

fn same_params(v: &Vec<Parameter>, w: &Vec<Parameter>) -> (r: bool)
    ensures
        r == (params_view(v@) == params_view(w@)),
    decreases v,
{
    proof {
        lemma_params_view(v@);
        lemma_params_view(w@);
    }
    if v.len() != w.len() {
        return false;
    }
    let mut i: usize = 0;
    while i < v.len()
        invariant
            i <= v.len(),
            v.len() == w.len(),
            params_view(v@).len() == v.len(),
            params_view(w@).len() == w.len(),
            forall|j: int| 0 <= j < v.len() ==> #[trigger] params_view(v@)[j] == v@[j]@,
            forall|j: int| 0 <= j < w.len() ==> #[trigger] params_view(w@)[j] == w@[j]@,
            forall|j: int| 0 <= j < i ==> #[trigger] params_view(v@)[j] == params_view(w@)[j],
        decreases v.len() - i,
    {
        assert(decreases_to!(v => v@[i as int]));
        if !same_param(&v[i], &w[i]) {
            assert(params_view(v@)[i as int] != params_view(w@)[i as int]);
            return false;
        }
        i = i + 1;
    }
    assert(params_view(v@) =~= params_view(w@));
    true
}

fn same_names(v: &Vec<String>, w: &Vec<String>) -> (r: bool)
    ensures
        r == (names_view(v@) == names_view(w@)),
{
    if v.len() != w.len() {
        assert(names_view(v@).len() != names_view(w@).len());
        return false;
    }
    let mut i: usize = 0;
    while i < v.len()
        invariant
            i <= v.len(),
            v.len() == w.len(),
            forall|j: int| 0 <= j < i ==> #[trigger] names_view(v@)[j] == names_view(w@)[j],
        decreases v.len() - i,
    {
        if !same_text(&v[i], &w[i]) {
            assert(names_view(v@)[i as int] != names_view(w@)[i as int]);
            return false;
        }
        i = i + 1;
    }
    assert(names_view(v@) =~= names_view(w@));
    true
}

fn same_stmts(v: &Vec<Statement>, w: &Vec<Statement>) -> (r: bool)
    ensures
        r == (stmts_view(v@) == stmts_view(w@)),
    decreases v,
{
    proof {
        lemma_stmts_view(v@);
        lemma_stmts_view(w@);
    }
    if v.len() != w.len() {
        return false;
    }
    let mut i: usize = 0;
    while i < v.len()
        invariant
            i <= v.len(),
            v.len() == w.len(),
            stmts_view(v@).len() == v.len(),
            stmts_view(w@).len() == w.len(),
            forall|j: int| 0 <= j < v.len() ==> #[trigger] stmts_view(v@)[j] == v@[j]@,
            forall|j: int| 0 <= j < w.len() ==> #[trigger] stmts_view(w@)[j] == w@[j]@,
            forall|j: int| 0 <= j < i ==> #[trigger] stmts_view(v@)[j] == stmts_view(w@)[j],
        decreases v.len() - i,
    {
        assert(decreases_to!(v => v@[i as int]));
        if !same_stmt(&v[i], &w[i]) {
            assert(stmts_view(v@)[i as int] != stmts_view(w@)[i as int]);
            return false;
        }
        i = i + 1;
    }
    assert(stmts_view(v@) =~= stmts_view(w@));
    true
}

fn same_stmt(s: &Statement, t: &Statement) -> (r: bool)
    ensures
        r == (s@ == t@),
    decreases s,
{
    match (s, t) {
        (Statement::VariableDeclaration(n1, e1), Statement::VariableDeclaration(n2, e2)) => same_text(n1, n2) && same_value(e1, e2),
        (Statement::Assignment(n1, e1), Statement::Assignment(n2, e2)) => same_text(n1, n2) && same_value(e1, e2),
        (Statement::TupleAssignment(n1, e1), Statement::TupleAssignment(n2, e2)) => same_names(n1, n2) && same_value(e1, e2),
        (Statement::FunctionDefinition(f), Statement::FunctionDefinition(g)) => same_function(f, g),
        (Statement::FunctionCall(n1, a1), Statement::FunctionCall(n2, a2)) => same_text(n1, n2) && same_list(a1, a2),
        _ => false,
    }
}

} // verus!
