//! The syntax tree as mathematical values (names by their characters,
//! lists as sequences), and exact copies of syntax trees.
use vstd::prelude::*;
use crate::ast::atom::{Atom, Float};
use crate::ast::binaryop::BinaryOperation;
use crate::ast::block::Block;
use crate::ast::expression::Expression;
use crate::ast::function::Function;
use crate::ast::parameter::Parameter;
use crate::ast::stmt::Statement;

verus! {

pub enum SpecAtom {
    String(Seq<char>),
    Variable(Seq<char>),
    Boolean(bool),
    Integer(i64),
    Double(Float),
}

pub enum SpecExpression {
    BinaryOperation(BinaryOperation, Box<SpecExpression>, Box<SpecExpression>),
    Atom(SpecAtom),
    Function(Box<SpecFunction>),
    MethodCall(Seq<char>, Seq<char>, Seq<SpecExpression>),
    FunctionCall(Seq<char>, Seq<SpecExpression>),
    Tuple(Seq<SpecExpression>),
}

pub struct SpecFunction {
    pub name: Seq<char>,
    pub parameters: Seq<SpecParameter>,
    pub body: SpecBlock,
}

pub struct SpecParameter {
    pub name: Seq<char>,
    pub default_value: Option<SpecExpression>,
}

pub struct SpecBlock {
    pub statements: Seq<SpecStatement>,
    pub return_expr: SpecExpression,
}

pub enum SpecStatement {
    VariableDeclaration(Seq<char>, SpecExpression),
    Assignment(Seq<char>, SpecExpression),
    TupleAssignment(Seq<Seq<char>>, SpecExpression),
    FunctionDefinition(SpecFunction),
    FunctionCall(Seq<char>, Seq<SpecExpression>),
}

pub open spec fn atom_view(a: Atom) -> SpecAtom {
    match a {
        Atom::String(s) => SpecAtom::String(s@),
        Atom::Variable(s) => SpecAtom::Variable(s@),
        Atom::Boolean(b) => SpecAtom::Boolean(b),
        Atom::Integer(i) => SpecAtom::Integer(i),
        Atom::Double(f) => SpecAtom::Double(f),
    }
}

/// The names of a list of strings, by their characters.
pub open spec fn names_view(s: Seq<String>) -> Seq<Seq<char>> {
    s.map_values(|n: String| n@)
}

pub open spec fn expr_view(e: Expression) -> SpecExpression
    decreases e,
{
    match e {
        Expression::BinaryOperation(op, l, r) => SpecExpression::BinaryOperation(op, Box::new(expr_view(*l)), Box::new(expr_view(*r))),
        Expression::Atom(a) => SpecExpression::Atom(atom_view(a)),
        Expression::Function(f) => SpecExpression::Function(Box::new(function_view(*f))),
        Expression::MethodCall(o, m, args) => SpecExpression::MethodCall(o@, m@, exprs_view(args@)),
        Expression::FunctionCall(n, args) => SpecExpression::FunctionCall(n@, exprs_view(args@)),
        Expression::Tuple(es) => SpecExpression::Tuple(exprs_view(es@)),
    }
}

pub open spec fn exprs_view(s: Seq<Expression>) -> Seq<SpecExpression>
    decreases s,
{
    if s.len() == 0 {
        Seq::empty()
    } else {
        exprs_view(s.drop_last()).push(expr_view(s.last()))
    }
}

pub open spec fn function_view(f: Function) -> SpecFunction
    decreases f,
{
    SpecFunction { name: f.name@, parameters: params_view(f.parameters@), body: block_view(f.body) }
}

pub open spec fn params_view(s: Seq<Parameter>) -> Seq<SpecParameter>
    decreases s,
{
    if s.len() == 0 {
        Seq::empty()
    } else {
        params_view(s.drop_last()).push(param_view(s.last()))
    }
}

pub open spec fn param_view(p: Parameter) -> SpecParameter
    decreases p,
{
    SpecParameter {
        name: p.name@,
        default_value: match p.default_value {
            Some(e) => Some(expr_view(e)),
            None => None,
        },
    }
}

pub open spec fn block_view(b: Block) -> SpecBlock
    decreases b,
{
    SpecBlock { statements: stmts_view(b.statements@), return_expr: expr_view(b.return_expr) }
}

pub open spec fn stmts_view(s: Seq<Statement>) -> Seq<SpecStatement>
    decreases s,
{
    if s.len() == 0 {
        Seq::empty()
    } else {
        stmts_view(s.drop_last()).push(stmt_view(s.last()))
    }
}

pub open spec fn stmt_view(s: Statement) -> SpecStatement
    decreases s,
{
    match s {
        Statement::VariableDeclaration(n, e) => SpecStatement::VariableDeclaration(n@, expr_view(e)),
        Statement::Assignment(n, e) => SpecStatement::Assignment(n@, expr_view(e)),
        Statement::TupleAssignment(ns, e) => SpecStatement::TupleAssignment(names_view(ns@), expr_view(e)),
        Statement::FunctionDefinition(f) => SpecStatement::FunctionDefinition(function_view(f)),
        Statement::FunctionCall(n, args) => SpecStatement::FunctionCall(n@, exprs_view(args@)),
    }
}

impl View for Atom {
    type V = SpecAtom;

    open spec fn view(&self) -> SpecAtom {
        atom_view(*self)
    }
}

impl View for Expression {
    type V = SpecExpression;

    open spec fn view(&self) -> SpecExpression {
        expr_view(*self)
    }
}

impl View for Function {
    type V = SpecFunction;

    open spec fn view(&self) -> SpecFunction {
        function_view(*self)
    }
}

impl View for Parameter {
    type V = SpecParameter;

    open spec fn view(&self) -> SpecParameter {
        param_view(*self)
    }
}

impl View for Block {
    type V = SpecBlock;

    open spec fn view(&self) -> SpecBlock {
        block_view(*self)
    }
}

impl View for Statement {
    type V = SpecStatement;

    open spec fn view(&self) -> SpecStatement {
        stmt_view(*self)
    }
}

/// The view of a list of expressions has one element per expression, each
/// its view.
pub proof fn lemma_exprs_view(s: Seq<Expression>)
    ensures
        exprs_view(s).len() == s.len(),
        forall|i: int| 0 <= i < s.len() ==> #[trigger] exprs_view(s)[i] == expr_view(s[i]),
    decreases s.len(),
{
    if s.len() > 0 {
        lemma_exprs_view(s.drop_last());
    }
}

/// As `lemma_exprs_view`, for parameters.
pub proof fn lemma_params_view(s: Seq<Parameter>)
    ensures
        params_view(s).len() == s.len(),
        forall|i: int| 0 <= i < s.len() ==> #[trigger] params_view(s)[i] == param_view(s[i]),
    decreases s.len(),
{
    if s.len() > 0 {
        lemma_params_view(s.drop_last());
    }
}

/// As `lemma_exprs_view`, for statements.
pub proof fn lemma_stmts_view(s: Seq<Statement>)
    ensures
        stmts_view(s).len() == s.len(),
        forall|i: int| 0 <= i < s.len() ==> #[trigger] stmts_view(s)[i] == stmt_view(s[i]),
    decreases s.len(),
{
    if s.len() > 0 {
        lemma_stmts_view(s.drop_last());
    }
}

/// A sequence's view grows by the view of each pushed element.
pub proof fn lemma_exprs_view_push(s: Seq<Expression>, e: Expression)
    ensures
        exprs_view(s.push(e)) == exprs_view(s).push(expr_view(e)),
{
    assert(s.push(e).drop_last() =~= s);
}

/// Pushing a parameter pushes its view.
pub proof fn lemma_params_view_push(s: Seq<Parameter>, p: Parameter)
    ensures
        params_view(s.push(p)) == params_view(s).push(param_view(p)),
{
    assert(s.push(p).drop_last() =~= s);
}

/// Pushing a statement pushes its view.
pub proof fn lemma_stmts_view_push(s: Seq<Statement>, t: Statement)
    ensures
        stmts_view(s.push(t)) == stmts_view(s).push(stmt_view(t)),
{
    assert(s.push(t).drop_last() =~= s);
}


/// The view of two sequences joined is the two views joined.
pub proof fn lemma_exprs_concat(a: Seq<Expression>, b: Seq<Expression>)
    ensures
        exprs_view(a + b) == exprs_view(a) + exprs_view(b),
    decreases b.len(),
{
    if b.len() == 0 {
        assert(a + b =~= a);
        assert(exprs_view(a) + exprs_view(b) =~= exprs_view(a));
    } else {
        lemma_exprs_concat(a, b.drop_last());
        assert((a + b).drop_last() =~= a + b.drop_last());
        assert(exprs_view(a) + exprs_view(b) =~= (exprs_view(a) + exprs_view(b.drop_last())).push(expr_view(b.last())));
    }
}

/// The view of two sequences joined is the two views joined.
pub proof fn lemma_params_concat(a: Seq<Parameter>, b: Seq<Parameter>)
    ensures
        params_view(a + b) == params_view(a) + params_view(b),
    decreases b.len(),
{
    if b.len() == 0 {
        assert(a + b =~= a);
        assert(params_view(a) + params_view(b) =~= params_view(a));
    } else {
        lemma_params_concat(a, b.drop_last());
        assert((a + b).drop_last() =~= a + b.drop_last());
        assert(params_view(a) + params_view(b) =~= (params_view(a) + params_view(b.drop_last())).push(param_view(b.last())));
    }
}

/// The view of two sequences joined is the two views joined.
pub proof fn lemma_stmts_concat(a: Seq<Statement>, b: Seq<Statement>)
    ensures
        stmts_view(a + b) == stmts_view(a) + stmts_view(b),
    decreases b.len(),
{
    if b.len() == 0 {
        assert(a + b =~= a);
        assert(stmts_view(a) + stmts_view(b) =~= stmts_view(a));
    } else {
        lemma_stmts_concat(a, b.drop_last());
        assert((a + b).drop_last() =~= a + b.drop_last());
        assert(stmts_view(a) + stmts_view(b) =~= (stmts_view(a) + stmts_view(b.drop_last())).push(stmt_view(b.last())));
    }
}

pub fn copy_string(s: &String) -> (r: String)
    ensures
        r@ == s@,
{
    s.clone()
}

pub fn copy_float(f: &Float) -> (r: Float)
    ensures
        r == *f,
    decreases f,
{
    match f {
        Float::Bits(b) => Float::Bits(*b),
        Float::Arith(op, l, r) => Float::Arith(*op, Box::new(copy_float(l)), Box::new(copy_float(r))),
        Float::Abs(x) => Float::Abs(Box::new(copy_float(x))),
        Float::FromInt(i) => Float::FromInt(*i),
    }
}

pub fn copy_atom(a: &Atom) -> (r: Atom)
    ensures
        r@ == a@,
{
    match a {
        Atom::String(s) => Atom::String(copy_string(s)),
        Atom::Variable(s) => Atom::Variable(copy_string(s)),
        Atom::Boolean(b) => Atom::Boolean(*b),
        Atom::Integer(i) => Atom::Integer(*i),
        Atom::Double(f) => Atom::Double(copy_float(f)),
    }
}

pub fn copy_expr(e: &Expression) -> (r: Expression)
    ensures
        r@ == e@,
    decreases e,
{
    match e {
        Expression::BinaryOperation(op, l, r) => Expression::BinaryOperation(*op, Box::new(copy_expr(l)), Box::new(copy_expr(r))),
        Expression::Atom(a) => Expression::Atom(copy_atom(a)),
        Expression::Function(f) => Expression::Function(Box::new(copy_function(f))),
        Expression::MethodCall(o, m, args) => Expression::MethodCall(copy_string(o), copy_string(m), copy_exprs(args)),
        Expression::FunctionCall(n, args) => Expression::FunctionCall(copy_string(n), copy_exprs(args)),
        Expression::Tuple(es) => Expression::Tuple(copy_exprs(es)),
    }
}

pub fn copy_exprs(v: &Vec<Expression>) -> (r: Vec<Expression>)
    ensures
        exprs_view(r@) == exprs_view(v@),
    decreases v,
{
    let mut out: Vec<Expression> = Vec::new();
    let mut i: usize = 0;
    while i < v.len()
        invariant
            i <= v.len(),
            exprs_view(out@) == exprs_view(v@.take(i as int)),
        decreases v.len() - i,
    {
        assert(decreases_to!(v => v@[i as int]));
        let c = copy_expr(&v[i]);
        proof {
            lemma_exprs_view_push(out@, c);
            lemma_exprs_view_push(v@.take(i as int), v@[i as int]);
            assert(v@.take(i as int).push(v@[i as int]) =~= v@.take(i + 1));
        }
        out.push(c);
        i = i + 1;
    }
    assert(v@.take(i as int) =~= v@);
    out
}

pub fn copy_function(f: &Function) -> (r: Function)
    ensures
        r@ == f@,
    decreases f,
{
    Function { name: copy_string(&f.name), parameters: copy_params(&f.parameters), body: copy_block(&f.body) }
}

pub fn copy_params(v: &Vec<Parameter>) -> (r: Vec<Parameter>)
    ensures
        params_view(r@) == params_view(v@),
    decreases v,
{
    let mut out: Vec<Parameter> = Vec::new();
    let mut i: usize = 0;
    while i < v.len()
        invariant
            i <= v.len(),
            params_view(out@) == params_view(v@.take(i as int)),
        decreases v.len() - i,
    {
        assert(decreases_to!(v => v@[i as int]));
        let c = copy_param(&v[i]);
        proof {
            lemma_params_view_push(out@, c);
            lemma_params_view_push(v@.take(i as int), v@[i as int]);
            assert(v@.take(i as int).push(v@[i as int]) =~= v@.take(i + 1));
        }
        out.push(c);
        i = i + 1;
    }
    assert(v@.take(i as int) =~= v@);
    out
}

pub fn copy_param(p: &Parameter) -> (r: Parameter)
    ensures
        r@ == p@,
    decreases p,
{
    let d = match &p.default_value {
        Some(e) => Some(copy_expr(e)),
        None => None,
    };
    Parameter { name: copy_string(&p.name), default_value: d }
}

pub fn copy_block(b: &Block) -> (r: Block)
    ensures
        r@ == b@,
    decreases b,
{
    Block { statements: copy_stmts(&b.statements), return_expr: copy_expr(&b.return_expr) }
}

pub fn copy_stmts(v: &Vec<Statement>) -> (r: Vec<Statement>)
    ensures
        stmts_view(r@) == stmts_view(v@),
    decreases v,
{
    let mut out: Vec<Statement> = Vec::new();
    let mut i: usize = 0;
    while i < v.len()
        invariant
            i <= v.len(),
            stmts_view(out@) == stmts_view(v@.take(i as int)),
        decreases v.len() - i,
    {
        assert(decreases_to!(v => v@[i as int]));
        let c = copy_stmt(&v[i]);
        proof {
            lemma_stmts_view_push(out@, c);
            lemma_stmts_view_push(v@.take(i as int), v@[i as int]);
            assert(v@.take(i as int).push(v@[i as int]) =~= v@.take(i + 1));
        }
        out.push(c);
        i = i + 1;
    }
    assert(v@.take(i as int) =~= v@);
    out
}

pub fn copy_names(v: &Vec<String>) -> (r: Vec<String>)
    ensures
        names_view(r@) == names_view(v@),
{
    let mut out: Vec<String> = Vec::new();
    let mut i: usize = 0;
    while i < v.len()
        invariant
            i <= v.len(),
            names_view(out@) == names_view(v@.take(i as int)),
            out@.len() == i,
        decreases v.len() - i,
    {
        let c = copy_string(&v[i]);
        let ghost before = out@;
        out.push(c);
        proof {
            assert(out@ == before.push(c));
            assert(v@.take(i + 1) =~= v@.take(i as int).push(v@[i as int]));
            assert(c@ == v@[i as int]@);
            assert forall|j: int| 0 <= j < out@.len() implies #[trigger] names_view(out@)[j] == names_view(v@.take(i + 1))[j] by {
                if j < i {
                    assert(names_view(before)[j] == names_view(v@.take(i as int))[j]);
                }
            }
            assert(names_view(out@) =~= names_view(v@.take(i + 1)));
        }
        i = i + 1;
    }
    assert(v@.take(i as int) =~= v@);
    out
}

pub fn copy_stmt(s: &Statement) -> (r: Statement)
    ensures
        r@ == s@,
    decreases s,
{
    match s {
        Statement::VariableDeclaration(n, e) => Statement::VariableDeclaration(copy_string(n), copy_expr(e)),
        Statement::Assignment(n, e) => Statement::Assignment(copy_string(n), copy_expr(e)),
        Statement::TupleAssignment(ns, e) => Statement::TupleAssignment(copy_names(ns), copy_expr(e)),
        Statement::FunctionDefinition(f) => Statement::FunctionDefinition(copy_function(f)),
        Statement::FunctionCall(n, args) => Statement::FunctionCall(copy_string(n), copy_exprs(args)),
    }
}

} // verus!
