//! The context that statements of this variant run on, and the evaluator.
use vstd::prelude::*;
use crate::ast::atom::Atom;
use crate::ast::binaryop::BinaryOperation;
use crate::ast::expression::Expression;
use crate::ast::function::Function;
use crate::ast::stmt::Statement;
use crate::ast::model::{SpecExpression, SpecStatement, exprs_view, names_view, stmts_view, params_view,
    lemma_exprs_view, lemma_params_view, lemma_stmts_view, lemma_exprs_concat, copy_atom, copy_exprs,
    copy_expr, copy_function, copy_string};
use crate::arith::{quotient_i64, trunc_div};
use crate::context::semantics::pairs;
use crate::genv::script::builtin::{BuiltinLibrary, MathLibrary};
use crate::genv::script::equality::{holds_double, same_value};
use crate::genv::script::semantics::{CEnv, Builtins, op_value, sev, sev_list, scall, sexec, sexec_list, lib_prefix,
    call_target, param_names, statement_terminates, statement_outcome, expression_terminates, expression_value,
    scall_terminates, scall_result};
use crate::names::{NameMap, lookup};
use crate::package::lib::result_view;
use crate::types::scope::{vars_view, funcs_view, lemma_lookup_vars, lemma_lookup_funcs, copy_module};
use crate::text::{chars_of, string_of, find, join_text, lemma_find_char_bounds};

verus! {

broadcast use vstd::string::group_string_axioms;

/// The variables, functions and built-in libraries that statements run on.
/// A later binding of a name shadows the earlier ones.
#[derive(Debug)]
pub struct Context<B = MathLibrary> {
    variables: NameMap<Expression>,
    functions: NameMap<Function>,
    builtins: NameMap<B>,
}

/// The variables and functions held in two tables.
pub open spec fn cenv(vars: NameMap<Expression>, funcs: NameMap<Function>) -> CEnv {
    CEnv { vars: vars_view(vars.bindings()), funcs: funcs_view(funcs.bindings()) }
}

impl<B: BuiltinLibrary> Context<B> {
    /// The variables and functions.
    pub closed spec fn env(&self) -> CEnv {
        cenv(self.variables, self.functions)
    }

    /// The built-in libraries.
    pub closed spec fn builtins(&self) -> Builtins<B> {
        self.builtins.bindings()
    }

    /// Registers `library` under `name`.
    pub fn register_builtin(&mut self, name: &str, library: B)
        ensures
            final(self).builtins() == old(self).builtins().push((name@, library)),
            final(self).env() == old(self).env(),
    {
        self.builtins.insert(name.to_string(), library);
    }

    /// The library registered under `name`, if any.
    pub fn get_builtin(&self, name: &str) -> (r: Option<&B>)
        ensures
            match lookup(self.builtins(), name@) {
                Some(b) => r == Some(&b),
                None => r is None,
            },
    {
        self.builtins.get(name)
    }

    /// Binds `name` to `value`.
    pub fn set_variable(&mut self, name: String, value: Expression)
        ensures
            final(self).env() == (CEnv { vars: old(self).env().vars.push((name@, value@)), funcs: old(self).env().funcs }),
            final(self).builtins() == old(self).builtins(),
    {
        let ghost nv = (name@, value@);
        self.variables.insert(name, value);
        assert(self.env().vars =~= old(self).env().vars.push(nv));
    }

    /// Binds `name` to `function`.
    pub fn set_function(&mut self, name: String, function: Function)
        ensures
            final(self).env() == (CEnv { vars: old(self).env().vars, funcs: old(self).env().funcs.push((name@, function@)) }),
            final(self).builtins() == old(self).builtins(),
    {
        let ghost nf = (name@, function@);
        self.functions.insert(name, function);
        assert(self.env().funcs =~= old(self).env().funcs.push(nf));
    }

    /// A copy of the value bound to `name`, if any.
    pub fn get_variable(&self, name: &str) -> (r: Option<Expression>)
        ensures
            match lookup(self.env().vars, name@) {
                Some(v) => r matches Some(x) && x@ == v,
                None => r is None,
            },
    {
        proof { lemma_lookup_vars(self.variables.bindings(), name@); }
        match self.variables.get(name) {
            Some(v) => Some(copy_expr(v)),
            None => None,
        }
    }

    /// A copy of the function bound to `name`, if any.
    pub fn get_function(&self, name: &str) -> (r: Option<Function>)
        ensures
            match lookup(self.env().funcs, name@) {
                Some(f) => r matches Some(x) && x@ == f,
                None => r is None,
            },
    {
        proof { lemma_lookup_funcs(self.functions.bindings(), name@); }
        match self.functions.get(name) {
            Some(f) => Some(copy_function(f)),
            None => None,
        }
    }
}

impl Context<MathLibrary> {
    /// A context with no variables or functions and the `math` library.
    pub fn new() -> (c: Self)
        ensures
            c.env() == (CEnv { vars: Seq::empty(), funcs: Seq::empty() }),
            c.builtins() == seq![("math"@, MathLibrary)],
    {
        let mut c = Context { variables: NameMap::new(), functions: NameMap::new(), builtins: NameMap::new() };
        c.register_builtin("math", MathLibrary);
        assert(c.env().vars =~= Seq::<(Seq<char>, SpecExpression)>::empty());
        assert(c.env().funcs =~= Seq::<(Seq<char>, crate::ast::model::SpecFunction)>::empty());
        assert(c.builtins() =~= seq![("math"@, MathLibrary)]);
        c
    }
}

/// A copy of a table of functions.
fn copy_funcs(m: &NameMap<Function>) -> (r: NameMap<Function>)
    ensures
        funcs_view(r.bindings()) == funcs_view(m.bindings()),
{
    let mut out: NameMap<Function> = NameMap::new();
    let mut i: usize = 0;
    assert(funcs_view(m.bindings().take(0)) =~= funcs_view(out.bindings()));
    while i < m.entries.len()
        invariant
            i <= m.entries.len(),
            funcs_view(out.bindings()) == funcs_view(m.bindings().take(i as int)),
        decreases m.entries.len() - i,
    {
        let (n, f) = (&m.entries[i].0, &m.entries[i].1);
        let ghost before = out.bindings();
        out.insert(copy_string(n), copy_function(f));
        i = i + 1;
        assert(funcs_view(m.bindings().take(i as int)) =~= funcs_view(m.bindings().take(i - 1)).push((n@, f@)));
        assert(funcs_view(out.bindings()) =~= funcs_view(before).push((n@, f@)));
    }
    assert(m.bindings().take(i as int) =~= m.bindings());
    out
}

/// An operator applied to two values; see `op_value`.
fn op_exec(op: BinaryOperation, lv: Expression, rv: Expression) -> (r: Result<Expression, String>)
    requires
        op_value(op, lv@, rv@) is Some,
    ensures
        op_value(op, lv@, rv@) == Some(result_view(r)),
{
    match (op, &lv, &rv) {
        (BinaryOperation::Plus, Expression::Atom(Atom::Integer(a)), Expression::Atom(Atom::Integer(b))) =>
            Ok(Expression::Atom(Atom::Integer(*a + *b))),
        (BinaryOperation::Minus, Expression::Atom(Atom::Integer(a)), Expression::Atom(Atom::Integer(b))) =>
            Ok(Expression::Atom(Atom::Integer(*a - *b))),
        (BinaryOperation::Times, Expression::Atom(Atom::Integer(a)), Expression::Atom(Atom::Integer(b))) =>
            Ok(Expression::Atom(Atom::Integer(*a * *b))),
        (BinaryOperation::Divide, Expression::Atom(Atom::Integer(a)), Expression::Atom(Atom::Integer(b))) => {
            let (a, b) = (*a, *b);
            if a == i64::MIN && b == -1 {
                assert(trunc_div(a as int, b as int) == 9223372036854775808int);
            }
            Ok(Expression::Atom(Atom::Integer(quotient_i64(a, b))))
        },
        (BinaryOperation::Equal, l, r) => Ok(Expression::Atom(Atom::Boolean(same_value(l, r)))),
        (BinaryOperation::NotEqual, l, r) => Ok(Expression::Atom(Atom::Boolean(!same_value(l, r)))),
        _ => Err("Unsupported operation".to_string()),
    }
}

/// The part of `name` before its first `.`; see `lib_prefix`.
fn prefix_of(name: &str) -> (r: String)
    ensures
        r@ == lib_prefix(name@),
{
    let cs = chars_of(name);
    let n = find(&cs, 0, '.');
    proof { lemma_find_char_bounds(cs@, 0, '.'); }
    let r = string_of(&cs, 0, n);
    assert(r@ =~= name@.take(n as int));
    r
}

/// Evaluates `e` within the budget `fuel`.
fn sev_in<B: BuiltinLibrary>(e: &Expression, vars: &NameMap<Expression>, funcs: &NameMap<Function>, bs: &NameMap<B>,
    Ghost(fuel): Ghost<nat>) -> (r: Result<Expression, String>)
    requires
        sev(fuel, e@, cenv(*vars, *funcs), bs.bindings()) is Some,
    ensures
        sev(fuel, e@, cenv(*vars, *funcs), bs.bindings()) == Some(result_view(r)),
    decreases fuel, 1nat,
{
    let ghost f1 = (fuel - 1) as nat;
    match e {
        Expression::Atom(a) => Ok(Expression::Atom(copy_atom(a))),
        Expression::BinaryOperation(op, l, r) => {
            let lv = sev_in(l, vars, funcs, bs, Ghost(f1))?;
            let rv = sev_in(r, vars, funcs, bs, Ghost(f1))?;
            op_exec(*op, lv, rv)
        },
        Expression::Tuple(es) => {
            proof { assert(exprs_view(es@).skip(0) =~= exprs_view(es@)); }
            let vs = sev_list_in(es, 0, vars, funcs, bs, Ghost(f1))?;
            Ok(Expression::Tuple(vs))
        },
        Expression::Function(f) => Ok(Expression::Function(Box::new(copy_function(f)))),
        Expression::FunctionCall(n, args) => call_named_in(e, copy_string(n), args, vars, funcs, bs, Ghost(fuel)),
        Expression::MethodCall(o, m, args) => {
            let d = join_text(o.as_str(), ".");
            call_named_in(e, join_text(d.as_str(), m.as_str()), args, vars, funcs, bs, Ghost(fuel))
        },
    }
}

/// Evaluates the call `e` of the function `name` on `args`: a built-in
/// library named by the part of `name` before its first `.` takes the call,
/// else the function `name` runs.
fn call_named_in<B: BuiltinLibrary>(e: &Expression, name: String, args: &Vec<Expression>, vars: &NameMap<Expression>,
    funcs: &NameMap<Function>, bs: &NameMap<B>, Ghost(fuel): Ghost<nat>) -> (r: Result<Expression, String>)
    requires
        e@ is FunctionCall || e@ is MethodCall,
        call_target(e@) == (name@, exprs_view(args@)),
        sev(fuel, e@, cenv(*vars, *funcs), bs.bindings()) is Some,
    ensures
        sev(fuel, e@, cenv(*vars, *funcs), bs.bindings()) == Some(result_view(r)),
    decreases fuel, 0nat,
{
    let ghost f1 = (fuel - 1) as nat;
    let prefix = prefix_of(name.as_str());
    match bs.get(prefix.as_str()) {
        Some(lib) => lib.call(name.as_str(), copy_exprs(args)),
        None => {
            proof { lemma_lookup_funcs(funcs.bindings(), name@); }
            match funcs.get(name.as_str()) {
                Some(func) => {
                    proof { assert(exprs_view(args@).skip(0) =~= exprs_view(args@)); }
                    let vals = sev_list_in(args, 0, vars, funcs, bs, Ghost(f1))?;
                    scall_in(func, vals, vars, funcs, bs, Ghost(f1))
                },
                None => {
                    let m = join_text("Function '", name.as_str());
                    Err(join_text(m.as_str(), "' not found"))
                },
            }
        },
    }
}

/// Evaluates `es[i..]` in order within the budget `fuel`.
fn sev_list_in<B: BuiltinLibrary>(es: &Vec<Expression>, i: usize, vars: &NameMap<Expression>, funcs: &NameMap<Function>,
    bs: &NameMap<B>, Ghost(fuel): Ghost<nat>) -> (r: Result<Vec<Expression>, String>)
    requires
        i <= es.len(),
        sev_list(fuel, exprs_view(es@).skip(i as int), cenv(*vars, *funcs), bs.bindings()) is Some,
    ensures
        sev_list(fuel, exprs_view(es@).skip(i as int), cenv(*vars, *funcs), bs.bindings()) == Some(
            match r { Ok(v) => Ok(exprs_view(v@)), Err(m) => Err(m@) }),
    decreases fuel, es.len() - i + 1,
{
    proof { lemma_exprs_view(es@); }
    if i == es.len() {
        let v: Vec<Expression> = Vec::new();
        assert(exprs_view(v@) =~= Seq::<SpecExpression>::empty());
        assert(exprs_view(es@).skip(i as int) =~= Seq::<SpecExpression>::empty());
        return Ok(v);
    }
    let ghost sv = exprs_view(es@).skip(i as int);
    assert(sv[0] == es@[i as int]@);
    assert(sv.drop_first() =~= exprs_view(es@).skip(i + 1));
    let x = sev_in(&es[i], vars, funcs, bs, Ghost(fuel))?;
    let rest = sev_list_in(es, i + 1, vars, funcs, bs, Ghost(fuel))?;
    let mut out: Vec<Expression> = Vec::new();
    out.push(x);
    let mut rest = rest;
    proof {
        lemma_exprs_concat(out@, rest@);
        lemma_exprs_view(out@);
        assert(exprs_view(out@) =~= seq![x@]);
    }
    out.append(&mut rest);
    Ok(out)
}

/// Runs `f` on `args` in a copy of the context, within the budget `fuel`.
fn scall_in<B: BuiltinLibrary>(f: &Function, args: Vec<Expression>, vars: &NameMap<Expression>, funcs: &NameMap<Function>,
    bs: &NameMap<B>, Ghost(fuel): Ghost<nat>) -> (r: Result<Expression, String>)
    requires
        scall(fuel, f@, exprs_view(args@), cenv(*vars, *funcs), bs.bindings()) is Some,
    ensures
        scall(fuel, f@, exprs_view(args@), cenv(*vars, *funcs), bs.bindings()) == Some(result_view(r)),
    decreases fuel, f@.body.statements.len() + 2,
{
    proof {
        lemma_exprs_view(args@);
        lemma_params_view(f.parameters@);
        lemma_stmts_view(f.body.statements@);
    }
    if args.len() != f.parameters.len() {
        return Err("Incorrect number of arguments".to_string());
    }
    let mut lv = copy_module(vars);
    let mut lf = copy_funcs(funcs);
    let ghost ns = param_names(params_view(f.parameters@));
    let ghost avs = exprs_view(args@);
    let ghost base = vars_view(vars.bindings());
    let mut k: usize = 0;
    assert(base + pairs(ns, avs, 0) =~= base);
    while k < args.len()
        invariant
            k <= args.len(),
            args.len() == f.parameters.len(),
            params_view(f.parameters@).len() == f.parameters.len(),
            forall|j: int| 0 <= j < f.parameters.len() ==> #[trigger] params_view(f.parameters@)[j] == f.parameters@[j]@,
            avs == exprs_view(args@),
            avs.len() == args.len(),
            forall|j: int| 0 <= j < args.len() ==> #[trigger] avs[j] == args@[j]@,
            ns == param_names(params_view(f.parameters@)),
            vars_view(lv.bindings()) == base + pairs(ns, avs, k as int),
            funcs_view(lf.bindings()) == funcs_view(funcs.bindings()),
        decreases args.len() - k,
    {
        let ghost before = lv.bindings();
        lv.insert(copy_string(&f.parameters[k].name), copy_expr(&args[k]));
        k = k + 1;
        assert(vars_view(lv.bindings()) =~= vars_view(before).push((ns[k - 1], avs[k - 1])));
        assert(base + pairs(ns, avs, k as int) =~= (base + pairs(ns, avs, k - 1)).push((ns[k - 1], avs[k - 1])));
    }
    sexec_list_in(&f.body.statements, 0, &mut lv, &mut lf, bs, Ghost(fuel))?;
    sev_in(&f.body.return_expr, &lv, &lf, bs, Ghost(fuel))
}

/// Runs `ss[i..]` in order within the budget `fuel`; on an error the
/// tables keep what the statements before it did.
fn sexec_list_in<B: BuiltinLibrary>(ss: &Vec<Statement>, i: usize, vars: &mut NameMap<Expression>,
    funcs: &mut NameMap<Function>, bs: &NameMap<B>, Ghost(fuel): Ghost<nat>) -> (r: Result<(), String>)
    requires
        i <= ss.len(),
        sexec_list(fuel, stmts_view(ss@), i as int, cenv(*old(vars), *old(funcs)), bs.bindings()) is Some,
    ensures
        match sexec_list(fuel, stmts_view(ss@), i as int, cenv(*old(vars), *old(funcs)), bs.bindings()).unwrap() {
            Ok(env) => r is Ok && cenv(*final(vars), *final(funcs)) == env,
            Err(m) => r matches Err(x) && x@ == m,
        },
    decreases fuel, ss.len() - i + 1,
{
    proof { lemma_stmts_view(ss@); }
    if i == ss.len() {
        return Ok(());
    }
    sexec_in(&ss[i], vars, funcs, bs, Ghost(fuel))?;
    sexec_list_in(ss, i + 1, vars, funcs, bs, Ghost(fuel))
}

/// Runs one statement within the budget `fuel`; on an error the tables are
/// left as they were.
fn sexec_in<B: BuiltinLibrary>(st: &Statement, vars: &mut NameMap<Expression>, funcs: &mut NameMap<Function>,
    bs: &NameMap<B>, Ghost(fuel): Ghost<nat>) -> (r: Result<(), String>)
    requires
        sexec(fuel, st@, cenv(*old(vars), *old(funcs)), bs.bindings()) is Some,
    ensures
        match sexec(fuel, st@, cenv(*old(vars), *old(funcs)), bs.bindings()).unwrap() {
            Ok(env) => r is Ok && cenv(*final(vars), *final(funcs)) == env,
            Err(m) => r matches Err(x) && x@ == m && *final(vars) == *old(vars) && *final(funcs) == *old(funcs),
        },
    decreases fuel, 1nat,
{
    let ghost f1 = (fuel - 1) as nat;
    match st {
        Statement::VariableDeclaration(name, expr) => {
            let v = sev_in(expr, vars, funcs, bs, Ghost(f1))?;
            let ghost before = vars.bindings();
            vars.insert(copy_string(name), v);
            assert(vars_view(vars.bindings()) =~= vars_view(before).push((name@, v@)));
            Ok(())
        },
        Statement::Assignment(name, expr) => {
            let v = sev_in(expr, vars, funcs, bs, Ghost(f1))?;
            proof { lemma_lookup_vars(vars.bindings(), name@); }
            if vars.contains(name.as_str()) {
                let ghost before = vars.bindings();
                vars.insert(copy_string(name), v);
                assert(vars_view(vars.bindings()) =~= vars_view(before).push((name@, v@)));
                Ok(())
            } else {
                let m = join_text("Variable '", name.as_str());
                Err(join_text(m.as_str(), "' not found"))
            }
        },
        Statement::TupleAssignment(names, expr) => {
            let v = sev_in(expr, vars, funcs, bs, Ghost(f1))?;
            match v {
                Expression::Tuple(values) => {
                    proof { lemma_exprs_view(values@); }
                    if names.len() == values.len() {
                        let ghost ns = names_view(names@);
                        let ghost vs = exprs_view(values@);
                        let ghost base = vars_view(vars.bindings());
                        let mut k: usize = 0;
                        assert(base + pairs(ns, vs, 0) =~= base);
                        while k < names.len()
                            invariant
                                k <= names.len(),
                                names.len() == values.len(),
                                ns == names_view(names@),
                                vs == exprs_view(values@),
                                vs.len() == values.len(),
                                forall|j: int| 0 <= j < values.len() ==> #[trigger] vs[j] == values@[j]@,
                                vars_view(vars.bindings()) == base + pairs(ns, vs, k as int),
                                *funcs == *old(funcs),
                            decreases names.len() - k,
                        {
                            let ghost before = vars.bindings();
                            vars.insert(copy_string(&names[k]), copy_expr(&values[k]));
                            k = k + 1;
                            assert(vars_view(vars.bindings()) =~= vars_view(before).push((ns[k - 1], vs[k - 1])));
                            assert(base + pairs(ns, vs, k as int) =~= (base + pairs(ns, vs, k - 1)).push((ns[k - 1], vs[k - 1])));
                        }
                        Ok(())
                    } else {
                        Err("Tuple lengths do not match".to_string())
                    }
                },
                _ => Err("Right-hand side is not a tuple".to_string()),
            }
        },
        Statement::FunctionDefinition(f) => {
            let ghost before = funcs.bindings();
            funcs.insert(copy_string(&f.name), copy_function(f));
            assert(funcs_view(funcs.bindings()) =~= funcs_view(before).push((f.name@, f@)));
            Ok(())
        },
        Statement::FunctionCall(name, args) => {
            proof { lemma_lookup_funcs(funcs.bindings(), name@); }
            let func = match funcs.get(name.as_str()) {
                Some(f) => copy_function(f),
                None => {
                    let m = join_text("Function '", name.as_str());
                    return Err(join_text(m.as_str(), "' not found"));
                },
            };
            proof { assert(exprs_view(args@).skip(0) =~= exprs_view(args@)); }
            let vals = sev_list_in(args, 0, vars, funcs, bs, Ghost(f1))?;
            scall_in(&func, vals, vars, funcs, bs, Ghost(f1))?;
            Ok(())
        },
    }
}

impl Statement {
    /// Runs the statement on `context`; see `sexec`. On an error the
    /// context is left as it was. A statement that does not end overflows
    /// the stack, the evaluator panics on an `i64` overflow or division by
    /// zero, and comparing values that hold doubles is floating point:
    /// `requires` leaves those out.
    pub fn execute<B: BuiltinLibrary>(&self, context: &mut Context<B>) -> (r: Result<(), String>)
        requires
            statement_terminates(self@, old(context).env(), old(context).builtins()),
        ensures
            final(context).builtins() == old(context).builtins(),
            match statement_outcome(self@, old(context).env(), old(context).builtins()) {
                Ok(env) => r is Ok && final(context).env() == env,
                Err(m) => r matches Err(x) && x@ == m && final(context).env() == old(context).env(),
            },
    {
        let ghost fuel = choose|fuel: nat| sexec(fuel, self@, context.env(), context.builtins()) is Some;
        sexec_in(self, &mut context.variables, &mut context.functions, &context.builtins, Ghost(fuel))
    }
}

impl Expression {
    /// The value of the expression in `context`; see `sev`. `requires`
    /// leaves out what `Statement::execute` does.
    pub fn evaluate_in_context<B: BuiltinLibrary>(&self, context: &Context<B>) -> (r: Result<Expression, String>)
        requires
            expression_terminates(self@, context.env(), context.builtins()),
        ensures
            result_view(r) == expression_value(self@, context.env(), context.builtins()),
    {
        let ghost fuel = choose|fuel: nat| sev(fuel, self@, context.env(), context.builtins()) is Some;
        sev_in(self, &context.variables, &context.functions, &context.builtins, Ghost(fuel))
    }
}

impl Function {
    /// Runs the function on `args` in a copy of `context`; see `scall`.
    /// `requires` leaves out what `Statement::execute` does.
    pub fn call_in_context<B: BuiltinLibrary>(&self, args: Vec<Expression>, context: &Context<B>) -> (r: Result<Expression, String>)
        requires
            scall_terminates(self@, exprs_view(args@), context.env(), context.builtins()),
        ensures
            result_view(r) == scall_result(self@, exprs_view(args@), context.env(), context.builtins()),
    {
        let ghost fuel = choose|fuel: nat| scall(fuel, self@, exprs_view(args@), context.env(), context.builtins()) is Some;
        scall_in(self, args, &context.variables, &context.functions, &context.builtins, Ghost(fuel))
    }
}

} // verus!
