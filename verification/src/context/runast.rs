//! Running a program: its text is parsed into statements, the function
//! definitions among them are bound, and the statements run in order.
use vstd::prelude::*;
use crate::ast::atom::Atom;
use crate::ast::expression::Expression;
use crate::ast::stmt::Statement;
use crate::ast::model::{SpecExpression, SpecStatement, exprs_view, stmts_view, names_view, lemma_exprs_view,
    lemma_stmts_view, copy_string, copy_function};
use crate::context::semantics::{Env, Libs, run_step, run_stmts, defs, var_args, pairs, with_vars, ev, ev_list,
    call_fn};
use crate::context::expression::{eval_in, eval_list_in};
use crate::context::function::call_in;
use crate::package::lib::Library;
use crate::parser::grammar::{PErr, g_statements};
use crate::parser::parser::{ParseError, parse_program};
use crate::types::scope::{Scope, vars_view};
use crate::engine::Engine;
use crate::names::NameMap;
use crate::text::{chars_of, string_of, join_text};
use crate::context::budget::lemma_stmts_mono;

verus! {

broadcast use vstd::string::group_string_axioms;

/// The `Debug` text of the `nom` error value
/// `nom::Err::Failure(nom::error::Error { input: rest, code: ErrorKind::Float })`.
pub uninterp spec fn nom_failure_debug(rest: Seq<char>) -> Seq<char>;

/// Calls the `Debug` formatting of `nom::Err<nom::error::Error<&str>>` on the
/// failure that `nom`'s float parser reports for a number with a broken
/// exponent beginning at `rest`. Claimed: the text depends on `rest` alone
/// and is `nom_failure_debug(rest)`.
#[verifier::external_body]
fn failure_debug(rest: &str) -> (t: String)
    ensures
        t@ == nom_failure_debug(rest@),
{
    format!("{:?}", nom::Err::Failure(nom::error::Error::new(rest, nom::error::ErrorKind::Float)))
}

/// The input from position `p` on, or nothing where `p` lies past its end.
pub open spec fn rest_from(code: Seq<char>, p: int) -> Seq<char> {
    if 0 <= p <= code.len() {
        code.skip(p)
    } else {
        Seq::empty()
    }
}

/// What a program that does not parse is answered.
pub open spec fn parse_error_message(code: Seq<char>, f: PErr) -> Seq<char> {
    match f {
        PErr::Failure(p) => "Parse error: "@ + nom_failure_debug(rest_from(code, p)),
        // `g_statements` never gives this (each statement reads at least one
        // character); `parse_program` states it.
        PErr::Error => "Parse error"@,
    }
}

/// Runs the program `code` on the variables and functions `env`: a program
/// that does not parse, or holds no statement, is refused with `env`
/// unchanged; else its function definitions are bound, in order, and its
/// statements run. Gives the error, if any, and the variables and functions
/// after the run; `None` where the budget runs out or an `i64` operation
/// overflows or divides by zero.
pub open spec fn run_program<L: Library>(fuel: nat, code: Seq<char>, env: Env, libs: Libs<L>)
    -> Option<(Result<(), Seq<char>>, Env)>
{
    match g_statements(code, 0, true) {
        Err(f) => Some((Err(parse_error_message(code, f)), env)),
        Ok((ss, _)) => if ss.len() == 0 {
            Some((Err("No statements parsed"@), env))
        } else {
            run_stmts(fuel, ss, 0, Env { vars: env.vars, funcs: env.funcs + defs(ss) }, libs)
        },
    }
}

/// Whether the program `code` runs to its end within some budget.
pub open spec fn program_terminates<L: Library>(code: Seq<char>, env: Env, libs: Libs<L>) -> bool {
    exists|fuel: nat| run_program(fuel, code, env, libs) is Some
}

/// The error, if any, of running `code`, and the variables and functions
/// after it.
pub open spec fn program_outcome<L: Library>(code: Seq<char>, env: Env, libs: Libs<L>) -> (Result<(), Seq<char>>, Env) {
    run_program(choose|fuel: nat| run_program(fuel, code, env, libs) is Some, code, env, libs).unwrap()
}

/// Running a program does not depend on the budget: within any budget in
/// which it finishes, it gives `program_outcome`.
pub proof fn lemma_program_any_budget<L: Library>(fuel: nat, code: Seq<char>, env: Env, libs: Libs<L>)
    requires
        run_program(fuel, code, env, libs) is Some,
    ensures
        program_terminates(code, env, libs),
        run_program(fuel, code, env, libs) == Some(program_outcome(code, env, libs)),
{
    let c = choose|fuel: nat| run_program(fuel, code, env, libs) is Some;
    match g_statements(code, 0, true) {
        Ok((ss, _)) => if ss.len() > 0 {
            let env0 = Env { vars: env.vars, funcs: env.funcs + defs(ss) };
            if c <= fuel {
                lemma_stmts_mono(c, fuel, ss, 0, env0, libs);
            } else {
                lemma_stmts_mono(fuel, c, ss, 0, env0, libs);
            }
        },
        Err(_) => {},
    }
}

/// An outcome with the error by its characters.
pub open spec fn unit_view(r: Result<(), String>) -> Result<(), Seq<char>> {
    match r {
        Ok(()) => Ok(()),
        Err(m) => Err(m@),
    }
}

/// Binds `names[k]` to `vals[k]` for each `k`, in order.
fn bind_all<L: Library>(names: &Vec<String>, vals: &Vec<Expression>, ctx: &mut Scope<L>)
    requires
        names.len() == vals.len(),
    ensures
        final(ctx).env() == with_vars(old(ctx).env(), pairs(names_view(names@), exprs_view(vals@), names.len() as int)),
        final(ctx).others() == old(ctx).others(),
{
    let ghost ns = names_view(names@);
    let ghost vs = exprs_view(vals@);
    proof { lemma_exprs_view(vals@); }
    let mut k: usize = 0;
    assert(old(ctx).env().vars + pairs(ns, vs, 0) =~= old(ctx).env().vars);
    while k < names.len()
        invariant
            k <= names.len(),
            names.len() == vals.len(),
            ns == names_view(names@),
            vs == exprs_view(vals@),
            vs.len() == vals.len(),
            forall|j: int| 0 <= j < vals.len() ==> #[trigger] vs[j] == vals@[j]@,
            ctx.env() == with_vars(old(ctx).env(), pairs(ns, vs, k as int)),
            ctx.others() == old(ctx).others(),
        decreases names.len() - k,
    {
        ctx.set_variable(copy_string(&names[k]), crate::ast::model::copy_expr(&vals[k]));
        k = k + 1;
        assert(old(ctx).env().vars + pairs(ns, vs, k as int) =~=
            (old(ctx).env().vars + pairs(ns, vs, k - 1)).push((ns[k - 1], vs[k - 1])));
    }
}

/// The names of the arguments that are bare variables, in order.
fn variable_args(args: &Vec<Expression>) -> (r: Vec<String>)
    ensures
        names_view(r@) == var_args(exprs_view(args@)),
{
    proof { lemma_exprs_view(args@); }
    let mut out: Vec<String> = Vec::new();
    let mut k: usize = 0;
    assert(exprs_view(args@).take(0) =~= Seq::<SpecExpression>::empty());
    assert(names_view(out@) =~= Seq::<Seq<char>>::empty());
    while k < args.len()
        invariant
            k <= args.len(),
            exprs_view(args@).len() == args.len(),
            forall|j: int| 0 <= j < args.len() ==> #[trigger] exprs_view(args@)[j] == args@[j]@,
            names_view(out@) == var_args(exprs_view(args@).take(k as int)),
        decreases args.len() - k,
    {
        let ghost before = out@;
        assert(exprs_view(args@).take(k + 1).drop_last() =~= exprs_view(args@).take(k as int));
        match &args[k] {
            Expression::Atom(Atom::Variable(v)) => {
                out.push(copy_string(v));
                assert(names_view(out@) =~= names_view(before).push(v@));
            },
            _ => {},
        }
        k = k + 1;
    }
    assert(exprs_view(args@).take(args.len() as int) =~= exprs_view(args@));
    out
}

/// Runs one statement within the budget `fuel`; see `run_step`.
fn step_in<L: Library>(st: &Statement, ctx: &mut Scope<L>, Ghost(fuel): Ghost<nat>) -> (r: Result<(), String>)
    requires
        run_step(fuel, st@, old(ctx).env(), old(ctx).libs()) is Some,
    ensures
        run_step(fuel, st@, old(ctx).env(), old(ctx).libs()) == Some((unit_view(r), final(ctx).env())),
        final(ctx).others() == old(ctx).others(),
{
    match st {
        Statement::VariableDeclaration(name, expr) | Statement::Assignment(name, expr) => {
            let v = eval_in(expr, ctx, Ghost(fuel))?;
            let ghost nv = (name@, v@);
            let ghost env1 = ctx.env();
            ctx.set_variable(copy_string(name), v);
            assert(env1.vars + seq![nv] =~= env1.vars.push(nv));
            Ok(())
        },
        Statement::TupleAssignment(names, expr) => {
            let v = eval_in(expr, ctx, Ghost(fuel))?;
            match v {
                Expression::Tuple(elements) => {
                    if names.len() == elements.len() {
                        proof { lemma_exprs_view(elements@); }
                        bind_all(names, &elements, ctx);
                        Ok(())
                    } else {
                        proof { lemma_exprs_view(elements@); }
                        Err("Tuple assignment mismatch".to_string())
                    }
                },
                _ => Err("Expected tuple expression".to_string()),
            }
        },
        Statement::FunctionDefinition(_) => Ok(()),
        Statement::FunctionCall(name, args) => {
            let func = match ctx.get_function(name.as_str()) {
                Some(f) => f,
                None => {
                    let m = join_text("Function '", name.as_str());
                    return Err(join_text(m.as_str(), "' not found"));
                },
            };
            proof { assert(exprs_view(args@).skip(0) =~= exprs_view(args@)); }
            let vals = eval_list_in(args, 0, ctx, Ghost(fuel))?;
            let result = call_in(&func, vals, ctx, Ghost(fuel))?;
            match result {
                Expression::Tuple(results) => {
                    let vars = variable_args(args);
                    proof { lemma_exprs_view(results@); }
                    if vars.len() == results.len() {
                        bind_all(&vars, &results, ctx);
                    }
                    Ok(())
                },
                _ => Ok(()),
            }
        },
    }
}

/// Runs `ss[i..]` in order within the budget `fuel`, stopping at the first
/// error.
fn stmts_in<L: Library>(ss: &Vec<Statement>, i: usize, ctx: &mut Scope<L>, Ghost(fuel): Ghost<nat>)
    -> (r: Result<(), String>)
    requires
        i <= ss.len(),
        run_stmts(fuel, stmts_view(ss@), i as int, old(ctx).env(), old(ctx).libs()) is Some,
    ensures
        run_stmts(fuel, stmts_view(ss@), i as int, old(ctx).env(), old(ctx).libs()) == Some((unit_view(r), final(ctx).env())),
        final(ctx).others() == old(ctx).others(),
    decreases ss.len() - i,
{
    proof { lemma_stmts_view(ss@); }
    if i == ss.len() {
        return Ok(());
    }
    step_in(&ss[i], ctx, Ghost(fuel))?;
    stmts_in(ss, i + 1, ctx, Ghost(fuel))
}

/// Binds the function definitions among `ss`, in order.
fn bind_defs<L: Library>(ss: &Vec<Statement>, ctx: &mut Scope<L>)
    ensures
        final(ctx).env() == (Env { vars: old(ctx).env().vars, funcs: old(ctx).env().funcs + defs(stmts_view(ss@)) }),
        final(ctx).others() == old(ctx).others(),
{
    proof { lemma_stmts_view(ss@); }
    let mut k: usize = 0;
    assert(stmts_view(ss@).take(0) =~= Seq::<SpecStatement>::empty());
    assert(old(ctx).env().funcs + defs(Seq::<SpecStatement>::empty()) =~= old(ctx).env().funcs);
    while k < ss.len()
        invariant
            k <= ss.len(),
            stmts_view(ss@).len() == ss.len(),
            forall|j: int| 0 <= j < ss.len() ==> #[trigger] stmts_view(ss@)[j] == ss@[j]@,
            ctx.env() == (Env { vars: old(ctx).env().vars, funcs: old(ctx).env().funcs + defs(stmts_view(ss@).take(k as int)) }),
            ctx.others() == old(ctx).others(),
        decreases ss.len() - k,
    {
        let ghost before = ctx.env().funcs;
        assert(stmts_view(ss@).take(k + 1).drop_last() =~= stmts_view(ss@).take(k as int));
        match &ss[k] {
            Statement::FunctionDefinition(func) => {
                ctx.set_function(copy_string(&func.name), copy_function(func));
                assert(old(ctx).env().funcs + defs(stmts_view(ss@).take(k + 1)) =~= before.push((func.name@, func@)));
            },
            _ => {},
        }
        k = k + 1;
    }
    assert(stmts_view(ss@).take(ss.len() as int) =~= stmts_view(ss@));
}

/// Runs the program `code` on `ctx` within the budget `fuel`; see
/// `run_program`.
fn program_in<L: Library>(code: &str, ctx: &mut Scope<L>, Ghost(fuel): Ghost<nat>) -> (r: Result<(), String>)
    requires
        run_program(fuel, code@, old(ctx).env(), old(ctx).libs()) is Some,
    ensures
        run_program(fuel, code@, old(ctx).env(), old(ctx).libs()) == Some((unit_view(r), final(ctx).env())),
        final(ctx).others() == old(ctx).others(),
{
    let stmts = match parse_program(code) {
        Ok((_, stmts)) => stmts,
        Err(ParseError::Failure(p)) => {
            let cs = chars_of(code);
            let rest = if p <= cs.len() { string_of(&cs, p, cs.len()) } else { String::new() };
            proof {
                if p <= cs.len() {
                    assert(rest@ =~= code@.skip(p as int));
                }
            }
            let d = failure_debug(rest.as_str());
            return Err(join_text("Parse error: ", d.as_str()));
        },
        Err(ParseError::Error) => {
            return Err("Parse error".to_string());
        },
    };
    if stmts.len() == 0 {
        return Err("No statements parsed".to_string());
    }
    proof { lemma_stmts_view(stmts@); }
    bind_defs(&stmts, ctx);
    stmts_in(&stmts, 0, ctx, Ghost(fuel))
}

impl Engine {
    /// Runs the program `code` in a fresh scope and gives its variables:
    /// see `run_program`. A program that does not end overflows the stack,
    /// and the evaluator panics on an `i64` overflow or division by
    /// zero, so `requires` leaves those out.
    pub fn run_ast(&self, code: &str) -> (r: Result<NameMap<Expression>, String>)
        requires
            program_terminates(code@, Env { vars: Seq::empty(), funcs: Seq::empty() }, Seq::<(Seq<char>, crate::package::math::Math)>::empty()),
        ensures
            match program_outcome(code@, Env { vars: Seq::empty(), funcs: Seq::empty() }, Seq::<(Seq<char>, crate::package::math::Math)>::empty()) {
                (Ok(()), env) => r matches Ok(m) && vars_view(m.bindings()) == env.vars,
                (Err(e), _) => r matches Err(x) && x@ == e,
            },
    {
        let mut sc: Scope = Scope::new();
        let ghost fuel = choose|fuel: nat| run_program(fuel, code@, sc.env(), sc.libs()) is Some;
        program_in(code, &mut sc, Ghost(fuel))?;
        Ok(sc.copy_variables())
    }

    /// Runs the program `code` on `scope` and gives a copy of its variables
    /// after the run; on an error `scope` keeps what the statements before
    /// it did. See `run_program`; `requires` leaves out what `run_ast` does.
    pub fn run_ast_scope<L: Library>(&self, code: &str, scope: &mut Scope<L>) -> (r: Result<NameMap<Expression>, String>)
        requires
            program_terminates(code@, old(scope).env(), old(scope).libs()),
        ensures
            program_outcome(code@, old(scope).env(), old(scope).libs()).1 == final(scope).env(),
            final(scope).others() == old(scope).others(),
            match program_outcome(code@, old(scope).env(), old(scope).libs()).0 {
                Ok(()) => r matches Ok(m) && vars_view(m.bindings()) == final(scope).env().vars,
                Err(e) => r matches Err(x) && x@ == e,
            },
    {
        let ghost fuel = choose|fuel: nat| run_program(fuel, code@, scope.env(), scope.libs()) is Some;
        program_in(code, scope, Ghost(fuel))?;
        Ok(scope.copy_variables())
    }
}

} // verus!
