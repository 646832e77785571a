//! The parser: each rule of `grammar` read from a character vector at a
//! position, and the entry points that read from a `&str`.
use vstd::prelude::*;
use crate::ast::atom::{Atom, Float};
use crate::ast::binaryop::BinaryOperation;
use crate::ast::block::Block;
use crate::ast::expression::Expression;
use crate::ast::function::Function;
use crate::ast::parameter::Parameter;
use crate::ast::stmt::Statement;
use crate::ast::model::{SpecExpression, SpecStatement, exprs_view, params_view, stmts_view, names_view,
    lemma_exprs_view_push, lemma_params_view_push, lemma_stmts_view_push};
use crate::parser::grammar::{PErr, PRes, g_ident, g_boolean, g_double, g_integer, g_string, g_variable, g_atom,
    g_binary_operator, g_binary_operation, g_import, g_comma, g_list, g_list_more, g_tuple, g_call, g_function_call,
    g_method_call, g_parameter, g_params, g_params_more, g_parameter_list, g_names, g_names_more, g_arrow,
    g_function_body, g_block, g_statements, g_binding, g_tuple_assignment, g_function, g_statement, g_expression,
    g_whole_integer, dotted_end, g_call_name};
use crate::parser::number::{double_at, i64_at};
use crate::text::{chars_of, string_of, skip_spaces, skip_tabs, letters_end, find, occurs_at, skip_ws, skip_sp,
    alpha_end, find_char, lemma_skip_ws_bounds, lemma_skip_sp_bounds, lemma_alpha_end_bounds, lemma_find_char_bounds};

verus! {

broadcast use vstd::string::group_string_axioms;

/// Why the parser read nothing: the input does not match here, or a number
/// with a broken exponent began at this position (where `nom` gives up).
#[derive(Debug, Clone, Copy, PartialEq, Eq)]
pub enum ParseError {
    Error,
    Failure(usize),
}

impl View for ParseError {
    type V = PErr;

    open spec fn view(&self) -> PErr {
        match self {
            ParseError::Error => PErr::Error,
            ParseError::Failure(p) => PErr::Failure(*p as int),
        }
    }
}

impl View for BinaryOperation {
    type V = BinaryOperation;

    open spec fn view(&self) -> BinaryOperation {
        *self
    }
}

/// `r` is what the rule's result `g` says, with each value by its view.
pub open spec fn agrees<T: View>(r: Result<(T, usize), ParseError>, g: PRes<T::V>) -> bool {
    match g {
        Ok((v, q)) => r matches Ok((x, q2)) && x@ == v && q2 == q,
        Err(f) => r matches Err(e) && e@ == f,
    }
}

/// `r` is what the rule's result `g` says, for a list of expressions.
pub open spec fn agrees_exprs(r: Result<(Vec<Expression>, usize), ParseError>, g: PRes<Seq<SpecExpression>>) -> bool {
    match g {
        Ok((v, q)) => r matches Ok((x, q2)) && exprs_view(x@) == v && q2 == q,
        Err(f) => r matches Err(e) && e@ == f,
    }
}

/// `r` is what a rule that reads input `input@` from its start gives, with the
/// input left after it.
pub open spec fn agrees_from_start<T: View>(input: Seq<char>, r: Result<(String, T), ParseError>, g: PRes<T::V>) -> bool {
    match g {
        Ok((v, q)) => r matches Ok((rest, x)) && x@ == v && rest@ == input.skip(q),
        Err(f) => r matches Err(e) && e@ == f,
    }
}

fn ident_at(s: &Vec<char>, p: usize) -> (r: Result<(String, usize), ParseError>)
    requires
        p <= s.len(),
    ensures
        agrees(r, g_ident(s@, p as int)),
        r matches Ok((_, q)) ==> p < q <= s.len(),
{
    let e = letters_end(s, p);
    proof { lemma_alpha_end_bounds(s@, p as int); }
    if e > p {
        Ok((string_of(s, p, e), e))
    } else {
        Err(ParseError::Error)
    }
}

fn boolean_at(s: &Vec<char>, p: usize) -> (r: Result<(Atom, usize), ParseError>)
    requires
        p <= s.len(),
    ensures
        agrees(r, g_boolean(s@, p as int)),
        r matches Ok((_, q)) ==> p < q <= s.len(),
{
    proof {
        reveal_strlit("true");
        reveal_strlit("false");
    }
    if occurs_at(s, p, "true") {
        Ok((Atom::Boolean(true), p + 4))
    } else if occurs_at(s, p, "false") {
        Ok((Atom::Boolean(false), p + 5))
    } else {
        Err(ParseError::Error)
    }
}

fn double_atom_at(s: &Vec<char>, p: usize) -> (r: Result<(Atom, usize), ParseError>)
    requires
        p <= s.len(),
    ensures
        agrees(r, g_double(s@, p as int)),
        r matches Ok((_, q)) ==> p < q <= s.len(),
{
    match double_at(s, p) {
        Ok((bits, q)) => Ok((Atom::Double(Float::Bits(bits)), q)),
        Err(true) => Err(ParseError::Failure(p)),
        Err(false) => Err(ParseError::Error),
    }
}

fn integer_at(s: &Vec<char>, p: usize) -> (r: Result<(Atom, usize), ParseError>)
    requires
        p <= s.len(),
    ensures
        agrees(r, g_integer(s@, p as int)),
        r matches Ok((_, q)) ==> p < q <= s.len(),
{
    match i64_at(s, p) {
        Some((v, q)) => Ok((Atom::Integer(v), q)),
        None => Err(ParseError::Error),
    }
}

fn whole_integer_at(s: &Vec<char>, p: usize) -> (r: Result<(Atom, usize), ParseError>)
    requires
        p <= s.len(),
    ensures
        agrees(r, g_whole_integer(s@, p as int)),
        r matches Ok((_, q)) ==> p < q <= s.len(),
{
    let (a, q) = integer_at(s, p)?;
    if q < s.len() && (s[q] == '.' || s[q] == 'e' || s[q] == 'E') {
        Err(ParseError::Error)
    } else {
        Ok((a, q))
    }
}

/// The end of the `.`-separated names that follow a name ending at `q`.
fn dotted_end_at(s: &Vec<char>, q: usize) -> (e: usize)
    requires
        q <= s.len(),
    ensures
        e == dotted_end(s@, q as int),
        q <= e <= s.len(),
    decreases s.len() - q,
{
    if q < s.len() && s[q] == '.' {
        let b = letters_end(s, q + 1);
        proof { crate::text::lemma_alpha_end_bounds(s@, q + 1); }
        if b > q + 1 {
            return dotted_end_at(s, b);
        }
    }
    q
}

fn string_at(s: &Vec<char>, p: usize) -> (r: Result<(Atom, usize), ParseError>)
    requires
        p <= s.len(),
    ensures
        agrees(r, g_string(s@, p as int)),
        r matches Ok((_, q)) ==> p < q <= s.len(),
{
    if p < s.len() && s[p] == '"' {
        let k = find(s, p + 1, '"');
        proof { lemma_find_char_bounds(s@, p + 1, '"'); }
        if k < s.len() {
            return Ok((Atom::String(string_of(s, p + 1, k)), k + 1));
        }
    }
    Err(ParseError::Error)
}

fn variable_at(s: &Vec<char>, p: usize) -> (r: Result<(Atom, usize), ParseError>)
    requires
        p <= s.len(),
    ensures
        agrees(r, g_variable(s@, p as int)),
        r matches Ok((_, q)) ==> p < q <= s.len(),
{
    match ident_at(s, p) {
        Ok((n, q)) => Ok((Atom::Variable(n), q)),
        Err(e) => Err(e),
    }
}

fn atom_at(s: &Vec<char>, p: usize, full: bool) -> (r: Result<(Expression, usize), ParseError>)
    requires
        p <= s.len(),
    ensures
        agrees(r, g_atom(s@, p as int, full)),
        r matches Ok((_, q)) ==> p < q <= s.len(),
{
    let number = if full {
        match double_atom_at(s, p) {
            Err(ParseError::Error) => integer_at(s, p),
            other => other,
        }
    } else {
        match whole_integer_at(s, p) {
            Err(ParseError::Error) => double_atom_at(s, p),
            other => other,
        }
    };
    let a = match boolean_at(s, p) {
        Err(ParseError::Error) => match number {
            Err(ParseError::Error) => match string_at(s, p) {
                Err(ParseError::Error) => variable_at(s, p),
                other => other,
            },
            other => other,
        },
        other => other,
    };
    match a {
        Ok((atom, q)) => Ok((Expression::Atom(atom), q)),
        Err(e) => Err(e),
    }
}

fn binary_operator_at(s: &Vec<char>, p: usize) -> (r: Result<(BinaryOperation, usize), ParseError>)
    requires
        p <= s.len(),
    ensures
        agrees(r, g_binary_operator(s@, p as int)),
        r matches Ok((_, q)) ==> p < q <= s.len(),
{
    proof {
        reveal_strlit("==");
        reveal_strlit("!=");
    }
    if p < s.len() && s[p] == '+' {
        Ok((BinaryOperation::Plus, p + 1))
    } else if p < s.len() && s[p] == '-' {
        Ok((BinaryOperation::Minus, p + 1))
    } else if p < s.len() && s[p] == '*' {
        Ok((BinaryOperation::Times, p + 1))
    } else if p < s.len() && s[p] == '/' {
        Ok((BinaryOperation::Divide, p + 1))
    } else if occurs_at(s, p, "==") {
        Ok((BinaryOperation::Equal, p + 2))
    } else if occurs_at(s, p, "!=") {
        Ok((BinaryOperation::NotEqual, p + 2))
    } else {
        Err(ParseError::Error)
    }
}

fn binary_operation_at(s: &Vec<char>, p: usize, full: bool) -> (r: Result<(Expression, usize), ParseError>)
    requires
        p <= s.len(),
    ensures
        agrees(r, g_binary_operation(s@, p as int, full)),
        r matches Ok((_, q)) ==> p < q <= s.len(),
{
    let (l, q) = atom_at(s, p, full)?;
    let q1 = skip_spaces(s, q);
    proof { lemma_skip_ws_bounds(s@, q as int); }
    let (op, q2) = binary_operator_at(s, q1)?;
    let q3 = skip_spaces(s, q2);
    proof { lemma_skip_ws_bounds(s@, q2 as int); }
    let (rhs, q4) = atom_at(s, q3, full)?;
    Ok((Expression::BinaryOperation(op, Box::new(l), Box::new(rhs)), q4))
}

fn import_at(s: &Vec<char>, p: usize) -> (r: Result<(Expression, usize), ParseError>)
    requires
        p <= s.len(),
    ensures
        agrees(r, g_import(s@, p as int)),
        r matches Ok((_, q)) ==> p < q <= s.len(),
{
    proof { reveal_strlit("import"); }
    if occurs_at(s, p, "import") {
        let a = skip_tabs(s, p + 6);
        proof { lemma_skip_sp_bounds(s@, p + 6); }
        let (n, q) = ident_at(s, a)?;
        let ghost empty: Seq<Expression> = Seq::empty();
        assert(exprs_view(empty) =~= Seq::<SpecExpression>::empty());
        Ok((Expression::MethodCall("import".to_string(), n, Vec::new()), q))
    } else {
        Err(ParseError::Error)
    }
}

fn comma_at(s: &Vec<char>, q: usize, wide: bool) -> (r: Option<usize>)
    requires
        q <= s.len(),
    ensures
        match g_comma(s@, q as int, wide) { Some(b) => r matches Some(b2) && b2 == b, None => r is None },
        r matches Some(b) ==> q < b <= s.len(),
{
    let a = if wide { skip_spaces(s, q) } else { skip_tabs(s, q) };
    proof {
        lemma_skip_ws_bounds(s@, q as int);
        lemma_skip_sp_bounds(s@, q as int);
    }
    if a < s.len() && s[a] == ',' {
        let b = if wide { skip_spaces(s, a + 1) } else { skip_tabs(s, a + 1) };
        proof {
            lemma_skip_ws_bounds(s@, a + 1);
            lemma_skip_sp_bounds(s@, a + 1);
        }
        Some(b)
    } else {
        None
    }
}

fn list_at(s: &Vec<char>, q: usize, wide: bool, full: bool) -> (r: Result<(Vec<Expression>, usize), ParseError>)
    requires
        q <= s.len(),
    ensures
        agrees_exprs(r, g_list(s@, q as int, wide, full)),
        r matches Ok((_, q2)) ==> q <= q2 <= s.len(),
    decreases s.len() - q, 10int,
{
    match expression_at(s, q, full) {
        Err(ParseError::Error) => {
            let v: Vec<Expression> = Vec::new();
            assert(exprs_view(v@) =~= Seq::<SpecExpression>::empty());
            Ok((v, q))
        },
        Err(e) => Err(e),
        Ok((e, q1)) => {
            let (rest, r) = list_more_at(s, q1, wide, full)?;
            let ghost rv = exprs_view(rest@);
            let mut out: Vec<Expression> = Vec::new();
            out.push(e);
            let out = join_exprs(out, rest);
            proof {
                let one: Seq<Expression> = seq![e];
                lemma_exprs_view_push(Seq::<Expression>::empty(), e);
                assert(Seq::<Expression>::empty().push(e) =~= one);
            }
            Ok((out, r))
        },
    }
}

/// `a` followed by `b`.
fn join_exprs(a: Vec<Expression>, b: Vec<Expression>) -> (r: Vec<Expression>)
    ensures
        exprs_view(r@) == exprs_view(a@) + exprs_view(b@),
{
    let mut a = a;
    let mut b = b;
    proof { crate::ast::model::lemma_exprs_concat(a@, b@); }
    a.append(&mut b);
    a
}

fn list_more_at(s: &Vec<char>, q: usize, wide: bool, full: bool) -> (r: Result<(Vec<Expression>, usize), ParseError>)
    requires
        q <= s.len(),
    ensures
        agrees_exprs(r, g_list_more(s@, q as int, wide, full)),
        r matches Ok((_, q2)) ==> q <= q2 <= s.len(),
    decreases s.len() - q, 10int,
{
    let empty = || -> (v: Vec<Expression>)
        ensures
            exprs_view(v@) == Seq::<SpecExpression>::empty(),
    {
        let v: Vec<Expression> = Vec::new();
        assert(exprs_view(v@) =~= Seq::<SpecExpression>::empty());
        v
    };
    match comma_at(s, q, wide) {
        None => Ok((empty(), q)),
        Some(b) => match expression_at(s, b, full) {
            Err(ParseError::Error) => Ok((empty(), q)),
            Err(e) => Err(e),
            Ok((e, q2)) => {
                let (rest, r) = list_more_at(s, q2, wide, full)?;
                let mut out: Vec<Expression> = Vec::new();
                out.push(e);
                proof {
                    lemma_exprs_view_push(Seq::<Expression>::empty(), e);
                    assert(Seq::<Expression>::empty().push(e) =~= seq![e]);
                }
                Ok((join_exprs(out, rest), r))
            },
        },
    }
}

fn tuple_at(s: &Vec<char>, p: usize, full: bool) -> (r: Result<(Expression, usize), ParseError>)
    requires
        p <= s.len(),
    ensures
        agrees(r, g_tuple(s@, p as int, full)),
        r matches Ok((_, q)) ==> p < q <= s.len(),
    decreases s.len() - p, 3int,
{
    if p < s.len() && s[p] == '[' {
        let (es, q) = list_at(s, p + 1, true, full)?;
        if q < s.len() && s[q] == ']' {
            return Ok((Expression::Tuple(es), q + 1));
        }
    }
    Err(ParseError::Error)
}

fn call_at(s: &Vec<char>, p: usize, full: bool) -> (r: Result<(String, Vec<Expression>, usize), ParseError>)
    requires
        p <= s.len(),
    ensures
        match g_call(s@, p as int, full) {
            Ok(((n, args), q)) => r matches Ok((x, a, q2)) && x@ == n && exprs_view(a@) == args && q2 == q,
            Err(f) => r matches Err(e) && e@ == f,
        },
        r matches Ok((_, _, q)) ==> p < q <= s.len(),
    decreases s.len() - p, 3int,
{
    let (n, q) = ident_at(s, p)?;
    let (n, q) = if full {
        (n, q)
    } else {
        let e = dotted_end_at(s, q);
        (string_of(s, p, e), e)
    };
    if q < s.len() && s[q] == '(' {
        let (args, r) = list_at(s, q + 1, true, full)?;
        if r < s.len() && s[r] == ')' {
            return Ok((n, args, r + 1));
        }
    }
    Err(ParseError::Error)
}

fn function_call_at(s: &Vec<char>, p: usize, full: bool) -> (r: Result<(Expression, usize), ParseError>)
    requires
        p <= s.len(),
    ensures
        agrees(r, g_function_call(s@, p as int, full)),
        r matches Ok((_, q)) ==> p < q <= s.len(),
    decreases s.len() - p, 4int,
{
    let (n, args, q) = call_at(s, p, full)?;
    Ok((Expression::FunctionCall(n, args), q))
}

fn method_call_at(s: &Vec<char>, p: usize, full: bool) -> (r: Result<(Expression, usize), ParseError>)
    requires
        p <= s.len(),
    ensures
        agrees(r, g_method_call(s@, p as int, full)),
        r matches Ok((_, q)) ==> p < q <= s.len(),
    decreases s.len() - p, 3int,
{
    let (o, q) = ident_at(s, p)?;
    let a = skip_tabs(s, q);
    proof { lemma_skip_sp_bounds(s@, q as int); }
    if a < s.len() && s[a] == '.' {
        let (m, q2) = ident_at(s, a + 1)?;
        let b = skip_tabs(s, q2);
        proof { lemma_skip_sp_bounds(s@, q2 as int); }
        if b < s.len() && s[b] == '(' {
            let (args, r) = list_at(s, b + 1, false, full)?;
            if r < s.len() && s[r] == ')' {
                return Ok((Expression::MethodCall(o, m, args), r + 1));
            }
        }
    }
    Err(ParseError::Error)
}

fn parameter_at(s: &Vec<char>, p: usize, full: bool) -> (r: Result<(Parameter, usize), ParseError>)
    requires
        p <= s.len(),
    ensures
        agrees(r, g_parameter(s@, p as int, full)),
        r matches Ok((_, q)) ==> p < q <= s.len(),
    decreases s.len() - p, 3int,
{
    let (n, q) = ident_at(s, p)?;
    if q < s.len() && s[q] == '=' {
        match expression_at(s, q + 1, full) {
            Ok((e, r)) => { return Ok((Parameter { name: n, default_value: Some(e) }, r)); },
            Err(ParseError::Error) => {},
            Err(e) => { return Err(e); },
        }
    }
    Ok((Parameter { name: n, default_value: None }, q))
}

/// `a` followed by `b`.
fn join_params(a: Vec<Parameter>, b: Vec<Parameter>) -> (r: Vec<Parameter>)
    ensures
        params_view(r@) == params_view(a@) + params_view(b@),
{
    let mut a = a;
    let mut b = b;
    proof { crate::ast::model::lemma_params_concat(a@, b@); }
    a.append(&mut b);
    a
}

fn params_at(s: &Vec<char>, q: usize, full: bool) -> (r: Result<(Vec<Parameter>, usize), ParseError>)
    requires
        q <= s.len(),
    ensures
        match g_params(s@, q as int, full) {
            Ok((v, q1)) => r matches Ok((x, q2)) && params_view(x@) == v && q2 == q1,
            Err(f) => r matches Err(e) && e@ == f,
        },
        r matches Ok((_, q2)) ==> q <= q2 <= s.len(),
    decreases s.len() - q, 4int,
{
    match parameter_at(s, q, full) {
        Err(ParseError::Error) => {
            let v: Vec<Parameter> = Vec::new();
            assert(params_view(v@) =~= Seq::<crate::ast::model::SpecParameter>::empty());
            Ok((v, q))
        },
        Err(e) => Err(e),
        Ok((x, q1)) => {
            let (rest, r) = params_more_at(s, q1, full)?;
            let mut out: Vec<Parameter> = Vec::new();
            out.push(x);
            proof {
                lemma_params_view_push(Seq::<Parameter>::empty(), x);
                assert(Seq::<Parameter>::empty().push(x) =~= seq![x]);
            }
            Ok((join_params(out, rest), r))
        },
    }
}

fn params_more_at(s: &Vec<char>, q: usize, full: bool) -> (r: Result<(Vec<Parameter>, usize), ParseError>)
    requires
        q <= s.len(),
    ensures
        match g_params_more(s@, q as int, full) {
            Ok((v, q1)) => r matches Ok((x, q2)) && params_view(x@) == v && q2 == q1,
            Err(f) => r matches Err(e) && e@ == f,
        },
        r matches Ok((_, q2)) ==> q <= q2 <= s.len(),
    decreases s.len() - q, 4int,
{
    let empty = || -> (v: Vec<Parameter>)
        ensures
            params_view(v@) == Seq::<crate::ast::model::SpecParameter>::empty(),
    {
        let v: Vec<Parameter> = Vec::new();
        assert(params_view(v@) =~= Seq::<crate::ast::model::SpecParameter>::empty());
        v
    };
    match comma_at(s, q, true) {
        None => Ok((empty(), q)),
        Some(b) => match parameter_at(s, b, full) {
            Err(ParseError::Error) => Ok((empty(), q)),
            Err(e) => Err(e),
            Ok((x, q2)) => {
                let (rest, r) = params_more_at(s, q2, full)?;
                let mut out: Vec<Parameter> = Vec::new();
                out.push(x);
                proof {
                    lemma_params_view_push(Seq::<Parameter>::empty(), x);
                    assert(Seq::<Parameter>::empty().push(x) =~= seq![x]);
                }
                Ok((join_params(out, rest), r))
            },
        },
    }
}

fn parameter_list_at(s: &Vec<char>, p: usize, full: bool) -> (r: Result<(Vec<Parameter>, usize), ParseError>)
    requires
        p <= s.len(),
    ensures
        match g_parameter_list(s@, p as int, full) {
            Ok((v, q1)) => r matches Ok((x, q2)) && params_view(x@) == v && q2 == q1,
            Err(f) => r matches Err(e) && e@ == f,
        },
        r matches Ok((_, q)) ==> p < q <= s.len(),
    decreases s.len() - p, 5int,
{
    if p < s.len() && s[p] == '(' {
        let (ps, q) = params_at(s, p + 1, full)?;
        if q < s.len() && s[q] == ')' {
            return Ok((ps, q + 1));
        }
    }
    Err(ParseError::Error)
}

fn names_at(s: &Vec<char>, q: usize) -> (r: Result<(Vec<String>, usize), ParseError>)
    requires
        q <= s.len(),
    ensures
        match g_names(s@, q as int) {
            Ok((v, q1)) => r matches Ok((x, q2)) && names_view(x@) == v && q2 == q1,
            Err(f) => r matches Err(e) && e@ == f,
        },
        r matches Ok((_, q2)) ==> q <= q2 <= s.len(),
{
    let mut out: Vec<String> = Vec::new();
    match ident_at(s, q) {
        Err(_) => {
            assert(names_view(out@) =~= Seq::<Seq<char>>::empty());
            Ok((out, q))
        },
        Ok((n, q1)) => {
            let ghost nv = n@;
            out.push(n);
            let ghost mid = out@;
            assert(names_view(mid) =~= seq![nv]);
            let r = names_more_at(s, q1, &mut out);
            match r {
                Ok(r) => Ok((out, r)),
                Err(e) => Err(e),
            }
        },
    }
}

/// Reads the `, name` pairs at `q`, appending the names to `out`.
fn names_more_at(s: &Vec<char>, q: usize, out: &mut Vec<String>) -> (r: Result<usize, ParseError>)
    requires
        q <= s.len(),
    ensures
        match g_names_more(s@, q as int) {
            Ok((v, q1)) => r matches Ok(q2) && q2 == q1 && names_view(final(out)@) == names_view(old(out)@) + v,
            Err(f) => r matches Err(e) && e@ == f,
        },
        r matches Ok(q2) ==> q <= q2 <= s.len(),
    decreases s.len() - q,
{
    match comma_at(s, q, true) {
        None => {
            assert(names_view(out@) =~= names_view(out@) + Seq::<Seq<char>>::empty());
            Ok(q)
        },
        Some(b) => match ident_at(s, b) {
            Err(_) => {
                assert(names_view(out@) =~= names_view(out@) + Seq::<Seq<char>>::empty());
                Ok(q)
            },
            Ok((n, q2)) => {
                let ghost before = out@;
                let ghost nv = n@;
                out.push(n);
                let ghost mid = out@;
                assert(names_view(mid) =~= names_view(before).push(nv));
                let r = names_more_at(s, q2, out);
                proof {
                    if let Ok((rest, _)) = g_names_more(s@, q2 as int) {
                        assert(names_view(before) + (seq![nv] + rest) =~= names_view(before).push(nv) + rest);
                    }
                }
                r
            },
        },
    }
}

fn arrow_at(s: &Vec<char>, p: usize) -> (r: Option<usize>)
    requires
        p <= s.len(),
    ensures
        match g_arrow(s@, p as int) { Some(a) => r matches Some(a2) && a2 == a, None => r is None },
        r matches Some(a) ==> p < a <= s.len(),
{
    proof { reveal_strlit("=>"); }
    let a = skip_tabs(s, p);
    proof { lemma_skip_sp_bounds(s@, p as int); }
    if occurs_at(s, a, "=>") {
        let b = skip_tabs(s, a + 2);
        proof { lemma_skip_sp_bounds(s@, a + 2); }
        Some(b)
    } else {
        None
    }
}

fn function_body_at(s: &Vec<char>, p: usize, full: bool) -> (r: Result<(Block, usize), ParseError>)
    requires
        p <= s.len(),
    ensures
        agrees(r, g_function_body(s@, p as int, full)),
        r matches Ok((_, q)) ==> p < q <= s.len(),
    decreases s.len() - p, 3int,
{
    match arrow_at(s, p) {
        None => Err(ParseError::Error),
        Some(a) => match expression_at(s, a, full) {
            Ok((e, q)) => {
                let stmts: Vec<Statement> = Vec::new();
                assert(stmts_view(stmts@) =~= Seq::<SpecStatement>::empty());
                Ok((Block { statements: stmts, return_expr: e }, q))
            },
            Err(ParseError::Error) => {
                let (b, q) = block_at(s, a, full)?;
                let q2 = skip_spaces(s, q);
                proof { lemma_skip_ws_bounds(s@, q as int); }
                Ok((b, q2))
            },
            Err(e) => Err(e),
        },
    }
}

fn block_at(s: &Vec<char>, p: usize, full: bool) -> (r: Result<(Block, usize), ParseError>)
    requires
        p <= s.len(),
    ensures
        agrees(r, g_block(s@, p as int, full)),
        r matches Ok((_, q)) ==> p < q <= s.len(),
    decreases s.len() - p, 12int,
{
    let (stmts, q) = statements_at(s, p, full)?;
    let c = skip_spaces(s, q);
    proof { lemma_skip_ws_bounds(s@, q as int); }
    let (e, r) = expression_at(s, c, full)?;
    Ok((Block { statements: stmts, return_expr: e }, r))
}

/// `a` followed by `b`.
fn join_stmts(a: Vec<Statement>, b: Vec<Statement>) -> (r: Vec<Statement>)
    ensures
        stmts_view(r@) == stmts_view(a@) + stmts_view(b@),
{
    let mut a = a;
    let mut b = b;
    proof { crate::ast::model::lemma_stmts_concat(a@, b@); }
    a.append(&mut b);
    a
}

fn statements_at(s: &Vec<char>, p: usize, full: bool) -> (r: Result<(Vec<Statement>, usize), ParseError>)
    requires
        p <= s.len(),
    ensures
        match g_statements(s@, p as int, full) {
            Ok((v, q1)) => r matches Ok((x, q2)) && stmts_view(x@) == v && q2 == q1,
            Err(f) => r matches Err(e) && e@ == f,
        },
        r matches Ok((_, q2)) ==> p <= q2 <= s.len(),
        !(r matches Err(ParseError::Error)),
    decreases s.len() - p, 11int,
{
    let t = skip_spaces(s, p);
    proof { lemma_skip_ws_bounds(s@, p as int); }
    match statement_at(s, t, full) {
        Err(ParseError::Error) => {
            let v: Vec<Statement> = Vec::new();
            assert(stmts_view(v@) =~= Seq::<SpecStatement>::empty());
            Ok((v, p))
        },
        Err(e) => Err(e),
        Ok((st, q)) => {
            let (rest, r) = statements_at(s, q, full)?;
            let mut out: Vec<Statement> = Vec::new();
            out.push(st);
            proof {
                lemma_stmts_view_push(Seq::<Statement>::empty(), st);
                assert(Seq::<Statement>::empty().push(st) =~= seq![st]);
            }
            Ok((join_stmts(out, rest), r))
        },
    }
}

fn binding_at(s: &Vec<char>, p: usize, full: bool) -> (r: Result<(String, Expression, usize), ParseError>)
    requires
        p <= s.len(),
    ensures
        match g_binding(s@, p as int, full) {
            Ok(((n, e), q)) => r matches Ok((x, y, q2)) && x@ == n && y@ == e && q2 == q,
            Err(f) => r matches Err(e) && e@ == f,
        },
        r matches Ok((_, _, q)) ==> p < q <= s.len(),
    decreases s.len() - p, 3int,
{
    let (n, q) = ident_at(s, p)?;
    let a = skip_tabs(s, q);
    proof { lemma_skip_sp_bounds(s@, q as int); }
    if a < s.len() && s[a] == '=' {
        let b = skip_tabs(s, a + 1);
        proof { lemma_skip_sp_bounds(s@, a + 1); }
        let (e, r) = expression_at(s, b, full)?;
        Ok((n, e, r))
    } else {
        Err(ParseError::Error)
    }
}

fn tuple_assignment_at(s: &Vec<char>, p: usize, full: bool) -> (r: Result<(Statement, usize), ParseError>)
    requires
        p <= s.len(),
    ensures
        agrees(r, g_tuple_assignment(s@, p as int, full)),
        r matches Ok((_, q)) ==> p < q <= s.len(),
    decreases s.len() - p, 3int,
{
    if p < s.len() && s[p] == '[' {
        let (ns, q) = names_at(s, p + 1)?;
        if q < s.len() && s[q] == ']' {
            let a = skip_tabs(s, q + 1);
            proof { lemma_skip_sp_bounds(s@, q + 1); }
            if a < s.len() && s[a] == '=' {
                let b = skip_tabs(s, a + 1);
                proof { lemma_skip_sp_bounds(s@, a + 1); }
                let (e, r) = expression_at(s, b, full)?;
                return Ok((Statement::TupleAssignment(ns, e), r));
            }
        }
    }
    Err(ParseError::Error)
}

fn function_at(s: &Vec<char>, p: usize, full: bool) -> (r: Result<(Function, usize), ParseError>)
    requires
        p <= s.len(),
    ensures
        agrees(r, g_function(s@, p as int, full)),
        r matches Ok((_, q)) ==> p < q <= s.len(),
    decreases s.len() - p, 8int,
{
    let (name, q) = ident_at(s, p)?;
    let (parameters, q2) = parameter_list_at(s, q, full)?;
    let (body, q3) = function_body_at(s, q2, full)?;
    Ok((Function { name, parameters, body }, q3))
}

pub(crate) fn statement_at(s: &Vec<char>, p: usize, full: bool) -> (r: Result<(Statement, usize), ParseError>)
    requires
        p <= s.len(),
    ensures
        agrees(r, g_statement(s@, p as int, full)),
        r matches Ok((_, q)) ==> p < q <= s.len(),
    decreases s.len() - p, 10int,
{
    match binding_at(s, p, full) {
        Ok((n, e, q)) => { return Ok((Statement::VariableDeclaration(n, e), q)); },
        Err(ParseError::Error) => {},
        Err(e) => { return Err(e); },
    }
    match tuple_assignment_at(s, p, full) {
        Err(ParseError::Error) => {},
        other => { return other; },
    }
    match function_at(s, p, full) {
        Ok((f, q)) => { return Ok((Statement::FunctionDefinition(f), q)); },
        Err(ParseError::Error) => {},
        Err(e) => { return Err(e); },
    }
    match call_at(s, p, full) {
        Ok((n, args, q)) => Ok((Statement::FunctionCall(n, args), q)),
        Err(e) => Err(e),
    }
}

fn expression_at(s: &Vec<char>, p: usize, full: bool) -> (r: Result<(Expression, usize), ParseError>)
    requires
        p <= s.len(),
    ensures
        agrees(r, g_expression(s@, p as int, full)),
        r matches Ok((_, q)) ==> p < q <= s.len(),
    decreases s.len() - p, 9int,
{
    if full {
        match function_at(s, p, full) {
            Ok((f, q)) => { return Ok((Expression::Function(Box::new(f)), q)); },
            Err(ParseError::Error) => {},
            Err(e) => { return Err(e); },
        }
    }
    match binary_operation_at(s, p, full) {
        Err(ParseError::Error) => {},
        other => { return other; },
    }
    match tuple_at(s, p, full) {
        Err(ParseError::Error) => {},
        other => { return other; },
    }
    if full {
        match import_at(s, p) {
            Err(ParseError::Error) => {},
            other => { return other; },
        }
        match method_call_at(s, p, full) {
            Err(ParseError::Error) => {},
            other => { return other; },
        }
    }
    match function_call_at(s, p, full) {
        Err(ParseError::Error) => {},
        other => { return other; },
    }
    atom_at(s, p, full)
}

/// Reads a statement at the start of `input`.
pub fn parse_statement(input: &str) -> (r: Result<(String, Statement), ParseError>)
    ensures
        agrees_from_start(input@, r, g_statement(input@, 0, true)),
{
    let s = chars_of(input);
    let (st, q) = statement_at(&s, 0, true)?;
    Ok((string_of(&s, q, s.len()), st))
}

/// Reads a binary operator at the start of `input`.
pub fn parse_binary_operator(input: &str) -> (r: Result<(String, BinaryOperation), ParseError>)
    ensures
        agrees_from_start(input@, r, g_binary_operator(input@, 0)),
{
    let s = chars_of(input);
    let (op, q) = binary_operator_at(&s, 0)?;
    Ok((string_of(&s, q, s.len()), op))
}

/// Reads an atom, an operator and an atom at the start of `input`.
pub fn parse_binary_operation(input: &str) -> (r: Result<(String, Expression), ParseError>)
    ensures
        agrees_from_start(input@, r, g_binary_operation(input@, 0, true)),
{
    let s = chars_of(input);
    let (e, q) = binary_operation_at(&s, 0, true)?;
    Ok((string_of(&s, q, s.len()), e))
}

/// Reads an expression at the start of `input`.
pub fn parse_expression(input: &str) -> (r: Result<(String, Expression), ParseError>)
    ensures
        agrees_from_start(input@, r, g_expression(input@, 0, true)),
{
    let s = chars_of(input);
    let (e, q) = expression_at(&s, 0, true)?;
    Ok((string_of(&s, q, s.len()), e))
}

/// Reads the statements of a program, each after optional white space, as
/// many as there are: the statements and the input left after them.
pub fn parse_program(input: &str) -> (r: Result<(String, Vec<Statement>), ParseError>)
    ensures
        match g_statements(input@, 0, true) {
            Ok((v, q)) => r matches Ok((rest, x)) && stmts_view(x@) == v && rest@ == input@.skip(q),
            Err(f) => r matches Err(e) && e@ == f,
        },
        !(g_statements(input@, 0, true) matches Err(PErr::Error)),
{
    let s = chars_of(input);
    let (stmts, q) = statements_at(&s, 0, true)?;
    Ok((string_of(&s, q, s.len()), stmts))
}

} // verus!
