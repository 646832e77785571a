//! The grammar of the language as functions from a position in the input to
//! what is read there and where reading stopped.
//!
//! A rule that does not match gives `Err(PErr::Error)`, and the rule that
//! tried it goes on with its next alternative. A number with an exponent
//! marker and no exponent digits (`1e`) gives `Err(PErr::Failure(p))`, with
//! `p` where the number began: no alternative is tried after it.
use vstd::prelude::*;
use crate::ast::binaryop::BinaryOperation;
use crate::ast::atom::Float;
use crate::ast::model::{SpecAtom, SpecExpression, SpecFunction, SpecParameter, SpecBlock, SpecStatement};
use crate::text::{alpha_end, skip_ws, skip_sp, find_char, has_at};
use crate::parser::number::{float_len, nom_double_bits, i64_literal};

verus! {

/// Why a rule did not read anything.
pub enum PErr {
    /// The rule does not match here.
    Error,
    /// A number began at this position with a broken exponent.
    Failure(int),
}

/// What a rule reads, with the position after it.
pub type PRes<T> = Result<(T, int), PErr>;

/// The first alternative unless it does not match, else the second.
pub open spec fn alt<T>(a: PRes<T>, b: PRes<T>) -> PRes<T> {
    match a {
        Err(PErr::Error) => b,
        _ => a,
    }
}

/// `q` is a position after `p` within `s`.
pub open spec fn after(s: Seq<char>, p: int, q: int) -> bool {
    p < q <= s.len()
}

/// `c` stands at position `p`.
pub open spec fn char_at(s: Seq<char>, p: int, c: char) -> bool {
    0 <= p < s.len() && s[p] == c
}

/// One or more letters.
pub open spec fn g_ident(s: Seq<char>, p: int) -> PRes<Seq<char>> {
    if 0 <= p <= s.len() && alpha_end(s, p) > p {
        Ok((s.subrange(p, alpha_end(s, p)), alpha_end(s, p)))
    } else {
        Err(PErr::Error)
    }
}

/// `true` or `false`.
pub open spec fn g_boolean(s: Seq<char>, p: int) -> PRes<SpecAtom> {
    if has_at(s, p, "true"@) {
        Ok((SpecAtom::Boolean(true), p + "true"@.len()))
    } else if has_at(s, p, "false"@) {
        Ok((SpecAtom::Boolean(false), p + "false"@.len()))
    } else {
        Err(PErr::Error)
    }
}

/// A floating-point literal, read by `nom`'s `double`.
pub open spec fn g_double(s: Seq<char>, p: int) -> PRes<SpecAtom> {
    if 0 <= p <= s.len() {
        match float_len(s.skip(p)) {
            Ok(n) => Ok((SpecAtom::Double(Float::Bits(nom_double_bits(s.skip(p)))), p + n)),
            Err(true) => Err(PErr::Failure(p)),
            Err(false) => Err(PErr::Error),
        }
    } else {
        Err(PErr::Error)
    }
}

/// A decimal `i64` with an optional sign.
pub open spec fn g_integer(s: Seq<char>, p: int) -> PRes<SpecAtom> {
    match i64_literal(s, p) {
        Some((v, q)) => Ok((SpecAtom::Integer(v), q)),
        None => Err(PErr::Error),
    }
}

/// Characters between two double quotes.
pub open spec fn g_string(s: Seq<char>, p: int) -> PRes<SpecAtom> {
    if char_at(s, p, '"') && find_char(s, p + 1, '"') < s.len() {
        Ok((SpecAtom::String(s.subrange(p + 1, find_char(s, p + 1, '"'))), find_char(s, p + 1, '"') + 1))
    } else {
        Err(PErr::Error)
    }
}

/// A name read as a variable.
pub open spec fn g_variable(s: Seq<char>, p: int) -> PRes<SpecAtom> {
    match g_ident(s, p) {
        Ok((n, q)) => Ok((SpecAtom::Variable(n), q)),
        Err(f) => Err(f),
    }
}

/// A decimal `i64` with an optional sign that no `.`, `e` or `E` follows.
pub open spec fn g_whole_integer(s: Seq<char>, p: int) -> PRes<SpecAtom> {
    match g_integer(s, p) {
        Ok((a, q)) => if char_at(s, q, '.') || char_at(s, q, 'e') || char_at(s, q, 'E') {
            Err(PErr::Error)
        } else {
            Ok((a, q))
        },
        Err(f) => Err(f),
    }
}

/// A boolean, a number, a string or a variable, tried in that order. In
/// the smaller grammar (`full` false) a number without a fraction or an
/// exponent that fits in an `i64` is an integer; in the full grammar every
/// number that reads as a double is one.
pub open spec fn g_atom(s: Seq<char>, p: int, full: bool) -> PRes<SpecExpression> {
    let number = if full {
        alt(g_double(s, p), g_integer(s, p))
    } else {
        alt(g_whole_integer(s, p), g_double(s, p))
    };
    match alt(g_boolean(s, p), alt(number, alt(g_string(s, p), g_variable(s, p)))) {
        Ok((a, q)) => Ok((SpecExpression::Atom(a), q)),
        Err(f) => Err(f),
    }
}

/// The end of a name and any `.`-separated names after it, from the end
/// `q` of the first.
pub open spec fn dotted_end(s: Seq<char>, q: int) -> int
    decreases s.len() - q,
{
    if 0 <= q && char_at(s, q, '.') && alpha_end(s, q + 1) > q + 1 && alpha_end(s, q + 1) <= s.len() {
        dotted_end(s, alpha_end(s, q + 1))
    } else {
        q
    }
}

/// The name of a called function: a name, and in the smaller grammar also
/// names joined by `.` (`math.abs`).
pub open spec fn g_call_name(s: Seq<char>, p: int, full: bool) -> PRes<Seq<char>> {
    match g_ident(s, p) {
        Ok((n, q)) => if full {
            Ok((n, q))
        } else {
            Ok((s.subrange(p, dotted_end(s, q)), dotted_end(s, q)))
        },
        Err(f) => Err(f),
    }
}

/// `+`, `-`, `*`, `/`, `==` or `!=`.
pub open spec fn g_binary_operator(s: Seq<char>, p: int) -> PRes<BinaryOperation> {
    if char_at(s, p, '+') {
        Ok((BinaryOperation::Plus, p + 1))
    } else if char_at(s, p, '-') {
        Ok((BinaryOperation::Minus, p + 1))
    } else if char_at(s, p, '*') {
        Ok((BinaryOperation::Times, p + 1))
    } else if char_at(s, p, '/') {
        Ok((BinaryOperation::Divide, p + 1))
    } else if has_at(s, p, "=="@) {
        Ok((BinaryOperation::Equal, p + 2))
    } else if has_at(s, p, "!="@) {
        Ok((BinaryOperation::NotEqual, p + 2))
    } else {
        Err(PErr::Error)
    }
}

/// Each operator is read from its own characters: `+` as `Plus`, `-` as
/// `Minus`, `*` as `Times`, `/` as `Divide`, `==` as `Equal` and `!=` as
/// `NotEqual`, each with the position after it; at any other character
/// nothing is read.
pub proof fn lemma_operator_characters(s: Seq<char>, p: int)
    ensures
        char_at(s, p, '+') ==> g_binary_operator(s, p) == Ok::<(BinaryOperation, int), PErr>((BinaryOperation::Plus, p + 1)),
        char_at(s, p, '-') ==> g_binary_operator(s, p) == Ok::<(BinaryOperation, int), PErr>((BinaryOperation::Minus, p + 1)),
        char_at(s, p, '*') ==> g_binary_operator(s, p) == Ok::<(BinaryOperation, int), PErr>((BinaryOperation::Times, p + 1)),
        char_at(s, p, '/') ==> g_binary_operator(s, p) == Ok::<(BinaryOperation, int), PErr>((BinaryOperation::Divide, p + 1)),
        char_at(s, p, '=') && char_at(s, p + 1, '=') ==>
            g_binary_operator(s, p) == Ok::<(BinaryOperation, int), PErr>((BinaryOperation::Equal, p + 2)),
        char_at(s, p, '!') && char_at(s, p + 1, '=') ==>
            g_binary_operator(s, p) == Ok::<(BinaryOperation, int), PErr>((BinaryOperation::NotEqual, p + 2)),
        !(char_at(s, p, '+') || char_at(s, p, '-') || char_at(s, p, '*') || char_at(s, p, '/')
            || (char_at(s, p, '=') && char_at(s, p + 1, '=')) || (char_at(s, p, '!') && char_at(s, p + 1, '='))) ==>
            g_binary_operator(s, p) == Err::<(BinaryOperation, int), PErr>(PErr::Error),
{
    reveal_strlit("==");
    reveal_strlit("!=");
    if 0 <= p && p + 2 <= s.len() {
        let w = s.subrange(p, p + 2);
        assert(w[0] == s[p] && w[1] == s[p + 1]);
        if s[p] == '=' && s[p + 1] == '=' {
            assert(w =~= "=="@);
        }
        if s[p] == '!' && s[p + 1] == '=' {
            assert(w =~= "!="@);
        }
    }
}

/// An atom, an operator and an atom, with white space allowed around the
/// operator.
pub open spec fn g_binary_operation(s: Seq<char>, p: int, full: bool) -> PRes<SpecExpression> {
    match g_atom(s, p, full) {
        Ok((l, q)) => match g_binary_operator(s, skip_ws(s, q)) {
            Ok((op, q2)) => match g_atom(s, skip_ws(s, q2), full) {
                Ok((r, q3)) => Ok((SpecExpression::BinaryOperation(op, Box::new(l), Box::new(r)), q3)),
                Err(f) => Err(f),
            },
            Err(f) => Err(f),
        },
        Err(f) => Err(f),
    }
}

/// `import`, optional spaces and a name.
pub open spec fn g_import(s: Seq<char>, p: int) -> PRes<SpecExpression> {
    if has_at(s, p, "import"@) {
        match g_ident(s, skip_sp(s, p + "import"@.len())) {
            Ok((n, q)) => Ok((SpecExpression::MethodCall("import"@, n, Seq::empty()), q)),
            Err(f) => Err(f),
        }
    } else {
        Err(PErr::Error)
    }
}

/// Where the separator `,` that starts at `q` ends: white space of any kind
/// may stand around it when `wide`, spaces and tabs otherwise.
pub open spec fn g_comma(s: Seq<char>, q: int, wide: bool) -> Option<int> {
    let a = if wide { skip_ws(s, q) } else { skip_sp(s, q) };
    if char_at(s, a, ',') {
        Some(if wide { skip_ws(s, a + 1) } else { skip_sp(s, a + 1) })
    } else {
        None
    }
}

/// Expressions separated by commas; possibly none.
pub open spec fn g_list(s: Seq<char>, q: int, wide: bool, full: bool) -> PRes<Seq<SpecExpression>>
    decreases s.len() - q, 10int,
{
    match g_expression(s, q, full) {
        Err(PErr::Error) => Ok((Seq::empty(), q)),
        Err(f) => Err(f),
        Ok((e, q1)) => {
            if !after(s, q, q1) {
                Err(PErr::Error)
            } else {
                match g_list_more(s, q1, wide, full) {
                    Ok((rest, r)) => Ok((seq![e] + rest, r)),
                    Err(f) => Err(f),
                }
            }
        },
    }
}

/// The `, expression` pairs that follow the first item of a list.
pub open spec fn g_list_more(s: Seq<char>, q: int, wide: bool, full: bool) -> PRes<Seq<SpecExpression>>
    decreases s.len() - q, 10int,
{
    match g_comma(s, q, wide) {
        None => Ok((Seq::empty(), q)),
        Some(b) => {
            if !after(s, q, b) {
                Err(PErr::Error)
            } else {
                match g_expression(s, b, full) {
                    Err(PErr::Error) => Ok((Seq::empty(), q)),
                    Err(f) => Err(f),
                    Ok((e, q2)) => {
                        if !after(s, q, q2) {
                            Err(PErr::Error)
                        } else {
                            match g_list_more(s, q2, wide, full) {
                                Ok((rest, r)) => Ok((seq![e] + rest, r)),
                                Err(f) => Err(f),
                            }
                        }
                    },
                }
            }
        },
    }
}

/// `[`, a list of expressions and `]`.
pub open spec fn g_tuple(s: Seq<char>, p: int, full: bool) -> PRes<SpecExpression>
    decreases s.len() - p, 3int,
{
    if char_at(s, p, '[') {
        match g_list(s, p + 1, true, full) {
            Ok((es, q)) => if char_at(s, q, ']') {
                Ok((SpecExpression::Tuple(es), q + 1))
            } else {
                Err(PErr::Error)
            },
            Err(f) => Err(f),
        }
    } else {
        Err(PErr::Error)
    }
}

/// A name, `(`, a list of expressions and `)`: the name and the arguments.
pub open spec fn g_call(s: Seq<char>, p: int, full: bool) -> PRes<(Seq<char>, Seq<SpecExpression>)>
    decreases s.len() - p, 3int,
{
    match g_call_name(s, p, full) {
        Ok((n, q)) => if char_at(s, q, '(') && after(s, p, q) {
            match g_list(s, q + 1, true, full) {
                Ok((args, r)) => if char_at(s, r, ')') {
                    Ok(((n, args), r + 1))
                } else {
                    Err(PErr::Error)
                },
                Err(f) => Err(f),
            }
        } else {
            Err(PErr::Error)
        },
        Err(f) => Err(f),
    }
}

/// A call of a function, as an expression.
pub open spec fn g_function_call(s: Seq<char>, p: int, full: bool) -> PRes<SpecExpression>
    decreases s.len() - p, 4int,
{
    match g_call(s, p, full) {
        Ok(((n, args), q)) => Ok((SpecExpression::FunctionCall(n, args), q)),
        Err(f) => Err(f),
    }
}

/// A name, `.`, a name, `(`, a list of expressions with spaces or tabs
/// around the commas, and `)`.
pub open spec fn g_method_call(s: Seq<char>, p: int, full: bool) -> PRes<SpecExpression>
    decreases s.len() - p, 3int,
{
    match g_ident(s, p) {
        Ok((o, q)) => {
            let a = skip_sp(s, q);
            if char_at(s, a, '.') {
                match g_ident(s, a + 1) {
                    Ok((m, q2)) => {
                        let b = skip_sp(s, q2);
                        if char_at(s, b, '(') && after(s, p, b) {
                            match g_list(s, b + 1, false, full) {
                                Ok((args, r)) => if char_at(s, r, ')') {
                                    Ok((SpecExpression::MethodCall(o, m, args), r + 1))
                                } else {
                                    Err(PErr::Error)
                                },
                                Err(f) => Err(f),
                            }
                        } else {
                            Err(PErr::Error)
                        }
                    },
                    Err(f) => Err(f),
                }
            } else {
                Err(PErr::Error)
            }
        },
        Err(f) => Err(f),
    }
}

/// A name, optionally followed by `=` and a default value.
pub open spec fn g_parameter(s: Seq<char>, p: int, full: bool) -> PRes<SpecParameter>
    decreases s.len() - p, 3int,
{
    match g_ident(s, p) {
        Ok((n, q)) => if char_at(s, q, '=') && after(s, p, q) {
            match g_expression(s, q + 1, full) {
                Ok((e, r)) => Ok((SpecParameter { name: n, default_value: Some(e) }, r)),
                Err(PErr::Error) => Ok((SpecParameter { name: n, default_value: None }, q)),
                Err(f) => Err(f),
            }
        } else {
            Ok((SpecParameter { name: n, default_value: None }, q))
        },
        Err(f) => Err(f),
    }
}

/// Parameters separated by commas; possibly none.
pub open spec fn g_params(s: Seq<char>, q: int, full: bool) -> PRes<Seq<SpecParameter>>
    decreases s.len() - q, 4int,
{
    match g_parameter(s, q, full) {
        Err(PErr::Error) => Ok((Seq::empty(), q)),
        Err(f) => Err(f),
        Ok((x, q1)) => {
            if !after(s, q, q1) {
                Err(PErr::Error)
            } else {
                match g_params_more(s, q1, full) {
                    Ok((rest, r)) => Ok((seq![x] + rest, r)),
                    Err(f) => Err(f),
                }
            }
        },
    }
}

/// The `, parameter` pairs that follow the first parameter.
pub open spec fn g_params_more(s: Seq<char>, q: int, full: bool) -> PRes<Seq<SpecParameter>>
    decreases s.len() - q, 4int,
{
    match g_comma(s, q, true) {
        None => Ok((Seq::empty(), q)),
        Some(b) => {
            if !after(s, q, b) {
                Err(PErr::Error)
            } else {
                match g_parameter(s, b, full) {
                    Err(PErr::Error) => Ok((Seq::empty(), q)),
                    Err(f) => Err(f),
                    Ok((x, q2)) => {
                        if !after(s, q, q2) {
                            Err(PErr::Error)
                        } else {
                            match g_params_more(s, q2, full) {
                                Ok((rest, r)) => Ok((seq![x] + rest, r)),
                                Err(f) => Err(f),
                            }
                        }
                    },
                }
            }
        },
    }
}

/// `(`, parameters and `)`.
pub open spec fn g_parameter_list(s: Seq<char>, p: int, full: bool) -> PRes<Seq<SpecParameter>>
    decreases s.len() - p, 5int,
{
    if char_at(s, p, '(') {
        match g_params(s, p + 1, full) {
            Ok((ps, q)) => if char_at(s, q, ')') {
                Ok((ps, q + 1))
            } else {
                Err(PErr::Error)
            },
            Err(f) => Err(f),
        }
    } else {
        Err(PErr::Error)
    }
}

/// Names separated by commas; possibly none.
pub open spec fn g_names(s: Seq<char>, q: int) -> PRes<Seq<Seq<char>>> {
    match g_ident(s, q) {
        Err(_) => Ok((Seq::empty(), q)),
        Ok((n, q1)) => match g_names_more(s, q1) {
            Ok((rest, r)) => Ok((seq![n] + rest, r)),
            Err(f) => Err(f),
        },
    }
}

/// The `, name` pairs that follow the first name.
pub open spec fn g_names_more(s: Seq<char>, q: int) -> PRes<Seq<Seq<char>>>
    decreases s.len() - q,
{
    match g_comma(s, q, true) {
        None => Ok((Seq::empty(), q)),
        Some(b) => match g_ident(s, b) {
            Err(_) => Ok((Seq::empty(), q)),
            Ok((n, q2)) => {
                if !after(s, q, q2) {
                    Err(PErr::Error)
                } else {
                    match g_names_more(s, q2) {
                        Ok((rest, r)) => Ok((seq![n] + rest, r)),
                        Err(f) => Err(f),
                    }
                }
            },
        },
    }
}

/// Where `=>`, with spaces and tabs around it, ends.
pub open spec fn g_arrow(s: Seq<char>, p: int) -> Option<int> {
    if has_at(s, skip_sp(s, p), "=>"@) {
        Some(skip_sp(s, skip_sp(s, p) + "=>"@.len()))
    } else {
        None
    }
}

/// `=>` and then either one expression or a block; white space after a
/// block is read with it.
pub open spec fn g_function_body(s: Seq<char>, p: int, full: bool) -> PRes<SpecBlock>
    decreases s.len() - p, 3int,
{
    match g_arrow(s, p) {
        None => Err(PErr::Error),
        Some(a) => {
            if !after(s, p, a) {
                Err(PErr::Error)
            } else {
                let single = match g_expression(s, a, full) {
                    Ok((e, q)) => Ok((SpecBlock { statements: Seq::empty(), return_expr: e }, q)),
                    Err(f) => Err(f),
                };
                match single {
                    Err(PErr::Error) => match g_block(s, a, full) {
                        Ok((b, q)) => Ok((b, skip_ws(s, q))),
                        Err(f) => Err(f),
                    },
                    _ => single,
                }
            }
        },
    }
}

/// Statements, then the expression whose value the block gives.
pub open spec fn g_block(s: Seq<char>, p: int, full: bool) -> PRes<SpecBlock>
    decreases s.len() - p, 12int,
{
    match g_statements(s, p, full) {
        Ok((stmts, q)) => {
            let c = skip_ws(s, q);
            if c < p || c > s.len() {
                Err(PErr::Error)
            } else {
                match g_expression(s, c, full) {
                    Ok((e, r)) => Ok((SpecBlock { statements: stmts, return_expr: e }, r)),
                    Err(f) => Err(f),
                }
            }
        },
        Err(f) => Err(f),
    }
}

/// Statements, each after optional white space, as many as there are.
pub open spec fn g_statements(s: Seq<char>, p: int, full: bool) -> PRes<Seq<SpecStatement>>
    decreases s.len() - p, 11int,
{
    let t = skip_ws(s, p);
    if t < p || t > s.len() {
        Err(PErr::Error)
    } else {
        match g_statement(s, t, full) {
            Err(PErr::Error) => Ok((Seq::empty(), p)),
            Err(f) => Err(f),
            Ok((st, q)) => {
                if !after(s, p, q) {
                    Err(PErr::Error)
                } else {
                    match g_statements(s, q, full) {
                        Ok((rest, r)) => Ok((seq![st] + rest, r)),
                        Err(f) => Err(f),
                    }
                }
            },
        }
    }
}

/// A name, `=` with spaces or tabs around it, and an expression.
pub open spec fn g_binding(s: Seq<char>, p: int, full: bool) -> PRes<(Seq<char>, SpecExpression)>
    decreases s.len() - p, 3int,
{
    match g_ident(s, p) {
        Ok((n, q)) => {
            let a = skip_sp(s, q);
            let b = skip_sp(s, a + 1);
            if char_at(s, a, '=') && after(s, p, b) {
                match g_expression(s, b, full) {
                    Ok((e, r)) => Ok(((n, e), r)),
                    Err(f) => Err(f),
                }
            } else {
                Err(PErr::Error)
            }
        },
        Err(f) => Err(f),
    }
}

/// `[`, names, `]`, `=` with spaces or tabs around it, and an expression.
pub open spec fn g_tuple_assignment(s: Seq<char>, p: int, full: bool) -> PRes<SpecStatement>
    decreases s.len() - p, 3int,
{
    if char_at(s, p, '[') {
        match g_names(s, p + 1) {
            Ok((ns, q)) => {
                let a = skip_sp(s, q + 1);
                let b = skip_sp(s, a + 1);
                if char_at(s, q, ']') && char_at(s, a, '=') && after(s, p, b) {
                    match g_expression(s, b, full) {
                        Ok((e, r)) => Ok((SpecStatement::TupleAssignment(ns, e), r)),
                        Err(f) => Err(f),
                    }
                } else {
                    Err(PErr::Error)
                }
            },
            Err(f) => Err(f),
        }
    } else {
        Err(PErr::Error)
    }
}

/// A name, parameters and a body.
pub open spec fn g_function(s: Seq<char>, p: int, full: bool) -> PRes<SpecFunction>
    decreases s.len() - p, 8int,
{
    match g_ident(s, p) {
        Ok((n, q)) => if after(s, p, q) {
            match g_parameter_list(s, q, full) {
                Ok((ps, q2)) => if after(s, p, q2) {
                    match g_function_body(s, q2, full) {
                        Ok((b, q3)) => Ok((SpecFunction { name: n, parameters: ps, body: b }, q3)),
                        Err(f) => Err(f),
                    }
                } else {
                    Err(PErr::Error)
                },
                Err(f) => Err(f),
            }
        } else {
            Err(PErr::Error)
        },
        Err(f) => Err(f),
    }
}

/// A statement: a declaration, an assignment, a tuple assignment, a
/// function definition or a call, tried in that order.
pub open spec fn g_statement(s: Seq<char>, p: int, full: bool) -> PRes<SpecStatement>
    decreases s.len() - p, 10int,
{
    let decl = match g_binding(s, p, full) {
        Ok(((n, e), q)) => Ok((SpecStatement::VariableDeclaration(n, e), q)),
        Err(f) => Err(f),
    };
    let assign = match g_binding(s, p, full) {
        Ok(((n, e), q)) => Ok((SpecStatement::Assignment(n, e), q)),
        Err(f) => Err(f),
    };
    let def = match g_function(s, p, full) {
        Ok((func, q)) => Ok((SpecStatement::FunctionDefinition(func), q)),
        Err(f) => Err(f),
    };
    let call = match g_call(s, p, full) {
        Ok(((n, args), q)) => Ok((SpecStatement::FunctionCall(n, args), q)),
        Err(f) => Err(f),
    };
    alt(decl, alt(assign, alt(g_tuple_assignment(s, p, full), alt(def, call))))
}

/// An expression: a function, an operation on two atoms, a tuple, an
/// import, a method call, a function call or an atom, tried in that order.
/// The smaller grammar (`full` false) has no functions, imports or method
/// calls among its expressions.
pub open spec fn g_expression(s: Seq<char>, p: int, full: bool) -> PRes<SpecExpression>
    decreases s.len() - p, 9int,
{
    if full {
        let func = match g_function(s, p, full) {
            Ok((f, q)) => Ok((SpecExpression::Function(Box::new(f)), q)),
            Err(f) => Err(f),
        };
        alt(func, alt(g_binary_operation(s, p, full), alt(g_tuple(s, p, full), alt(g_import(s, p), alt(g_method_call(s, p, full), alt(g_function_call(s, p, full), g_atom(s, p, full)))))))
    } else {
        alt(g_binary_operation(s, p, full), alt(g_tuple(s, p, full), alt(g_function_call(s, p, full), g_atom(s, p, full))))
    }
}

} // verus!
