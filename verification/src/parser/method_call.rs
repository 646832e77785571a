//! A method call written in a small fixed form, `object.method(args)`,
//! whose arguments are unsigned decimal integers or double-quoted runs of
//! letters (with spaces or tabs allowed before the quote), separated by a
//! comma and one space.
use vstd::prelude::*;
use crate::ast::atom::Atom;
use crate::ast::expression::Expression;
use crate::ast::model::{SpecAtom, SpecExpression, exprs_view, lemma_exprs_view_push};
use crate::parser::grammar::char_at;
use crate::parser::number::{i64_literal, i64_at};
use crate::parser::parser::ParseError;
use crate::text::{is_digit, digit, alpha_end, skip_sp, has_at, chars_of, string_of, letters_end, skip_tabs, occurs_at,
    lemma_alpha_end_bounds, lemma_skip_sp_bounds};

verus! {

broadcast use vstd::string::group_string_axioms;

/// An argument at `p`: digits, read as an `i64`, or a quoted run of letters
/// after optional spaces or tabs. `Err(true)` where the digits do not fit
/// in an `i64` (reading them panics), `Err(false)` where no argument starts.
pub open spec fn t_arg(s: Seq<char>, p: int) -> Result<(SpecExpression, int), bool> {
    if 0 <= p < s.len() && is_digit(s[p]) {
        match i64_literal(s, p) {
            Some((v, e)) => Ok((SpecExpression::Atom(SpecAtom::Integer(v)), e)),
            None => Err(true),
        }
    } else {
        let a = skip_sp(s, p);
        let b = alpha_end(s, a + 1);
        if 0 <= p <= s.len() && char_at(s, a, '"') && b > a + 1 && char_at(s, b, '"') {
            Ok((SpecExpression::Atom(SpecAtom::String(s.subrange(a + 1, b))), b + 1))
        } else {
            Err(false)
        }
    }
}

/// Further arguments from `q`, each after `, `; a separator not followed by
/// an argument is left unread.
pub open spec fn t_more(s: Seq<char>, q: int) -> Result<(Seq<SpecExpression>, int), bool>
    decreases s.len() - q,
{
    if 0 <= q && has_at(s, q, ", "@) {
        match t_arg(s, q + 2) {
            Err(false) => Ok((Seq::empty(), q)),
            Err(true) => Err(true),
            Ok((e, r)) => if q < r <= s.len() {
                match t_more(s, r) {
                    Ok((rest, z)) => Ok((seq![e] + rest, z)),
                    Err(x) => Err(x),
                }
            } else {
                Err(false)
            },
        }
    } else {
        Ok((Seq::empty(), q))
    }
}

/// The arguments from `p`: none, or one and the further ones.
pub open spec fn t_args(s: Seq<char>, p: int) -> Result<(Seq<SpecExpression>, int), bool> {
    match t_arg(s, p) {
        Err(false) => Ok((Seq::empty(), p)),
        Err(true) => Err(true),
        Ok((e, q)) => match t_more(s, q) {
            Ok((rest, z)) => Ok((seq![e] + rest, z)),
            Err(x) => Err(x),
        },
    }
}

/// A method call at the start of `s`: letters, `.`, letters, `(`, the
/// arguments and `)`; with the position after it.
pub open spec fn t_method_call(s: Seq<char>) -> Result<(SpecExpression, int), bool> {
    let a = alpha_end(s, 0);
    let b = alpha_end(s, a + 1);
    if a > 0 && char_at(s, a, '.') && b > a + 1 && char_at(s, b, '(') {
        match t_args(s, b + 1) {
            Err(x) => Err(x),
            Ok((args, c)) => if char_at(s, c, ')') {
                Ok((SpecExpression::MethodCall(s.subrange(0, a), s.subrange(a + 1, b), args), c + 1))
            } else {
                Err(false)
            },
        }
    } else {
        Err(false)
    }
}

fn arg_at(s: &Vec<char>, p: usize) -> (r: Result<(Expression, usize), bool>)
    requires
        p <= s.len(),
    ensures
        match t_arg(s@, p as int) {
            Ok((e, q)) => r matches Ok((x, q2)) && x@ == e && q2 == q && p < q <= s.len(),
            Err(f) => r == Err::<(Expression, usize), bool>(f),
        },
{
    if p < s.len() && digit(s[p]) {
        match i64_at(s, p) {
            Some((v, e)) => Ok((Expression::Atom(Atom::Integer(v)), e)),
            None => Err(true),
        }
    } else {
        let a = skip_tabs(s, p);
        proof { lemma_skip_sp_bounds(s@, p as int); }
        if a < s.len() && s[a] == '"' {
            let b = letters_end(s, a + 1);
            proof { lemma_alpha_end_bounds(s@, a + 1); }
            if b > a + 1 && b < s.len() && s[b] == '"' {
                return Ok((Expression::Atom(Atom::String(string_of(s, a + 1, b))), b + 1));
            }
        }
        Err(false)
    }
}

fn more_at(s: &Vec<char>, q: usize) -> (r: Result<(Vec<Expression>, usize), bool>)
    requires
        q <= s.len(),
    ensures
        match t_more(s@, q as int) {
            Ok((es, z)) => r matches Ok((v, z2)) && exprs_view(v@) == es && z2 == z && q <= z <= s.len(),
            Err(f) => r == Err::<(Vec<Expression>, usize), bool>(f),
        },
    decreases s.len() - q,
{
    if occurs_at(s, q, ", ") {
        proof { reveal_strlit(", "); }
        match arg_at(s, q + 2) {
            Err(false) => {
                let v: Vec<Expression> = Vec::new();
                assert(exprs_view(v@) =~= Seq::<SpecExpression>::empty());
                Ok((v, q))
            },
            Err(true) => Err(true),
            Ok((e, r)) => {
                let (rest, z) = more_at(s, r)?;
                let mut out: Vec<Expression> = Vec::new();
                out.push(e);
                proof {
                    lemma_exprs_view_push(Seq::<Expression>::empty(), e);
                    assert(Seq::<Expression>::empty().push(e) =~= out@);
                    assert(exprs_view(Seq::<Expression>::empty()) =~= Seq::<SpecExpression>::empty());
                }
                let mut rest = rest;
                proof { crate::ast::model::lemma_exprs_concat(out@, rest@); }
                let ghost first = exprs_view(out@);
                out.append(&mut rest);
                proof { assert(first =~= seq![e@]); }
                Ok((out, z))
            },
        }
    } else {
        let v: Vec<Expression> = Vec::new();
        assert(exprs_view(v@) =~= Seq::<SpecExpression>::empty());
        Ok((v, q))
    }
}

/// Reads a method call at the start of `input` (`ta.change("Bull", 22)`):
/// the input left after it and the call. Digits that do not fit in an
/// `i64` make reading panic, so `requires` leaves such inputs out.
pub fn parse_method_call(input: &str) -> (r: Result<(String, Expression), ParseError>)
    requires
        t_method_call(input@) != Err::<(SpecExpression, int), bool>(true),
    ensures
        match t_method_call(input@) {
            Ok((e, q)) => r matches Ok((rest, x)) && x@ == e && rest@ == input@.skip(q),
            Err(_) => r == Err::<(String, Expression), ParseError>(ParseError::Error),
        },
{
    let s = chars_of(input);
    let a = letters_end(&s, 0);
    proof { lemma_alpha_end_bounds(s@, 0); }
    if a > 0 && a < s.len() && s[a] == '.' {
        let b = letters_end(&s, a + 1);
        proof { lemma_alpha_end_bounds(s@, a + 1); }
        if b > a + 1 && b < s.len() && s[b] == '(' {
            let args = match arg_at(&s, b + 1) {
                Err(_) => {
                    let v: Vec<Expression> = Vec::new();
                    assert(exprs_view(v@) =~= Seq::<SpecExpression>::empty());
                    (v, b + 1)
                },
                Ok((e, q)) => {
                    let (rest, z) = match more_at(&s, q) {
                        Ok(x) => x,
                        Err(_) => { return Err(ParseError::Error); },
                    };
                    let mut out: Vec<Expression> = Vec::new();
                    out.push(e);
                    proof {
                        lemma_exprs_view_push(Seq::<Expression>::empty(), e);
                        assert(Seq::<Expression>::empty().push(e) =~= out@);
                        assert(exprs_view(Seq::<Expression>::empty()) =~= Seq::<SpecExpression>::empty());
                    }
                    let mut rest = rest;
                    proof { crate::ast::model::lemma_exprs_concat(out@, rest@); }
                    let ghost first = exprs_view(out@);
                    out.append(&mut rest);
                    proof { assert(first =~= seq![e@]); }
                    (out, z)
                },
            };
            let (args, c) = args;
            if c < s.len() && s[c] == ')' {
                let obj = string_of(&s, 0, a);
                let m = string_of(&s, a + 1, b);
                let rest = string_of(&s, c + 1, s.len());
                assert(rest@ =~= input@.skip(c + 1));
                return Ok((rest, Expression::MethodCall(obj, m, args)));
            }
        }
    }
    Err(ParseError::Error)
}

} // verus!
