//! Laws that tie the calculator's parser to the printed form of what it
//! reads: the tokens read are the print of the expressions, each statement
//! ends in exactly one `;`, and printing then parsing gives the expressions
//! back.
use vstd::prelude::*;
use crate::genv::ast::lexer::SpecToken;
use crate::genv::ast::paser::{BinOp, SpecExpr, ParseFailure, PStep, binop_of, p_primary, p_expr, p_all, spec_parse, lemma_progress};

verus! {

/// The token that spells an operator.
pub open spec fn op_token(op: BinOp) -> SpecToken {
    match op {
        BinOp::Add => SpecToken::Plus,
        BinOp::Sub => SpecToken::Minus,
        BinOp::Mul => SpecToken::Multiply,
        BinOp::Div => SpecToken::Divide,
    }
}

/// The tokens that spell an expression.
pub open spec fn unparse(e: SpecExpr) -> Seq<SpecToken>
    decreases e,
{
    match e {
        SpecExpr::Number(n) => seq![SpecToken::Number(n)],
        SpecExpr::Variable(x) => seq![SpecToken::Identifier(x)],
        SpecExpr::BinaryOp(l, op, r) => unparse(*l) + seq![op_token(op)] + unparse(*r),
        SpecExpr::Assignment(x, v) => seq![SpecToken::Identifier(x), SpecToken::Assign] + unparse(*v),
    }
}

/// The tokens that spell a list of statements: each expression followed by
/// `;`.
pub open spec fn print_all(v: Seq<SpecExpr>) -> Seq<SpecToken>
    decreases v.len(),
{
    if v.len() == 0 {
        Seq::empty()
    } else {
        unparse(v[0]) + seq![SpecToken::Semicolon] + print_all(v.drop_first())
    }
}

/// The number of `;` tokens.
pub open spec fn semicolons(t: Seq<SpecToken>) -> nat
    decreases t.len(),
{
    if t.len() == 0 {
        0
    } else {
        (if t[0] is Semicolon { 1nat } else { 0nat }) + semicolons(t.drop_first())
    }
}

/// An expression that the parser reads back from its print: an atom, an
/// operation on two atoms, or an assignment of such an expression.
pub open spec fn printable(e: SpecExpr) -> bool
    decreases e,
{
    match e {
        SpecExpr::Number(_) | SpecExpr::Variable(_) => true,
        SpecExpr::BinaryOp(l, _, r) => ((*l) is Number || (*l) is Variable) && ((*r) is Number || (*r) is Variable),
        SpecExpr::Assignment(_, v) => printable(*v),
    }
}

/// What a primary or an expression reads is spelled by the tokens it read.
pub proof fn lemma_read_is_print(t: Seq<SpecToken>, pos: int)
    ensures
        p_primary(t, pos) matches Ok((e, q)) ==> t.subrange(pos, q) == unparse(e),
        p_expr(t, pos) matches Ok((e, q)) ==> t.subrange(pos, q) == unparse(e),
    decreases t.len() - pos,
{
    lemma_progress(t, pos);
    if 0 <= pos < t.len() && pos + 1 < t.len() {
        lemma_read_is_print(t, pos + 2);
        lemma_progress(t, pos + 2);
    }
    if let Ok((e, q)) = p_primary(t, pos) {
        match t[pos] {
            SpecToken::Identifier(x) => {
                if pos + 1 < t.len() && t[pos + 1] is Assign {
                    if let Ok((inner, _)) = p_expr(t, pos + 2) {
                        assert(t.subrange(pos, q) =~= seq![t[pos], t[pos + 1]] + t.subrange(pos + 2, q));
                        assert(unparse(e) == seq![SpecToken::Identifier(x), SpecToken::Assign] + unparse(inner));
                    }
                } else {
                    assert(t.subrange(pos, q) =~= seq![t[pos]]);
                }
            },
            _ => {
                assert(t.subrange(pos, q) =~= seq![t[pos]]);
            },
        }
        assert(t.subrange(pos, q) == unparse(e));
        if q < t.len() && binop_of(t[q]) is Some {
            lemma_read_is_print(t, q + 1);
            lemma_progress(t, q + 1);
            if let Ok((rhs, r)) = p_primary(t, q + 1) {
                assert(op_token(binop_of(t[q]).unwrap()) == t[q]);
                assert(t.subrange(pos, r) =~= t.subrange(pos, q) + seq![t[q]] + t.subrange(q + 1, r));
            }
        }
    }
}

proof fn lemma_all_is_print(t: Seq<SpecToken>, pos: int)
    requires
        0 <= pos <= t.len(),
    ensures
        p_all(t, pos) matches Ok(v) ==> t.subrange(pos, t.len() as int) == print_all(v),
    decreases t.len() - pos,
{
    if pos < t.len() {
        lemma_progress(t, pos);
        lemma_read_is_print(t, pos);
        if let Ok((e, q)) = p_expr(t, pos) {
            if q < t.len() && t[q] is Semicolon {
                lemma_all_is_print(t, q + 1);
                if let Ok(rest) = p_all(t, q + 1) {
                    let v = seq![e] + rest;
                    assert(v[0] == e);
                    assert(v.drop_first() =~= rest);
                    assert(t.subrange(pos, t.len() as int) =~= t.subrange(pos, q) + seq![t[q]] + t.subrange(q + 1, t.len() as int));
                }
            }
        }
    } else {
        assert(t.subrange(pos, t.len() as int) =~= Seq::<SpecToken>::empty());
    }
}

/// Parsing neither drops, reorders nor invents a token: the tokens are the
/// print of the statements read.
pub proof fn lemma_parse_is_print(t: Seq<SpecToken>)
    ensures
        spec_parse(t) matches Ok(v) ==> t == print_all(v),
{
    lemma_all_is_print(t, 0);
    assert(t.subrange(0, t.len() as int) =~= t);
}

proof fn lemma_semicolons_concat(a: Seq<SpecToken>, b: Seq<SpecToken>)
    ensures
        semicolons(a + b) == semicolons(a) + semicolons(b),
    decreases a.len(),
{
    if a.len() == 0 {
        assert(a + b =~= b);
    } else {
        assert((a + b).drop_first() =~= a.drop_first() + b);
        lemma_semicolons_concat(a.drop_first(), b);
    }
}

proof fn lemma_no_semicolon_in_expr(e: SpecExpr)
    ensures
        semicolons(unparse(e)) == 0,
    decreases e,
{
    match e {
        SpecExpr::Number(_) | SpecExpr::Variable(_) => {
            assert(unparse(e).drop_first() =~= Seq::<SpecToken>::empty());
            assert(semicolons(Seq::<SpecToken>::empty()) == 0);
        },
        SpecExpr::BinaryOp(l, op, r) => {
            lemma_no_semicolon_in_expr(*l);
            lemma_no_semicolon_in_expr(*r);
            let o = seq![op_token(op)];
            assert(o.drop_first() =~= Seq::<SpecToken>::empty());
            assert(semicolons(Seq::<SpecToken>::empty()) == 0);
            assert(semicolons(o) == 0);
            lemma_semicolons_concat(unparse(*l), o);
            lemma_semicolons_concat(unparse(*l) + o, unparse(*r));
        },
        SpecExpr::Assignment(x, v) => {
            lemma_no_semicolon_in_expr(*v);
            let h = seq![SpecToken::Identifier(x), SpecToken::Assign];
            assert(h.drop_first().drop_first() =~= Seq::<SpecToken>::empty());
            assert(h.drop_first() =~= seq![SpecToken::Assign]);
            assert(semicolons(Seq::<SpecToken>::empty()) == 0);
            assert(semicolons(h.drop_first()) == 0);
            assert(semicolons(h) == 0);
            lemma_semicolons_concat(h, unparse(*v));
        },
    }
}

proof fn lemma_print_all_semicolons(v: Seq<SpecExpr>)
    ensures
        semicolons(print_all(v)) == v.len(),
        v.len() > 0 ==> print_all(v).len() > 0 && print_all(v).last() is Semicolon,
    decreases v.len(),
{
    if v.len() > 0 {
        lemma_print_all_semicolons(v.drop_first());
        lemma_no_semicolon_in_expr(v[0]);
        let s = seq![SpecToken::Semicolon];
        assert(s.drop_first() =~= Seq::<SpecToken>::empty());
        assert(semicolons(Seq::<SpecToken>::empty()) == 0);
        assert(semicolons(s) == 1);
        lemma_semicolons_concat(unparse(v[0]), s);
        lemma_semicolons_concat(unparse(v[0]) + s, print_all(v.drop_first()));
        let rest = print_all(v.drop_first());
        let all = unparse(v[0]) + s + rest;
        if rest.len() == 0 {
            assert(all.last() == s[0]);
        } else {
            assert(all.last() == rest.last());
        }
    }
}

/// A parse gives one expression per `;`, and a non-empty list of tokens
/// that parses ends in `;`.
pub proof fn lemma_parse_semicolons(t: Seq<SpecToken>)
    ensures
        spec_parse(t) matches Ok(v) ==> v.len() == semicolons(t) && (t.len() == 0 || t.last() is Semicolon),
{
    lemma_parse_is_print(t);
    if let Ok(v) = spec_parse(t) {
        lemma_print_all_semicolons(v);
    }
}

proof fn lemma_reads_printable(t: Seq<SpecToken>, pos: int, e: SpecExpr)
    requires
        printable(e),
        0 <= pos,
        pos + unparse(e).len() < t.len(),
        t.subrange(pos, pos + unparse(e).len()) == unparse(e),
        t[pos + unparse(e).len()] is Semicolon,
    ensures
        p_expr(t, pos) == Ok::<(SpecExpr, int), (crate::genv::ast::paser::ParseFailure, int)>((e, pos + unparse(e).len())),
    decreases e,
{
    let n = unparse(e).len() as int;
    assert forall|k: int| 0 <= k < n implies t[pos + k] == #[trigger] unparse(e)[k] by {
        assert(t.subrange(pos, pos + n)[k] == t[pos + k]);
    }
    match e {
        SpecExpr::Number(_) | SpecExpr::Variable(_) => {
            assert(t[pos] == unparse(e)[0]);
        },
        SpecExpr::BinaryOp(l, op, r) => {
            assert(unparse(*l).len() == 1 && unparse(*r).len() == 1);
            assert(t[pos] == unparse(e)[0]);
            assert(t[pos + 1] == unparse(e)[1]);
            assert(t[pos + 2] == unparse(e)[2]);
            assert(binop_of(op_token(op)) == Some(op));
        },
        SpecExpr::Assignment(x, v) => {
            let m = unparse(*v).len() as int;
            assert(t[pos] == unparse(e)[0]);
            assert(t[pos + 1] == unparse(e)[1]);
            assert(t.subrange(pos + 2, pos + 2 + m) =~= unparse(*v)) by {
                assert forall|k: int| 0 <= k < m implies t.subrange(pos + 2, pos + 2 + m)[k] == unparse(*v)[k] by {
                    assert(unparse(e)[k + 2] == unparse(*v)[k]);
                }
            }
            lemma_reads_printable(t, pos + 2, *v);
        },
    }
}

proof fn lemma_all_reads_print(t: Seq<SpecToken>, pos: int, v: Seq<SpecExpr>)
    requires
        0 <= pos <= t.len(),
        t.subrange(pos, t.len() as int) == print_all(v),
        forall|i: int| 0 <= i < v.len() ==> printable(#[trigger] v[i]),
    ensures
        p_all(t, pos) == Ok::<Seq<SpecExpr>, crate::genv::ast::paser::ParseFailure>(v),
    decreases v.len(),
{
    if v.len() == 0 {
        assert(v =~= Seq::<SpecExpr>::empty());
    } else {
        let e = v[0];
        let n = unparse(e).len() as int;
        let rest = v.drop_first();
        let p = print_all(v);
        assert(p == unparse(e) + seq![SpecToken::Semicolon] + print_all(rest));
        assert(t.subrange(pos, pos + n) =~= unparse(e)) by {
            assert forall|k: int| 0 <= k < n implies t.subrange(pos, pos + n)[k] == unparse(e)[k] by {
                assert(t.subrange(pos, t.len() as int)[k] == p[k]);
            }
        }
        assert(t[pos + n] == p[n]) by {
            assert(t.subrange(pos, t.len() as int)[n] == p[n]);
        }
        lemma_reads_printable(t, pos, e);
        assert(t.subrange(pos + n + 1, t.len() as int) =~= print_all(rest)) by {
            assert forall|k: int| 0 <= k < print_all(rest).len() implies
                t.subrange(pos + n + 1, t.len() as int)[k] == print_all(rest)[k] by {
                assert(t.subrange(pos, t.len() as int)[n + 1 + k] == p[n + 1 + k]);
            }
        }
        assert forall|i: int| 0 <= i < rest.len() implies printable(#[trigger] rest[i]) by {
            assert(rest[i] == v[i + 1]);
        }
        lemma_all_reads_print(t, pos + n + 1, rest);
        assert(seq![e] + rest =~= v);
    }
}

/// Printing statements that the parser can read back and parsing the print
/// gives the statements back.
pub proof fn lemma_print_then_parse(v: Seq<SpecExpr>)
    requires
        forall|i: int| 0 <= i < v.len() ==> printable(#[trigger] v[i]),
    ensures
        spec_parse(print_all(v)) == Ok::<Seq<SpecExpr>, crate::genv::ast::paser::ParseFailure>(v),
{
    let t = print_all(v);
    assert(t.subrange(0, t.len() as int) =~= t);
    lemma_all_reads_print(t, 0, v);
}

/// A step's positions moved on by `k`.
pub open spec fn shifted(r: PStep<SpecExpr>, k: int) -> PStep<SpecExpr> {
    match r {
        Ok((e, q)) => Ok((e, q + k)),
        Err((f, q)) => Err((f, q + k)),
    }
}

/// A primary or an expression that is read, and stops before the end of
/// `t`, reads the same in any longer list that starts with `t`.
proof fn lemma_frame(t: Seq<SpecToken>, s: Seq<SpecToken>, pos: int)
    requires
        t.len() <= s.len(),
        forall|i: int| 0 <= i < t.len() ==> s[i] == t[i],
    ensures
        p_primary(t, pos) matches Ok((_, q)) && q < t.len() ==> p_primary(s, pos) == p_primary(t, pos),
        p_expr(t, pos) matches Ok((_, q)) && q < t.len() ==> p_expr(s, pos) == p_expr(t, pos),
    decreases t.len() - pos,
{
    lemma_progress(t, pos);
    if 0 <= pos < t.len() && pos + 1 < t.len() {
        lemma_frame(t, s, pos + 2);
        lemma_progress(t, pos + 2);
    }
    if 0 <= pos < t.len() {
        assert(s[pos] == t[pos]);
        if pos + 1 < t.len() {
            assert(s[pos + 1] == t[pos + 1]);
        }
    }
    if let Ok((lhs, q1)) = p_primary(t, pos) {
        if q1 < t.len() {
            assert(s[q1] == t[q1]);
            if binop_of(t[q1]) is Some {
                lemma_frame(t, s, q1 + 1);
                lemma_progress(t, q1 + 1);
            }
        }
    }
}

/// Reading at a position of `a + b` past `a` is reading `b`, positions
/// moved on by the length of `a`.
proof fn lemma_shift(a: Seq<SpecToken>, b: Seq<SpecToken>, pos: int)
    requires
        0 <= pos,
    ensures
        p_primary(a + b, a.len() + pos) == shifted(p_primary(b, pos), a.len() as int),
        p_expr(a + b, a.len() + pos) == shifted(p_expr(b, pos), a.len() as int),
    decreases b.len() - pos,
{
    let t = a + b;
    let k = a.len() as int;
    lemma_progress(b, pos);
    if pos < b.len() {
        assert(t[k + pos] == b[pos]);
        if pos + 1 < b.len() {
            assert(t[k + pos + 1] == b[pos + 1]);
            lemma_shift(a, b, pos + 2);
            assert(k + pos + 2 == k + (pos + 2));
        }
    }
    if let Ok((lhs, q1)) = p_primary(b, pos) {
        if q1 < b.len() {
            assert(t[k + q1] == b[q1]);
            if binop_of(b[q1]) is Some {
                lemma_shift(a, b, q1 + 1);
                assert(k + q1 + 1 == k + (q1 + 1));
            }
        }
    }
}

proof fn lemma_all_shift(a: Seq<SpecToken>, b: Seq<SpecToken>, pos: int)
    requires
        0 <= pos,
    ensures
        p_all(a + b, a.len() + pos) == p_all(b, pos),
    decreases b.len() - pos,
{
    let t = a + b;
    let k = a.len() as int;
    if pos < b.len() {
        lemma_shift(a, b, pos);
        lemma_progress(b, pos);
        if let Ok((e, q)) = p_expr(b, pos) {
            if q < b.len() {
                assert(t[k + q] == b[q]);
                lemma_all_shift(a, b, q + 1);
                assert(k + q + 1 == k + (q + 1));
            }
        }
    }
}

proof fn lemma_all_concat(t1: Seq<SpecToken>, t2: Seq<SpecToken>, pos: int)
    requires
        0 <= pos <= t1.len(),
        p_all(t1, pos) is Ok,
    ensures
        p_all(t1 + t2, pos) == match p_all(t2, 0) {
            Ok(w) => Ok(p_all(t1, pos).unwrap() + w),
            Err(f) => Err::<Seq<SpecExpr>, ParseFailure>(f),
        },
    decreases t1.len() - pos,
{
    let t = t1 + t2;
    if pos == t1.len() {
        lemma_all_shift(t1, t2, 0);
        if let Ok(w) = p_all(t2, 0) {
            assert(p_all(t1, pos).unwrap() + w =~= w);
        }
    } else {
        lemma_progress(t1, pos);
        assert forall|i: int| 0 <= i < t1.len() implies t[i] == t1[i] by {}
        lemma_frame(t1, t, pos);
        if let Ok((e, q)) = p_expr(t1, pos) {
            assert(t[q] == t1[q]);
            lemma_all_concat(t1, t2, q + 1);
            let rest = p_all(t1, q + 1).unwrap();
            if let Ok(w) = p_all(t2, 0) {
                assert(seq![e] + (rest + w) =~= (seq![e] + rest) + w);
            }
        }
    }
}

/// Parsing two lists of tokens joined, the first of which parses, gives
/// the two results joined, or the second one's failure.
pub proof fn lemma_parse_concat(t1: Seq<SpecToken>, t2: Seq<SpecToken>)
    ensures
        spec_parse(t1) matches Ok(v1) ==> spec_parse(t1 + t2) == match spec_parse(t2) {
            Ok(v2) => Ok(v1 + v2),
            Err(f) => Err::<Seq<SpecExpr>, ParseFailure>(f),
        },
{
    if spec_parse(t1) is Ok {
        lemma_all_concat(t1, t2, 0);
    }
}

} // verus!
