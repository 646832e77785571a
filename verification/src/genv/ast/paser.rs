//! Turns tokens into expressions: statements end in `;`; an expression is a
//! primary optionally followed by one operator and a second primary, and a
//! name followed by `=` assigns the expression after it.
use vstd::prelude::*;
use crate::genv::ast::lexer::{Token, SpecToken, tokens_view};
use crate::genv::ast::printing::{unparse, lemma_read_is_print};

verus! {

broadcast use vstd::string::group_string_axioms;

#[derive(Debug, PartialEq)]
pub enum Expr {
    Number(i32),
    Variable(String),
    BinaryOp(Box<Expr>, BinOp, Box<Expr>),
    Assignment(String, Box<Expr>),
}

#[derive(Debug, PartialEq, Clone, Copy)]
pub enum BinOp {
    Add,
    Sub,
    Mul,
    Div,
}

/// An expression with its names given by their characters.
pub enum SpecExpr {
    Number(i32),
    Variable(Seq<char>),
    BinaryOp(Box<SpecExpr>, BinOp, Box<SpecExpr>),
    Assignment(Seq<char>, Box<SpecExpr>),
}

impl View for Expr {
    type V = SpecExpr;

    open spec fn view(&self) -> SpecExpr
        decreases self,
    {
        match self {
            Expr::Number(n) => SpecExpr::Number(*n),
            Expr::Variable(s) => SpecExpr::Variable(s@),
            Expr::BinaryOp(l, op, r) => SpecExpr::BinaryOp(Box::new((**l)@), *op, Box::new((**r)@)),
            Expr::Assignment(s, e) => SpecExpr::Assignment(s@, Box::new((**e)@)),
        }
    }
}

/// The expressions of a sequence, each by its view.
pub open spec fn exprs_view(v: Seq<Expr>) -> Seq<SpecExpr> {
    v.map_values(|e: Expr| e@)
}

/// Why parsing stopped.
#[derive(Debug, Clone, Copy)]
pub enum ParseFailure {
    ExpectedSemicolon,
    ExpectedPrimary,
    UnexpectedEnd,
}

/// The message that the parser reports for a failure.
pub open spec fn failure_message(f: ParseFailure) -> Seq<char> {
    match f {
        ParseFailure::ExpectedSemicolon => "Expected semicolon"@,
        ParseFailure::ExpectedPrimary => "Expected a number or identifier"@,
        ParseFailure::UnexpectedEnd => "Unexpected end of input"@,
    }
}

/// The operator that a token stands for, if any.
pub open spec fn binop_of(t: SpecToken) -> Option<BinOp> {
    match t {
        SpecToken::Plus => Some(BinOp::Add),
        SpecToken::Minus => Some(BinOp::Sub),
        SpecToken::Multiply => Some(BinOp::Mul),
        SpecToken::Divide => Some(BinOp::Div),
        _ => None,
    }
}

/// What a parse at a position gives: the value and the position after it,
/// or the failure and the position where reading stopped.
pub type PStep<T> = Result<(T, int), (ParseFailure, int)>;

/// A number, a name, or a name, `=` and an expression, read at `pos`; with
/// the position after it. A token that starts no primary, or the end of the
/// tokens, fails where it stands; a failure in the expression after `=`
/// stops where that expression stopped.
pub open spec fn p_primary(t: Seq<SpecToken>, pos: int) -> PStep<SpecExpr>
    decreases t.len() - pos, 0int,
{
    if 0 <= pos < t.len() {
        match t[pos] {
            SpecToken::Number(n) => Ok((SpecExpr::Number(n), pos + 1)),
            SpecToken::Identifier(name) => {
                if pos + 1 < t.len() && t[pos + 1] is Assign {
                    match p_expr(t, pos + 2) {
                        Ok((e, q)) => Ok((SpecExpr::Assignment(name, Box::new(e)), q)),
                        Err(f) => Err(f),
                    }
                } else {
                    Ok((SpecExpr::Variable(name), pos + 1))
                }
            },
            _ => Err((ParseFailure::ExpectedPrimary, pos)),
        }
    } else {
        Err((ParseFailure::UnexpectedEnd, pos))
    }
}

/// A primary, optionally followed by an operator and a second primary.
pub open spec fn p_expr(t: Seq<SpecToken>, pos: int) -> PStep<SpecExpr>
    decreases t.len() - pos, 1int,
{
    match p_primary(t, pos) {
        Err(f) => Err(f),
        Ok((lhs, q)) => {
            if q <= pos || q > t.len() {
                Err((ParseFailure::UnexpectedEnd, q))
            } else if q < t.len() && binop_of(t[q]) is Some {
                match p_primary(t, q + 1) {
                    Ok((rhs, r)) => Ok((SpecExpr::BinaryOp(Box::new(lhs), binop_of(t[q]).unwrap(), Box::new(rhs)), r)),
                    Err(f) => Err(f),
                }
            } else {
                Ok((lhs, q))
            }
        },
    }
}

/// The statements from `pos` on, each an expression followed by `;`.
pub open spec fn p_all(t: Seq<SpecToken>, pos: int) -> Result<Seq<SpecExpr>, ParseFailure>
    decreases t.len() - pos,
{
    if pos < 0 || pos >= t.len() {
        Ok(Seq::empty())
    } else {
        match p_expr(t, pos) {
            Err((f, _)) => Err(f),
            Ok((e, q)) => {
                if q <= pos || q > t.len() {
                    Err(ParseFailure::UnexpectedEnd)
                } else if q < t.len() && t[q] is Semicolon {
                    match p_all(t, q + 1) {
                        Ok(rest) => Ok(seq![e] + rest),
                        Err(f) => Err(f),
                    }
                } else {
                    Err(ParseFailure::ExpectedSemicolon)
                }
            },
        }
    }
}

/// What `parse` gives for a sequence of tokens.
pub open spec fn spec_parse(t: Seq<SpecToken>) -> Result<Seq<SpecExpr>, ParseFailure> {
    p_all(t, 0)
}

/// A primary or an expression that is read consumes at least one token; a
/// failure never stops before where reading began.
pub proof fn lemma_progress(t: Seq<SpecToken>, pos: int)
    ensures
        p_primary(t, pos) matches Ok((_, q)) ==> pos < q <= t.len(),
        p_expr(t, pos) matches Ok((_, q)) ==> pos < q <= t.len(),
        p_primary(t, pos) matches Err((_, q)) ==> pos <= q,
        p_expr(t, pos) matches Err((_, q)) ==> pos <= q,
    decreases t.len() - pos,
{
    if 0 <= pos < t.len() && pos + 1 < t.len() {
        lemma_progress(t, pos + 2);
    }
    if let Ok((_, q)) = p_primary(t, pos) {
        if q < t.len() {
            lemma_progress(t, q + 1);
        }
    }
}

fn failure(f: ParseFailure) -> (s: String)
    ensures
        s@ == failure_message(f),
{
    match f {
        ParseFailure::ExpectedSemicolon => "Expected semicolon".to_string(),
        ParseFailure::ExpectedPrimary => "Expected a number or identifier".to_string(),
        ParseFailure::UnexpectedEnd => "Unexpected end of input".to_string(),
    }
}

fn copy_name(s: &String) -> (r: String)
    ensures
        r@ == s@,
{
    s.clone()
}

/// Parses the tokens into expressions, one per `;`-terminated statement.
pub fn parse(tokens: &[Token]) -> (r: Result<Vec<Expr>, String>)
    ensures
        match spec_parse(tokens_view(tokens@)) {
            Ok(es) => r matches Ok(v) && exprs_view(v@) == es,
            Err(f) => r matches Err(m) && m@ == failure_message(f),
        },
{
    let ghost t = tokens_view(tokens@);
    let mut pos: usize = 0;
    let mut exprs: Vec<Expr> = Vec::new();
    while pos < tokens.len()
        invariant
            t == tokens_view(tokens@),
            pos <= tokens.len(),
            match spec_parse(t) {
                Ok(es) => p_all(t, pos as int) matches Ok(rest) && es == exprs_view(exprs@) + rest,
                Err(f) => p_all(t, pos as int) == Err::<Seq<SpecExpr>, ParseFailure>(f),
            },
        decreases tokens.len() - pos,
    {
        let ghost p0 = pos as int;
        proof { lemma_progress(t, p0); }
        let expr = match parse_expr(tokens, &mut pos) {
            Ok(e) => e,
            Err(m) => { return Err(m); },
        };
        let ghost before = exprs_view(exprs@);
        if pos < tokens.len() && matches!(tokens[pos], Token::Semicolon) {
            assert(t[pos as int] is Semicolon);
            exprs.push(expr);
            pos = pos + 1;
            proof {
                assert(exprs_view(exprs@) =~= before.push(expr@));
                if let Ok(es) = spec_parse(t) {
                    let rest = p_all(t, pos as int).unwrap();
                    assert(before + (seq![expr@] + rest) =~= before.push(expr@) + rest);
                }
            }
        } else {
            return Err(failure(ParseFailure::ExpectedSemicolon));
        }
    }
    proof {
        if let Ok(es) = spec_parse(t) {
            assert(es =~= exprs_view(exprs@));
        }
    }
    Ok(exprs)
}

/// Reads an expression at `*pos` and moves `*pos` past it; on a failure
/// `*pos` is left where reading stopped.
pub fn parse_expr(tokens: &[Token], pos: &mut usize) -> (r: Result<Expr, String>)
    ensures
        *old(pos) <= *final(pos),
        match p_expr(tokens_view(tokens@), *old(pos) as int) {
            Ok((e, q)) => r matches Ok(x) && x@ == e && *final(pos) == q,
            Err((f, q)) => r matches Err(m) && m@ == failure_message(f) && *final(pos) == q,
        },
        r matches Ok(x) ==> tokens_view(tokens@).subrange(*old(pos) as int, *final(pos) as int) == unparse(x@),
    decreases tokens.len() - *old(pos), 1int,
{
    let ghost t = tokens_view(tokens@);
    let ghost p0 = *pos as int;
    proof { lemma_progress(t, p0); lemma_read_is_print(t, p0); }
    let lhs = parse_primary(tokens, pos)?;
    let q = *pos;
    if let Some(op) = parse_binop(tokens, pos) {
        proof { lemma_progress(t, q as int + 1); }
        let rhs = parse_primary(tokens, pos)?;
        return Ok(Expr::BinaryOp(Box::new(lhs), op, Box::new(rhs)));
    }
    Ok(lhs)
}

/// Reads a number, a name, or a name, `=` and an expression at `*pos`; on
/// a failure `*pos` is left where reading stopped.
pub fn parse_primary(tokens: &[Token], pos: &mut usize) -> (r: Result<Expr, String>)
    ensures
        *old(pos) <= *final(pos),
        match p_primary(tokens_view(tokens@), *old(pos) as int) {
            Ok((e, q)) => r matches Ok(x) && x@ == e && *final(pos) == q,
            Err((f, q)) => r matches Err(m) && m@ == failure_message(f) && *final(pos) == q,
        },
        r matches Ok(x) ==> tokens_view(tokens@).subrange(*old(pos) as int, *final(pos) as int) == unparse(x@),
    decreases tokens.len() - *old(pos), 0int,
{
    let ghost t = tokens_view(tokens@);
    proof { lemma_progress(t, *pos as int); lemma_read_is_print(t, *pos as int); }
    if *pos < tokens.len() {
        let i = *pos;
        match &tokens[i] {
            Token::Number(n) => {
                *pos = i + 1;
                return Ok(Expr::Number(*n));
            },
            Token::Identifier(name) => {
                *pos = i + 1;
                if *pos < tokens.len() && matches!(tokens[i + 1], Token::Assign) {
                    *pos = i + 2;
                    let expr = parse_expr(tokens, pos)?;
                    return Ok(Expr::Assignment(copy_name(name), Box::new(expr)));
                }
                return Ok(Expr::Variable(copy_name(name)));
            },
            _ => { return Err(failure(ParseFailure::ExpectedPrimary)); },
        }
    }
    Err(failure(ParseFailure::UnexpectedEnd))
}

/// Reads an operator at `*pos`, moving past it when there is one.
pub fn parse_binop(tokens: &[Token], pos: &mut usize) -> (r: Option<BinOp>)
    ensures
        r == (if *old(pos) < tokens.len() { binop_of(tokens_view(tokens@)[*old(pos) as int]) } else { None::<BinOp> }),
        *final(pos) == if r is Some { *old(pos) + 1 } else { *old(pos) as int },
{
    if *pos < tokens.len() {
        let op = match &tokens[*pos] {
            Token::Plus => Some(BinOp::Add),
            Token::Minus => Some(BinOp::Sub),
            Token::Multiply => Some(BinOp::Mul),
            Token::Divide => Some(BinOp::Div),
            _ => None,
        };
        if op.is_some() {
            *pos = *pos + 1;
        }
        op
    } else {
        None
    }
}

} // verus!
