//! The statements of the variant language, read from text: the grammar of
//! the main language without function literals, imports or method calls
//! among its expressions, with dotted names for called functions
//! (`math.abs(-1)`, which a built-in library takes) and whole numbers read
//! as integers.
use vstd::prelude::*;
use crate::ast::stmt::Statement;
use crate::parser::grammar::g_statement;
use crate::parser::parser::{ParseError, agrees_from_start, statement_at};
use crate::text::{chars_of, string_of};

verus! {

/// Reads a statement at the start of `input`: the statement and the input
/// left after it.
pub fn parse_statement(input: &str) -> (r: Result<(String, Statement), ParseError>)
    ensures
        agrees_from_start(input@, r, g_statement(input@, 0, false)),
{
    let s = chars_of(input);
    let (st, q) = statement_at(&s, 0, false)?;
    Ok((string_of(&s, q, s.len()), st))
}

} // verus!
