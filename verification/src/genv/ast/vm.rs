//! Runs a script: tokenize, parse, then evaluate on the machine's engine.
use vstd::prelude::*;
use crate::genv::ast::engine::{Engine, eval_all};
use crate::genv::ast::lexer::{tokenize, spec_tokenize};
use crate::genv::ast::paser::{parse, spec_parse};

verus! {

/// Whether the script tokenizes, parses and evaluates without a panic (an
/// `i32` literal out of range, a parse error, an overflow or a division by
/// zero).
pub open spec fn runs(script: Seq<char>, env: Map<Seq<char>, i32>) -> bool {
    &&& spec_tokenize(script) is Some
    &&& spec_parse(spec_tokenize(script).unwrap().0) is Ok
    &&& eval_all(spec_parse(spec_tokenize(script).unwrap().0).unwrap(), env) is Some
}

/// The variables after running the script on `env`.
pub open spec fn spec_execute(script: Seq<char>, env: Map<Seq<char>, i32>) -> Map<Seq<char>, i32> {
    eval_all(spec_parse(spec_tokenize(script).unwrap().0).unwrap(), env).unwrap()
}

pub struct VM {
    engine: Engine,
}

impl VM {
    /// The variables, by name.
    pub closed spec fn env(&self) -> Map<Seq<char>, i32> {
        self.engine.env()
    }

    pub fn new() -> (vm: Self)
        ensures
            vm.env() == Map::<Seq<char>, i32>::empty(),
    {
        VM { engine: Engine::new() }
    }

    /// Tokenizes, parses and evaluates the script. A step that fails is a
    /// panic, so `requires` leaves those scripts out.
    pub fn execute(&mut self, script: &str)
        requires
            runs(script@, old(self).env()),
        ensures
            final(self).env() == spec_execute(script@, old(self).env()),
    {
        let tokens = match tokenize(script) {
            Ok((_, t)) => t,
            Err(_) => { return; },
        };
        let exprs = match parse(&tokens) {
            Ok(e) => e,
            Err(_) => { return; },
        };
        self.engine.evaluate(exprs);
    }

    /// The value of the variable `name`, if it has been assigned.
    pub fn get_variable(&self, name: &str) -> (r: Option<i32>)
        ensures
            r == (if self.env().contains_key(name@) { Some(self.env()[name@]) } else { None::<i32> }),
    {
        self.engine.get_variable(name)
    }
}

} // verus!
