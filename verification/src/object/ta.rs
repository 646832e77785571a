use vstd::prelude::*;
use crate::ast::atom::{Atom, Float};
use crate::ast::expression::Expression;
use crate::ast::model::{SpecAtom, SpecExpression, exprs_view, lemma_exprs_view};
use crate::names::NameMap;
use crate::package::lib::result_view;
use crate::text::join_text;

verus! {

broadcast use vstd::string::group_string_axioms;

/// The handlers that a `TA` can register under a method name.
#[derive(Debug, Clone, Copy, PartialEq, Eq)]
pub enum TaMethod {
    /// `TA::handle_change`.
    Change,
    /// `TA::handle_cci`.
    Cci,
}

/// An object with methods registered by name.
#[derive(Debug)]
pub struct TA {
    pub methods: NameMap<TaMethod>,
}

/// Objects that a scope can hold.
#[derive(Debug)]
pub enum Object {
    TA(TA),
}

/// What a handler that takes a string and an integer gives on `args`: the
/// integer turned into a value by `make`, or an error naming `method`.
pub open spec fn ta_handler(args: Seq<SpecExpression>, method: Seq<char>, value: spec_fn(i64) -> SpecExpression)
    -> Result<SpecExpression, Seq<char>>
{
    if args.len() == 2 {
        match (args[0], args[1]) {
            (SpecExpression::Atom(SpecAtom::String(_)), SpecExpression::Atom(SpecAtom::Integer(v))) => Ok(value(v)),
            _ => Err("Invalid arguments for ta."@ + method),
        }
    } else {
        Err("Invalid number of arguments for ta."@ + method)
    }
}

impl TA {
    /// A `TA` with `change` registered.
    pub fn new() -> (ta: Self)
        ensures
            ta.methods.bindings() == seq![("change"@, TaMethod::Change)],
    {
        let mut methods = NameMap::new();
        methods.insert("change".to_string(), TaMethod::Change);
        TA { methods }
    }

    /// `ta.change(input, value)`: the value, as an integer.
    pub fn handle_change(ta: &TA, args: Vec<Expression>) -> (r: Result<Expression, String>)
        ensures
            result_view(r) == ta_handler(exprs_view(args@), "change"@,
                |v: i64| SpecExpression::Atom(SpecAtom::Integer(v))),
    {
        proof { lemma_exprs_view(args@); }
        if args.len() == 2 {
            if let (Expression::Atom(Atom::String(input)), Expression::Atom(Atom::Integer(value))) = (&args[0], &args[1]) {
                Ok(Expression::Atom(Atom::Integer(ta.change(input.as_str(), *value))))
            } else {
                Err(join_text("Invalid arguments for ta.", "change"))
            }
        } else {
            Err(join_text("Invalid number of arguments for ta.", "change"))
        }
    }

    /// `ta.cci(input, value)`: the value, as a double.
    pub fn handle_cci(ta: &TA, args: Vec<Expression>) -> (r: Result<Expression, String>)
        ensures
            result_view(r) == ta_handler(exprs_view(args@), "cci"@,
                |v: i64| SpecExpression::Atom(SpecAtom::Double(Float::FromInt(v)))),
    {
        proof { lemma_exprs_view(args@); }
        if args.len() == 2 {
            if let (Expression::Atom(Atom::String(input)), Expression::Atom(Atom::Integer(value))) = (&args[0], &args[1]) {
                Ok(Expression::Atom(Atom::Double(ta.cci(input.as_str(), *value))))
            } else {
                Err(join_text("Invalid arguments for ta.", "cci"))
            }
        } else {
            Err(join_text("Invalid number of arguments for ta.", "cci"))
        }
    }

    fn change(&self, input: &str, value: i64) -> (r: i64)
        ensures
            r == value,
    {
        value
    }

    fn cci(&self, input: &str, value: i64) -> (r: Float)
        ensures
            r == Float::FromInt(value),
    {
        Float::FromInt(value)
    }

    /// A copy of this object.
    pub fn copy(&self) -> (r: TA)
        ensures
            r.methods.bindings() == self.methods.bindings(),
    {
        let mut methods: NameMap<TaMethod> = NameMap::new();
        let mut i: usize = 0;
        while i < self.methods.entries.len()
            invariant
                i <= self.methods.entries.len(),
                methods.bindings() == self.methods.bindings().take(i as int),
            decreases self.methods.entries.len() - i,
        {
            methods.insert(self.methods.entries[i].0.clone(), self.methods.entries[i].1);
            i = i + 1;
            assert(self.methods.bindings().take(i as int) =~= self.methods.bindings().take(i - 1).push(self.methods.bindings()[i - 1]));
        }
        assert(self.methods.bindings().take(i as int) =~= self.methods.bindings());
        TA { methods }
    }
}

impl Object {
    /// The object's methods, by name.
    pub open spec fn method_table(&self) -> Seq<(Seq<char>, TaMethod)> {
        match self {
            Object::TA(ta) => ta.methods.bindings(),
        }
    }

    /// A copy of this object.
    pub fn copy(&self) -> (r: Object)
        ensures
            r.method_table() == self.method_table(),
    {
        match self {
            Object::TA(ta) => Object::TA(ta.copy()),
        }
    }
}

} // verus!
