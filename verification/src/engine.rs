//! The engine that scripts run on.
use vstd::prelude::*;
use crate::ast::function::Function;
use crate::types::scope::Scope;

verus! {

/// An engine: a stack of scopes, the first of which holds the functions
/// registered with it.
pub struct Engine {
    scopes: Vec<Scope>,
}

impl Engine {
    /// The scopes, first to last.
    pub closed spec fn scopes(&self) -> Seq<Scope> {
        self.scopes@
    }

    /// A new engine, with no scope.
    pub fn new() -> (e: Self)
        ensures
            e.scopes() == Seq::<Scope>::empty(),
    {
        Self::new_raw()
    }

    /// An engine with no scope.
    pub fn new_raw() -> (e: Self)
        ensures
            e.scopes() == Seq::<Scope>::empty(),
    {
        Engine { scopes: Vec::new() }
    }

    /// Binds `name` to `function` in the first scope; an engine with no
    /// scope is left as it is.
    pub fn register_fn(&mut self, name: String, function: Function)
        ensures
            old(self).scopes().len() == 0 ==> final(self).scopes() == old(self).scopes(),
            old(self).scopes().len() > 0 ==> {
                &&& final(self).scopes().len() == old(self).scopes().len()
                &&& final(self).scopes()[0].env().vars == old(self).scopes()[0].env().vars
                &&& final(self).scopes()[0].env().funcs == old(self).scopes()[0].env().funcs.push((name@, function@))
                &&& final(self).scopes()[0].others() == old(self).scopes()[0].others()
                &&& final(self).scopes().skip(1) == old(self).scopes().skip(1)
            },
    {
        if self.scopes.len() > 0 {
            let mut first = self.scopes.remove(0);
            first.set_function(name, function);
            self.scopes.insert(0, first);
            assert(self.scopes@.skip(1) =~= old(self).scopes@.skip(1));
        }
    }
}

impl Default for Engine {
    fn default() -> (e: Self)
        ensures
            e.scopes() == Seq::<Scope>::empty(),
    {
        Self::new()
    }
}

} // verus!
