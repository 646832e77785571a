use vstd::prelude::*;
use crate::ast::expression::Expression;
use crate::ast::function::Function;
use crate::ast::model::{SpecExpression, SpecFunction, exprs_view, copy_expr, copy_function, copy_string};
use crate::context::semantics::{Env, Libs, library_call};
use crate::names::{NameMap, lookup};
use crate::object::ta::{Object, TaMethod};
use crate::package::lib::{Library, result_view};
use crate::package::math::Math;
use crate::text::{join_text, text_eq, owned};

verus! {

broadcast use vstd::string::group_string_axioms;

/// Variable bindings with each value by its view.
pub open spec fn vars_view(b: Seq<(Seq<char>, Expression)>) -> Seq<(Seq<char>, SpecExpression)> {
    b.map_values(|p: (Seq<char>, Expression)| (p.0, p.1@))
}

/// Function bindings with each function by its view.
pub open spec fn funcs_view(b: Seq<(Seq<char>, Function)>) -> Seq<(Seq<char>, SpecFunction)> {
    b.map_values(|p: (Seq<char>, Function)| (p.0, p.1@))
}

/// Object bindings with each object by its method table.
pub open spec fn objects_view(b: Seq<(Seq<char>, Object)>) -> Seq<(Seq<char>, Seq<(Seq<char>, TaMethod)>)> {
    b.map_values(|p: (Seq<char>, Object)| (p.0, p.1.method_table()))
}

/// Module bindings with each module by its bindings.
pub open spec fn imports_view(b: Seq<(Seq<char>, NameMap<Expression>)>) -> Seq<(Seq<char>, Seq<(Seq<char>, SpecExpression)>)> {
    b.map_values(|p: (Seq<char>, NameMap<Expression>)| (p.0, vars_view(p.1.bindings())))
}

/// Looking a name up among bindings and then taking the view is looking it
/// up among the viewed bindings.
pub proof fn lemma_lookup_vars(b: Seq<(Seq<char>, Expression)>, k: Seq<char>)
    ensures
        lookup(vars_view(b), k) == match lookup(b, k) {
            Some(e) => Some(e@),
            None => None::<SpecExpression>,
        },
    decreases b.len(),
{
    if b.len() > 0 {
        assert(vars_view(b).drop_last() =~= vars_view(b.drop_last()));
        lemma_lookup_vars(b.drop_last(), k);
    }
}

/// As `lemma_lookup_vars`, for functions.
pub proof fn lemma_lookup_funcs(b: Seq<(Seq<char>, Function)>, k: Seq<char>)
    ensures
        lookup(funcs_view(b), k) == match lookup(b, k) {
            Some(f) => Some(f@),
            None => None::<SpecFunction>,
        },
    decreases b.len(),
{
    if b.len() > 0 {
        assert(funcs_view(b).drop_last() =~= funcs_view(b.drop_last()));
        lemma_lookup_funcs(b.drop_last(), k);
    }
}

/// The variables, functions, objects, imported modules and libraries that a
/// script runs with. A later binding of a name shadows the earlier ones.
#[derive(Debug)]
pub struct Scope<L = Math> {
    pub variables: NameMap<Expression>,
    functions: NameMap<Function>,
    objects: NameMap<Object>,
    imports: NameMap<NameMap<Expression>>,
    libraries: NameMap<L>,
}

impl<L: Library> Scope<L> {
    /// The variables and functions.
    pub closed spec fn env(&self) -> Env {
        Env { vars: vars_view(self.variables.bindings()), funcs: funcs_view(self.functions.bindings()) }
    }

    /// The libraries.
    pub closed spec fn libs(&self) -> Libs<L> {
        self.libraries.bindings()
    }

    /// The objects, by their method tables.
    pub closed spec fn objects(&self) -> Seq<(Seq<char>, Seq<(Seq<char>, TaMethod)>)> {
        objects_view(self.objects.bindings())
    }

    /// The imported modules.
    pub closed spec fn imports(&self) -> Seq<(Seq<char>, Seq<(Seq<char>, SpecExpression)>)> {
        imports_view(self.imports.bindings())
    }

    /// Everything but the variables and functions.
    pub open spec fn others(&self) -> (Libs<L>, Seq<(Seq<char>, Seq<(Seq<char>, TaMethod)>)>, Seq<(Seq<char>, Seq<(Seq<char>, SpecExpression)>)>) {
        (self.libs(), self.objects(), self.imports())
    }

    pub fn new() -> (sc: Self)
        ensures
            sc.env() == (Env { vars: Seq::empty(), funcs: Seq::empty() }),
            sc.libs() == Seq::<(Seq<char>, L)>::empty(),
            sc.objects() == Seq::<(Seq<char>, Seq<(Seq<char>, TaMethod)>)>::empty(),
            sc.imports() == Seq::<(Seq<char>, Seq<(Seq<char>, SpecExpression)>)>::empty(),
    {
        let sc = Scope {
            variables: NameMap::new(),
            functions: NameMap::new(),
            objects: NameMap::new(),
            imports: NameMap::new(),
            libraries: NameMap::new(),
        };
        assert(sc.env().vars =~= Seq::<(Seq<char>, SpecExpression)>::empty());
        assert(sc.env().funcs =~= Seq::<(Seq<char>, SpecFunction)>::empty());
        assert(sc.objects() =~= Seq::<(Seq<char>, Seq<(Seq<char>, TaMethod)>)>::empty());
        assert(sc.imports() =~= Seq::<(Seq<char>, Seq<(Seq<char>, SpecExpression)>)>::empty());
        sc
    }

    /// A scope with a copy of `outer`'s variables and nothing else.
    pub fn new_with_variables(outer: &Scope<L>) -> (sc: Self)
        ensures
            sc.env() == (Env { vars: outer.env().vars, funcs: Seq::empty() }),
            sc.libs() == Seq::<(Seq<char>, L)>::empty(),
    {
        let mut sc = Scope::new();
        let mut i: usize = 0;
        assert(vars_view(outer.variables.bindings().take(0)) =~= Seq::<(Seq<char>, SpecExpression)>::empty());
        while i < outer.variables.entries.len()
            invariant
                i <= outer.variables.entries.len(),
                sc.env() == (Env { vars: vars_view(outer.variables.bindings().take(i as int)), funcs: Seq::empty() }),
                sc.libs() == Seq::<(Seq<char>, L)>::empty(),
            decreases outer.variables.entries.len() - i,
        {
            let (n, v) = (&outer.variables.entries[i].0, &outer.variables.entries[i].1);
            sc.set_variable(copy_string(n), copy_expr(v));
            i = i + 1;
            assert(vars_view(outer.variables.bindings().take(i as int)) =~=
                vars_view(outer.variables.bindings().take(i - 1)).push((n@, v@)));
        }
        assert(outer.variables.bindings().take(i as int) =~= outer.variables.bindings());
        sc
    }

    /// A copy of the variables.
    pub fn copy_variables(&self) -> (m: NameMap<Expression>)
        ensures
            vars_view(m.bindings()) == self.env().vars,
    {
        copy_module(&self.variables)
    }

    /// A copy of the scope with its variables, functions, objects and
    /// imported modules, and no library.
    pub fn clone(&self) -> (r: Scope<L>)
        ensures
            r.env() == self.env(),
            r.objects() == self.objects(),
            r.imports() == self.imports(),
            r.libs() == Seq::<(Seq<char>, L)>::empty(),
    {
        let variables = self.copy_variables();
        let mut functions: NameMap<Function> = NameMap::new();
        let mut i: usize = 0;
        assert(funcs_view(self.functions.bindings().take(0)) =~= funcs_view(functions.bindings()));
        while i < self.functions.entries.len()
            invariant
                i <= self.functions.entries.len(),
                funcs_view(functions.bindings()) == funcs_view(self.functions.bindings().take(i as int)),
            decreases self.functions.entries.len() - i,
        {
            let (n, f) = (&self.functions.entries[i].0, &self.functions.entries[i].1);
            let ghost before = functions.bindings();
            functions.insert(copy_string(n), copy_function(f));
            i = i + 1;
            assert(funcs_view(self.functions.bindings().take(i as int)) =~= funcs_view(self.functions.bindings().take(i - 1)).push((n@, f@)));
            assert(funcs_view(functions.bindings()) =~= funcs_view(before).push((n@, f@)));
        }
        assert(self.functions.bindings().take(i as int) =~= self.functions.bindings());
        let mut objects: NameMap<Object> = NameMap::new();
        let mut i: usize = 0;
        assert(objects_view(self.objects.bindings().take(0)) =~= objects_view(objects.bindings()));
        while i < self.objects.entries.len()
            invariant
                i <= self.objects.entries.len(),
                objects_view(objects.bindings()) == objects_view(self.objects.bindings().take(i as int)),
            decreases self.objects.entries.len() - i,
        {
            let (n, o) = (&self.objects.entries[i].0, &self.objects.entries[i].1);
            let ghost before = objects.bindings();
            let c = o.copy();
            objects.insert(copy_string(n), c);
            i = i + 1;
            assert(objects_view(self.objects.bindings().take(i as int)) =~=
                objects_view(self.objects.bindings().take(i - 1)).push((n@, o.method_table())));
            assert(objects_view(objects.bindings()) =~= objects_view(before).push((n@, c.method_table())));
        }
        assert(self.objects.bindings().take(i as int) =~= self.objects.bindings());
        let mut imports: NameMap<NameMap<Expression>> = NameMap::new();
        let mut i: usize = 0;
        assert(imports_view(self.imports.bindings().take(0)) =~= imports_view(imports.bindings()));
        while i < self.imports.entries.len()
            invariant
                i <= self.imports.entries.len(),
                imports_view(imports.bindings()) == imports_view(self.imports.bindings().take(i as int)),
            decreases self.imports.entries.len() - i,
        {
            let (n, m) = (&self.imports.entries[i].0, &self.imports.entries[i].1);
            let ghost before = imports.bindings();
            let c = copy_module(m);
            imports.insert(copy_string(n), c);
            i = i + 1;
            assert(imports_view(self.imports.bindings().take(i as int)) =~=
                imports_view(self.imports.bindings().take(i - 1)).push((n@, vars_view(m.bindings()))));
            assert(imports_view(imports.bindings()) =~= imports_view(before).push((n@, vars_view(c.bindings()))));
        }
        assert(self.imports.bindings().take(i as int) =~= self.imports.bindings());
        let r = Scope { variables, functions, objects, imports, libraries: NameMap::new() };
        assert(r.env() =~= self.env());
        assert(r.libs() =~= Seq::<(Seq<char>, L)>::empty());
        r
    }

    /// Binds `name` to `value`.
    pub fn set_variable(&mut self, name: String, value: Expression)
        ensures
            final(self).env() == (Env { vars: old(self).env().vars.push((name@, value@)), funcs: old(self).env().funcs }),
            final(self).others() == old(self).others(),
    {
        let ghost nv = (name@, value@);
        self.variables.insert(name, value);
        assert(self.env().vars =~= old(self).env().vars.push(nv));
    }

    /// A copy of the value bound to `name`, if any.
    pub fn get_variable(&self, name: &str) -> (r: Option<Expression>)
        ensures
            match lookup(self.env().vars, name@) {
                Some(v) => r matches Some(x) && x@ == v,
                None => r is None,
            },
    {
        proof { lemma_lookup_vars(self.variables.bindings(), name@); }
        match self.variables.get(name) {
            Some(v) => Some(copy_expr(v)),
            None => None,
        }
    }

    /// Binds `name` to `function`.
    pub fn set_function(&mut self, name: String, function: Function)
        ensures
            final(self).env() == (Env { vars: old(self).env().vars, funcs: old(self).env().funcs.push((name@, function@)) }),
            final(self).others() == old(self).others(),
    {
        let ghost nf = (name@, function@);
        self.functions.insert(name, function);
        assert(self.env().funcs =~= old(self).env().funcs.push(nf));
    }

    /// A copy of the function bound to `name`, if any.
    pub fn get_function(&self, name: &str) -> (r: Option<Function>)
        ensures
            match lookup(self.env().funcs, name@) {
                Some(f) => r matches Some(x) && x@ == f,
                None => r is None,
            },
    {
        proof { lemma_lookup_funcs(self.functions.bindings(), name@); }
        match self.functions.get(name) {
            Some(f) => Some(copy_function(f)),
            None => None,
        }
    }

    /// Binds `name` to `object`.
    pub fn set_object(&mut self, name: String, object: Object)
        ensures
            final(self).objects() == old(self).objects().push((name@, object.method_table())),
            final(self).env() == old(self).env(),
            final(self).libs() == old(self).libs(),
            final(self).imports() == old(self).imports(),
    {
        let ghost no = (name@, object.method_table());
        self.objects.insert(name, object);
        assert(self.objects() =~= old(self).objects().push(no));
    }

    /// A copy of the object bound to `name`, if any.
    pub fn get_object(&self, name: &str) -> (r: Option<Object>)
        ensures
            match lookup(self.objects(), name@) {
                Some(t) => r matches Some(x) && x.method_table() == t,
                None => r is None,
            },
    {
        proof { lemma_lookup_objects(self.objects.bindings(), name@); }
        match self.objects.get(name) {
            Some(o) => Some(o.copy()),
            None => None,
        }
    }

    /// Binds the module `module_name` to `functions`.
    pub fn import_module(&mut self, module_name: &str, functions: NameMap<Expression>)
        ensures
            final(self).imports() == old(self).imports().push((module_name@, vars_view(functions.bindings()))),
            final(self).env() == old(self).env(),
            final(self).libs() == old(self).libs(),
            final(self).objects() == old(self).objects(),
    {
        let ghost nm = (module_name@, vars_view(functions.bindings()));
        self.imports.insert(owned(module_name), functions);
        assert(self.imports() =~= old(self).imports().push(nm));
    }

    /// A copy of what `func_name` is bound to in the module `module_name`.
    pub fn get_import(&self, module_name: &str, func_name: &str) -> (r: Option<Expression>)
        ensures
            match lookup(self.imports(), module_name@) {
                Some(m) => match lookup(m, func_name@) {
                    Some(v) => r matches Some(x) && x@ == v,
                    None => r is None,
                },
                None => r is None,
            },
    {
        proof {
            lemma_lookup_imports(self.imports.bindings(), module_name@);
        }
        match self.imports.get(module_name) {
            Some(m) => {
                proof { lemma_lookup_vars(m.bindings(), func_name@); }
                match m.get(func_name) {
                    Some(v) => Some(copy_expr(v)),
                    None => None,
                }
            },
            None => None,
        }
    }

    /// Binds the library `library` to `name`.
    pub fn register_library(&mut self, name: &str, library: L)
        ensures
            final(self).libs() == old(self).libs().push((name@, library)),
            final(self).env() == old(self).env(),
            final(self).objects() == old(self).objects(),
            final(self).imports() == old(self).imports(),
    {
        self.libraries.insert(owned(name), library);
    }

    /// Calls the method `func_name` of the library bound to `lib_name`.
    pub fn call_library_function(&self, lib_name: &str, func_name: &str, args: Vec<Expression>) -> (r: Result<Expression, String>)
        ensures
            result_view(r) == library_call(self.libs(), lib_name@, func_name@, exprs_view(args@)),
    {
        match self.libraries.get(lib_name) {
            Some(l) => l.call_method(func_name, args),
            None => {
                let m = join_text("Library '", lib_name);
                Err(join_text(m.as_str(), "' not found"))
            },
        }
    }
}

impl Scope<Math> {
    /// Registers the library of that name: `math` is the only one known.
    /// Whether the name was known.
    pub fn import_library(&mut self, library_name: &str) -> (known: bool)
        ensures
            known == (library_name@ == "math"@),
            known ==> final(self).libs().len() == old(self).libs().len() + 1
                && final(self).libs().take(old(self).libs().len() as int) == old(self).libs()
                && final(self).libs().last().0 == "math"@,
            !known ==> final(self).libs() == old(self).libs(),
            final(self).env() == old(self).env(),
            final(self).objects() == old(self).objects(),
            final(self).imports() == old(self).imports(),
    {
        if text_eq(library_name, "math") {
            self.register_library("math", Math);
            assert(self.libs().take(old(self).libs().len() as int) =~= old(self).libs());
            true
        } else {
            false
        }
    }
}

/// A copy of a table of values.
pub fn copy_module(m: &NameMap<Expression>) -> (r: NameMap<Expression>)
    ensures
        vars_view(r.bindings()) == vars_view(m.bindings()),
{
    let mut out: NameMap<Expression> = NameMap::new();
    let mut i: usize = 0;
    assert(vars_view(m.bindings().take(0)) =~= vars_view(out.bindings()));
    while i < m.entries.len()
        invariant
            i <= m.entries.len(),
            vars_view(out.bindings()) == vars_view(m.bindings().take(i as int)),
        decreases m.entries.len() - i,
    {
        let (n, v) = (&m.entries[i].0, &m.entries[i].1);
        let ghost before = out.bindings();
        out.insert(copy_string(n), copy_expr(v));
        i = i + 1;
        assert(vars_view(m.bindings().take(i as int)) =~= vars_view(m.bindings().take(i - 1)).push((n@, v@)));
        assert(vars_view(out.bindings()) =~= vars_view(before).push((n@, v@)));
    }
    assert(m.bindings().take(i as int) =~= m.bindings());
    out
}

/// As `lemma_lookup_vars`, for objects and their method tables.
pub proof fn lemma_lookup_objects(b: Seq<(Seq<char>, Object)>, k: Seq<char>)
    ensures
        lookup(objects_view(b), k) == match lookup(b, k) {
            Some(o) => Some(o.method_table()),
            None => None::<Seq<(Seq<char>, TaMethod)>>,
        },
    decreases b.len(),
{
    if b.len() > 0 {
        assert(objects_view(b).drop_last() =~= objects_view(b.drop_last()));
        lemma_lookup_objects(b.drop_last(), k);
    }
}

/// As `lemma_lookup_vars`, for imported modules.
pub proof fn lemma_lookup_imports(b: Seq<(Seq<char>, NameMap<Expression>)>, k: Seq<char>)
    ensures
        lookup(imports_view(b), k) == match lookup(b, k) {
            Some(m) => Some(vars_view(m.bindings())),
            None => None::<Seq<(Seq<char>, SpecExpression)>>,
        },
    decreases b.len(),
{
    if b.len() > 0 {
        assert(imports_view(b).drop_last() =~= imports_view(b.drop_last()));
        lemma_lookup_imports(b.drop_last(), k);
    }
}

} // verus!
