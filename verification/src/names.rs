//! A table from names to values: later bindings shadow earlier ones, so a
//! lookup finds the value most recently bound to the name.
use vstd::prelude::*;

verus! {

/// The value most recently bound to `k` in `s`, where later entries win.
pub open spec fn lookup<V>(s: Seq<(Seq<char>, V)>, k: Seq<char>) -> Option<V>
    decreases s.len(),
{
    if s.len() == 0 {
        None
    } else if s.last().0 == k {
        Some(s.last().1)
    } else {
        lookup(s.drop_last(), k)
    }
}

/// A table of named values.
#[derive(Debug)]
pub struct NameMap<V> {
    pub entries: Vec<(String, V)>,
}

impl<V> NameMap<V> {
    /// The bindings, oldest first, with each name by its characters.
    pub open spec fn bindings(&self) -> Seq<(Seq<char>, V)> {
        self.entries@.map_values(|e: (String, V)| (e.0@, e.1))
    }

    /// The value bound to `k`, if any.
    pub open spec fn get_spec(&self, k: Seq<char>) -> Option<V> {
        lookup(self.bindings(), k)
    }

    /// The table as a map from names to values.
    pub open spec fn as_map(&self) -> Map<Seq<char>, V> {
        Map::new(|k: Seq<char>| self.get_spec(k) is Some, |k: Seq<char>| self.get_spec(k).unwrap())
    }

    pub fn new() -> (m: Self)
        ensures
            m.bindings() == Seq::<(Seq<char>, V)>::empty(),
            forall|k: Seq<char>| m.get_spec(k) is None,
    {
        NameMap { entries: Vec::new() }
    }

    /// Binds `name` to `value`; the old binding of `name`, if any, is shadowed.
    pub fn insert(&mut self, name: String, value: V)
        ensures
            final(self).bindings() == old(self).bindings().push((name@, value)),
            final(self).get_spec(name@) == Some(value),
            forall|k: Seq<char>| k != name@ ==> final(self).get_spec(k) == old(self).get_spec(k),
    {
        let ghost n = name@;
        self.entries.push((name, value));
        proof {
            assert(self.bindings() =~= old(self).bindings().push((n, value)));
            assert(self.bindings().drop_last() =~= old(self).bindings());
        }
    }

    /// The value bound to `name`, if any.
    pub fn get(&self, name: &str) -> (r: Option<&V>)
        ensures
            r matches Some(v) ==> self.get_spec(name@) == Some(*v),
            r is None ==> self.get_spec(name@) is None,
    {
        let mut i = self.entries.len();
        assert(self.bindings().take(i as int) =~= self.bindings());
        while i > 0
            invariant
                i <= self.entries.len(),
                lookup(self.bindings(), name@) == lookup(self.bindings().take(i as int), name@),
            decreases i,
        {
            let ghost b = self.bindings().take(i as int);
            assert(b.drop_last() =~= self.bindings().take(i - 1));
            if crate::text::same_text(&self.entries[i - 1].0, name) {
                return Some(&self.entries[i - 1].1);
            }
            i = i - 1;
        }
        assert(self.bindings().take(0) =~= Seq::<(Seq<char>, V)>::empty());
        None
    }

    /// Whether `name` has a binding.
    pub fn contains(&self, name: &str) -> (r: bool)
        ensures
            r == (self.get_spec(name@) is Some),
    {
        self.get(name).is_some()
    }

    /// Whether `name` is bound by an entry from the `i`-th on.
    fn occurs_from(&self, i: usize, name: &str) -> (r: bool)
        requires
            i <= self.entries.len(),
        ensures
            r == (lookup(self.bindings().skip(i as int), name@) is Some),
    {
        let mut j = self.entries.len();
        assert(self.bindings().skip(i as int).take(j - i) =~= self.bindings().skip(i as int));
        while j > i
            invariant
                i <= j <= self.entries.len(),
                lookup(self.bindings().skip(i as int), name@) == lookup(self.bindings().skip(i as int).take(j - i), name@),
            decreases j,
        {
            let ghost b = self.bindings().skip(i as int).take(j - i);
            assert(b.drop_last() =~= self.bindings().skip(i as int).take(j - 1 - i));
            if crate::text::same_text(&self.entries[j - 1].0, name) {
                return true;
            }
            j = j - 1;
        }
        assert(self.bindings().skip(i as int).take(0) =~= Seq::<(Seq<char>, V)>::empty());
        false
    }

    /// The number of distinct names bound.
    pub fn len(&self) -> (r: usize)
        ensures
            r == name_count(self.bindings()),
    {
        let mut i = self.entries.len();
        let mut count: usize = 0;
        assert(self.bindings().skip(i as int) =~= Seq::<(Seq<char>, V)>::empty());
        while i > 0
            invariant
                i <= self.entries.len(),
                count <= self.entries.len() - i,
                count == name_count(self.bindings().skip(i as int)),
            decreases i,
        {
            let ghost s = self.bindings().skip(i - 1);
            assert(s.drop_first() =~= self.bindings().skip(i as int));
            if !self.occurs_from(i, self.entries[i - 1].0.as_str()) {
                count = count + 1;
            }
            i = i - 1;
        }
        assert(self.bindings().skip(0) =~= self.bindings());
        count
    }
}

/// The number of distinct names among the bindings.
pub open spec fn name_count<V>(s: Seq<(Seq<char>, V)>) -> nat
    decreases s.len(),
{
    if s.len() == 0 {
        0
    } else {
        let rest = s.drop_first();
        (if lookup(rest, s[0].0) is Some { 0nat } else { 1nat }) + name_count(rest)
    }
}

/// A name has a binding exactly when the first entry or a later one binds it.
pub proof fn lemma_lookup_front<V>(s: Seq<(Seq<char>, V)>, k: Seq<char>)
    requires
        s.len() > 0,
    ensures
        (lookup(s, k) is Some) == (s[0].0 == k || lookup(s.drop_first(), k) is Some),
    decreases s.len(),
{
    if s.len() == 1 {
        assert(s.drop_first() =~= Seq::<(Seq<char>, V)>::empty());
        assert(s.drop_last() =~= Seq::<(Seq<char>, V)>::empty());
    } else {
        assert(s.drop_last().drop_first() =~= s.drop_first().drop_last());
        assert(s.drop_first().last() == s.last());
        assert(s.drop_last()[0] == s[0]);
        lemma_lookup_front(s.drop_last(), k);
    }
}

/// Binding a name that has no binding adds one to the count of names;
/// binding a name again leaves it.
pub proof fn lemma_name_count_push<V>(s: Seq<(Seq<char>, V)>, k: Seq<char>, v: V)
    ensures
        name_count(s.push((k, v))) == name_count(s) + (if lookup(s, k) is Some { 0nat } else { 1nat }),
    decreases s.len(),
{
    let t = s.push((k, v));
    if s.len() == 0 {
        assert(t.drop_first() =~= Seq::<(Seq<char>, V)>::empty());
    } else {
        assert(t.drop_first() =~= s.drop_first().push((k, v)));
        assert(t[0] == s[0]);
        assert(name_count(t) == (if lookup(t.drop_first(), t[0].0) is Some { 0nat } else { 1nat }) + name_count(t.drop_first()));
        lemma_name_count_push(s.drop_first(), k, v);
        lemma_lookup_push(s.drop_first(), k, v, s[0].0);
        lemma_lookup_front(s, k);
    }
}

/// A binding is found again by a lookup, and leaves every other name alone.
pub proof fn lemma_lookup_push<V>(s: Seq<(Seq<char>, V)>, k: Seq<char>, v: V, j: Seq<char>)
    ensures
        lookup(s.push((k, v)), j) == if j == k { Some(v) } else { lookup(s, j) },
{
    assert(s.push((k, v)).drop_last() =~= s);
}

} // verus!
