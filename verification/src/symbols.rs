//! A table from names to values: the bindings in the order they were made,
//! where a later binding of a name hides an earlier one.

use vstd::prelude::*;

verus! {

/// What `key` is bound to in `entries`: the value of its last binding.
pub open spec fn lookup<V>(entries: Seq<(String, V)>, key: Seq<char>) -> Option<V>
    decreases entries.len(),
{
    if entries.len() == 0 {
        None
    } else if entries.last().0@ == key {
        Some(entries.last().1)
    } else {
        lookup(entries.drop_last(), key)
    }
}

/// The bindings as a map.
pub open spec fn bindings<V>(entries: Seq<(String, V)>) -> Map<Seq<char>, V> {
    Map::new(|k: Seq<char>| lookup(entries, k) is Some, |k: Seq<char>| lookup(entries, k).unwrap())
}

/// A table from names to values.
pub struct SymbolTable<V> {
    pub entries: Vec<(String, V)>,
}

impl<V> View for SymbolTable<V> {
    type V = Map<Seq<char>, V>;

    open spec fn view(&self) -> Map<Seq<char>, V> {
        bindings(self.entries@)
    }
}

/// Binding a name changes the map at that name and nowhere else.
pub proof fn lemma_bind<V>(entries: Seq<(String, V)>, name: String, value: V)
    ensures
        bindings(entries.push((name, value))) == bindings(entries).insert(name@, value),
{
    let after = entries.push((name, value));
    assert(after.drop_last() =~= entries);
    assert(bindings(after) =~= bindings(entries).insert(name@, value));
}

impl<V> SymbolTable<V> {
    /// A table without bindings.
    pub fn new() -> (t: Self)
        ensures
            t@ == Map::<Seq<char>, V>::empty(),
            t.entries@.len() == 0,
    {
        let t = SymbolTable { entries: Vec::new() };
        assert(t@ =~= Map::<Seq<char>, V>::empty());
        t
    }

    /// Binds `name` to `value`, hiding any earlier binding of it.
    pub fn insert(&mut self, name: String, value: V)
        ensures
            final(self)@ == old(self)@.insert(name@, value),
            final(self).entries@ == old(self).entries@.push((name, value)),
    {
        proof {
            lemma_bind(self.entries@, name, value);
        }
        self.entries.push((name, value));
    }

    /// The value that `name` is bound to, if any.
    pub fn get(&self, name: &String) -> (r: Option<&V>)
        ensures
            match r {
                Some(v) => self@.contains_key(name@) && *v == self@[name@] && exists|i: int|
                    0 <= i < self.entries@.len() && (#[trigger] self.entries@[i]).1 == *v,
                None => !self@.contains_key(name@),
            },
    {
        let mut i: usize = self.entries.len();
        assert(self.entries@.take(i as int) =~= self.entries@);
        while i > 0
            invariant
                i <= self.entries@.len(),
                lookup(self.entries@, name@) == lookup(self.entries@.take(i as int), name@),
            decreases i,
        {
            let ghost prefix = self.entries@.take(i as int);
            assert(prefix.drop_last() =~= self.entries@.take(i as int - 1));
            assert(prefix.last() == self.entries@[i as int - 1]);
            if self.entries[i - 1].0 == *name {
                return Some(&self.entries[i - 1].1);
            }
            i -= 1;
        }
        None
    }

    /// Whether `name` is bound.
    pub fn contains_key(&self, name: &String) -> (r: bool)
        ensures
            r == self@.contains_key(name@),
    {
        self.get(name).is_some()
    }

    /// Number of bindings made, hidden ones included.
    pub fn len(&self) -> (n: usize)
        ensures
            n == self.entries@.len(),
    {
        self.entries.len()
    }
}

impl<V: Copy> SymbolTable<V> {
    /// A table with the same bindings.
    pub fn duplicate(&self) -> (t: Self)
        ensures
            t@ == self@,
            t.entries@ == self.entries@,
    {
        let mut entries: Vec<(String, V)> = Vec::new();
        let mut i: usize = 0;
        while i < self.entries.len()
            invariant
                i <= self.entries@.len(),
                entries@ == self.entries@.take(i as int),
            decreases self.entries@.len() - i,
        {
            let name = self.entries[i].0.clone();
            let value = self.entries[i].1;
            entries.push((name, value));
            assert(entries@ =~= self.entries@.take(i as int + 1));
            i += 1;
        }
        assert(entries@ =~= self.entries@);
        SymbolTable { entries }
    }
}

} // verus!
