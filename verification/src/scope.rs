use vstd::prelude::*;
use crate::text::same_text;

verus! {

/// The map that a list of bindings stands for: a later binding of a name
/// hides an earlier one.
pub open spec fn bindings<V>(entries: Seq<(String, V)>) -> Map<Seq<char>, V>
    decreases entries.len(),
{
    if entries.len() == 0 {
        Map::empty()
    } else {
        bindings(entries.drop_last()).insert(entries.last().0@, entries.last().1)
    }
}

proof fn lemma_absent<V>(entries: Seq<(String, V)>, key: Seq<char>)
    requires
        forall|j: int| 0 <= j < entries.len() ==> entries[j].0@ != key,
    ensures
        !bindings(entries).contains_key(key),
    decreases entries.len(),
{
    if entries.len() > 0 {
        lemma_absent(entries.drop_last(), key);
    }
}

proof fn lemma_found<V>(entries: Seq<(String, V)>, key: Seq<char>, i: int)
    requires
        0 <= i < entries.len(),
        entries[i].0@ == key,
        forall|j: int| i < j < entries.len() ==> entries[j].0@ != key,
    ensures
        bindings(entries).contains_key(key),
        bindings(entries)[key] == entries[i].1,
    decreases entries.len(),
{
    if i < entries.len() - 1 {
        lemma_found(entries.drop_last(), key, i);
    }
}

proof fn lemma_replaced<V>(entries: Seq<(String, V)>, i: int, name: String, value: V)
    requires
        0 <= i < entries.len(),
        entries[i].0@ == name@,
        forall|j: int| i < j < entries.len() ==> entries[j].0@ != name@,
    ensures
        bindings(entries.update(i, (name, value))) == bindings(entries).insert(name@, value),
    decreases entries.len(),
{
    let after = entries.update(i, (name, value));
    if i < entries.len() - 1 {
        lemma_replaced(entries.drop_last(), i, name, value);
        assert(after.drop_last() =~= entries.drop_last().update(i, (name, value)));
        assert(bindings(after) =~= bindings(entries).insert(name@, value));
    } else {
        assert(after.drop_last() =~= entries.drop_last());
        assert(bindings(after) =~= bindings(entries).insert(name@, value));
    }
}

/// One scope: a finite map from names to what they are bound to.
#[derive(Debug)]
pub struct Scope<V> {
    entries: Vec<(String, V)>,
}

impl<V> View for Scope<V> {
    type V = Map<Seq<char>, V>;

    closed spec fn view(&self) -> Map<Seq<char>, V> {
        bindings(self.entries@)
    }
}

impl<V> Scope<V> {
    /// A scope that binds no name.
    pub fn new() -> (scope: Scope<V>)
        ensures
            scope@ == Map::<Seq<char>, V>::empty(),
    {
        Scope { entries: Vec::new() }
    }

    fn find(&self, name: &str) -> (place: Option<usize>)
        ensures
            match place {
                Some(i) => {
                    &&& i < self.entries@.len()
                    &&& self.entries@[i as int].0@ == name@
                    &&& forall|j: int| i < j < self.entries@.len() ==> self.entries@[j].0@ != name@
                    &&& self@.contains_key(name@)
                    &&& self@[name@] == self.entries@[i as int].1
                },
                None => !self@.contains_key(name@),
            },
    {
        let mut i: usize = self.entries.len();
        while i > 0
            invariant
                i <= self.entries@.len(),
                forall|j: int| i <= j < self.entries@.len() ==> self.entries@[j].0@ != name@,
            decreases i,
        {
            i -= 1;
            if same_text(self.entries[i].0.as_str(), name) {
                proof {
                    lemma_found(self.entries@, name@, i as int);
                }
                return Some(i);
            }
        }
        proof {
            lemma_absent(self.entries@, name@);
        }
        None
    }

    /// Whether the scope binds `name`.
    pub fn contains(&self, name: &str) -> (yes: bool)
        ensures
            yes == self@.contains_key(name@),
    {
        self.find(name).is_some()
    }

    /// What the scope binds `name` to, if it binds it.
    pub fn get(&self, name: &str) -> (found: Option<&V>)
        ensures
            match found {
                Some(value) => self@.contains_key(name@) && *value == self@[name@],
                None => !self@.contains_key(name@),
            },
    {
        match self.find(name) {
            Some(i) => Some(&self.entries[i].1),
            None => None,
        }
    }

    /// Binds `name` to `value`, in place of what it was bound to before.
    pub fn insert(&mut self, name: String, value: V)
        ensures
            final(self)@ == old(self)@.insert(name@, value),
    {
        match self.find(name.as_str()) {
            Some(i) => {
                proof {
                    lemma_replaced(self.entries@, i as int, name, value);
                }
                self.entries.set(i, (name, value));
            },
            None => {
                self.entries.push((name, value));
                assert(self.entries@.drop_last() =~= old(self).entries@);
            },
        }
    }
}

} // verus!
