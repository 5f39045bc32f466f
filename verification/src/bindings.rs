//! The evaluator's binding table: one flat mapping from names to values.

use vstd::prelude::*;
use crate::interpreter::Value;

verus! {

/// The mapping that a list of bindings stands for: a later binding of a name
/// replaces an earlier one.
pub open spec fn table_of(entries: Seq<(String, Value)>) -> Map<Seq<char>, Value>
    decreases entries.len(),
{
    if entries.len() == 0 {
        Map::empty()
    } else {
        table_of(entries.drop_last()).insert(entries.last().0@, entries.last().1)
    }
}

/// No name is bound twice in `entries`.
pub open spec fn distinct_names(entries: Seq<(String, Value)>) -> bool {
    forall|i: int, j: int| 0 <= i < j < entries.len() ==> entries[i].0@ != entries[j].0@
}

/// `entries` lists `table`: every binding once, and nothing else.
pub open spec fn lists(entries: Seq<(String, Value)>, table: Map<Seq<char>, Value>) -> bool {
    &&& distinct_names(entries)
    &&& forall|i: int|
        0 <= i < entries.len() ==> table.contains_key(#[trigger] entries[i].0@) && table[entries[i].0@]
            == entries[i].1
    &&& forall|k: Seq<char>| #[trigger]
        table.contains_key(k) ==> exists|i: int| 0 <= i < entries.len() && entries[i].0@ == k
}

/// A list without repeated names lists the mapping it stands for.
pub proof fn lemma_table_lists(entries: Seq<(String, Value)>)
    requires
        distinct_names(entries),
    ensures
        lists(entries, table_of(entries)),
    decreases entries.len(),
{
    if entries.len() > 0 {
        let front = entries.drop_last();
        lemma_table_lists(front);
        let table = table_of(entries);
        assert forall|i: int| 0 <= i < entries.len() implies table.contains_key(
            #[trigger] entries[i].0@,
        ) && table[entries[i].0@] == entries[i].1 by {
            if i < entries.len() - 1 {
                assert(front[i] == entries[i]);
                assert(table_of(front).contains_key(front[i].0@));
            }
        }
        assert forall|k: Seq<char>| #[trigger] table.contains_key(k) implies exists|i: int|
            0 <= i < entries.len() && entries[i].0@ == k by {
            if k == entries.last().0@ {
                assert(entries[entries.len() - 1].0@ == k);
            } else {
                assert(table_of(front).contains_key(k));
                let i = choose|i: int| 0 <= i < front.len() && front[i].0@ == k;
                assert(entries[i].0@ == k);
            }
        }
    }
}

/// The mapping that a list stands for binds finitely many names: no more than
/// the list has entries, and as many where no name is bound twice.
pub proof fn lemma_table_is_finite(entries: Seq<(String, Value)>)
    ensures
        table_of(entries).dom().finite(),
        table_of(entries).dom().len() <= entries.len(),
        distinct_names(entries) ==> table_of(entries).dom().len() == entries.len(),
    decreases entries.len(),
{
    if entries.len() > 0 {
        let front = entries.drop_last();
        lemma_table_is_finite(front);
        let key = entries.last().0@;
        assert(table_of(entries).dom() =~= table_of(front).dom().insert(key));
        if distinct_names(entries) {
            assert(distinct_names(front)) by {
                assert forall|i: int, j: int| 0 <= i < j < front.len() implies front[i].0@
                    != front[j].0@ by {
                    assert(front[i] == entries[i]);
                    assert(front[j] == entries[j]);
                }
            }
            lemma_table_lists(front);
            if table_of(front).contains_key(key) {
                let i = choose|i: int| 0 <= i < front.len() && front[i].0@ == key;
                assert(entries[i].0@ == entries[entries.len() - 1].0@);
            }
        }
    }
}

/// Replacing the value bound to a name in place binds the name anew.
proof fn lemma_table_update(entries: Seq<(String, Value)>, i: int, name: String, value: Value)
    requires
        distinct_names(entries),
        0 <= i < entries.len(),
        entries[i].0@ == name@,
    ensures
        distinct_names(entries.update(i, (name, value))),
        table_of(entries.update(i, (name, value))) == table_of(entries).insert(name@, value),
    decreases entries.len(),
{
    let updated = entries.update(i, (name, value));
    let front = entries.drop_last();
    if i == entries.len() - 1 {
        assert(updated.drop_last() == front);
        assert(table_of(updated) == table_of(entries).insert(name@, value));
    } else {
        lemma_table_update(front, i, name, value);
        assert(updated.drop_last() == front.update(i, (name, value)));
        assert(updated.last() == entries.last());
        assert(entries.last().0@ != name@);
        assert(table_of(updated) == table_of(entries).insert(name@, value));
    }
}

/// The evaluator's bindings. A name is bound at most once; binding it again
/// replaces the value.
#[derive(Debug)]
pub struct Bindings {
    entries: Vec<(String, Value)>,
}

impl View for Bindings {
    type V = Map<Seq<char>, Value>;

    closed spec fn view(&self) -> Map<Seq<char>, Value> {
        table_of(self.entries@)
    }
}

impl Bindings {
    #[verifier::type_invariant]
    spec fn well_formed(self) -> bool {
        distinct_names(self.entries@)
    }

    /// A table that binds nothing.
    pub fn new() -> (r: Bindings)
        ensures
            r@ == Map::<Seq<char>, Value>::empty(),
            r@.dom().finite(),
    {
        Bindings { entries: Vec::new() }
    }

    /// The names that a table binds are finitely many.
    pub proof fn lemma_finite(&self)
        ensures
            self@.dom().finite(),
    {
        lemma_table_is_finite(self.entries@);
    }

    /// Where `name` is bound in the list, if it is.
    fn position(&self, name: &String) -> (r: Option<usize>)
        ensures
            match r {
                Some(i) => i < self.entries@.len() && self.entries@[i as int].0@ == name@,
                None => forall|j: int| 0 <= j < self.entries@.len() ==> self.entries@[j].0@ != name@,
            },
    {
        let mut i: usize = 0;
        while i < self.entries.len()
            invariant
                i <= self.entries@.len(),
                forall|j: int| 0 <= j < i ==> self.entries@[j].0@ != name@,
            decreases self.entries@.len() - i,
        {
            if self.entries[i].0 == *name {
                return Some(i);
            }
            i += 1;
        }
        None
    }

    /// The value bound to `name`, if any.
    pub fn get(&self, name: &String) -> (r: Option<Value>)
        ensures
            r == if self@.contains_key(name@) {
                Some(self@[name@])
            } else {
                None
            },
    {
        proof {
            use_type_invariant(self);
            lemma_table_lists(self.entries@);
        }
        match self.position(name) {
            Some(i) => Some(self.entries[i].1),
            None => None,
        }
    }

    /// Binds `name` to `value`, replacing what it was bound to before.
    pub fn insert(&mut self, name: String, value: Value)
        ensures
            final(self)@ == old(self)@.insert(name@, value),
            final(self)@.dom().finite(),
    {
        proof {
            use_type_invariant(&*self);
            lemma_table_is_finite(self.entries@);
        }
        let found = self.position(&name);
        let ghost before = self.entries@;
        let mut entries: Vec<(String, Value)> = Vec::new();
        core::mem::swap(&mut entries, &mut self.entries);
        match found {
            Some(i) => {
                proof {
                    lemma_table_update(before, i as int, name, value);
                }
                entries.set(i, (name, value));
            },
            None => {
                assert(before.push((name, value)).drop_last() == before);
                entries.push((name, value));
            },
        }
        self.entries = entries;
    }

    /// The bindings, each name once, in the order in which the names were first bound.
    pub fn entries(&self) -> (r: &Vec<(String, Value)>)
        ensures
            lists(r@, self@),
            self@.dom().finite(),
            r@.len() == self@.dom().len(),
    {
        proof {
            use_type_invariant(self);
            lemma_table_lists(self.entries@);
            lemma_table_is_finite(self.entries@);
        }
        &self.entries
    }
}

} // verus!
