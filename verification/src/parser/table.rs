//! Named values, where a later binding of a name replaces an earlier one.

use vstd::prelude::*;

verus! {

/// One binding of a name.
#[derive(Clone, Debug, PartialEq, Eq)]
pub struct Entry<V> {
    pub name: String,
    pub value: V,
}

/// Bindings in the order in which they were made. Looking a name up finds
/// the binding that was made last.
#[derive(Clone, Debug, PartialEq, Eq)]
pub struct Table<V> {
    pub entries: Vec<Entry<V>>,
}

/// The map that a sequence of bindings amounts to: each binding is written
/// over what the earlier ones left.
pub open spec fn bound<T>(pairs: Seq<(Seq<char>, T)>) -> Map<Seq<char>, T>
    decreases pairs.len(),
{
    if pairs.len() == 0 {
        Map::empty()
    } else {
        bound(pairs.drop_last()).insert(pairs.last().0, pairs.last().1)
    }
}

/// A name is bound exactly if some binding is made of it.
pub proof fn lemma_bound_domain<T>(pairs: Seq<(Seq<char>, T)>, name: Seq<char>)
    ensures
        bound(pairs).contains_key(name) <==> exists|i: int|
            0 <= i < pairs.len() && (#[trigger] pairs[i]).0 == name,
        bound(pairs).dom().finite(),
    decreases pairs.len(),
{
    if pairs.len() > 0 {
        let front = pairs.drop_last();
        lemma_bound_domain(front, name);
        if bound(pairs).contains_key(name) {
            if pairs.last().0 == name {
                assert(pairs[pairs.len() - 1].0 == name);
            } else {
                let i = choose|i: int| 0 <= i < front.len() && (#[trigger] front[i]).0 == name;
                assert(pairs[i].0 == name);
            }
        }
        if exists|i: int| 0 <= i < pairs.len() && (#[trigger] pairs[i]).0 == name {
            let i = choose|i: int| 0 <= i < pairs.len() && (#[trigger] pairs[i]).0 == name;
            if i < pairs.len() - 1 {
                assert(front[i].0 == name);
            }
        }
    }
}

/// The binding of a name that no later binding replaces is the one in force.
pub proof fn lemma_bound_latest<T>(pairs: Seq<(Seq<char>, T)>, i: int)
    requires
        0 <= i < pairs.len(),
        forall|j: int| i < j < pairs.len() ==> (#[trigger] pairs[j]).0 != pairs[i].0,
    ensures
        bound(pairs).contains_key(pairs[i].0),
        bound(pairs)[pairs[i].0] == pairs[i].1,
    decreases pairs.len(),
{
    if i < pairs.len() - 1 {
        let front = pairs.drop_last();
        assert(pairs[pairs.len() - 1].0 != pairs[i].0);
        assert forall|j: int| i < j < front.len() implies (#[trigger] front[j]).0 != front[i].0 by {
            assert(pairs[j].0 != pairs[i].0);
        }
        lemma_bound_latest(front, i);
    }
}

impl<V: View> Table<V> {
    /// The bindings as pairs of models, in the order in which they were made.
    pub open spec fn pairs(&self) -> Seq<(Seq<char>, V::V)> {
        Seq::new(self.entries.len() as nat, |i: int| (self.entries[i].name@, self.entries[i].value@))
    }

    /// Only finitely many names are bound.
    pub proof fn lemma_finite(&self)
        ensures
            self@.dom().finite(),
    {
        lemma_bound_domain(self.pairs(), Seq::empty());
    }

    /// A table that binds no name.
    pub fn new() -> (table: Self)
        ensures
            table@ == Map::<Seq<char>, V::V>::empty(),
    {
        let table = Table { entries: Vec::new() };
        assert(table.pairs() =~= Seq::empty());
        table
    }

    /// Binds `name` to `value`, in place of what it was bound to before.
    pub fn insert(&mut self, name: String, value: V)
        ensures
            final(self)@ == old(self)@.insert(name@, value@),
    {
        self.entries.push(Entry { name, value });
        assert(self.pairs().drop_last() =~= old(self).pairs());
    }

    /// What `name` is bound to, if it is bound.
    pub fn get(&self, name: &String) -> (found: Option<&V>)
        ensures
            match found {
                Some(value) => self@.contains_key(name@) && self@[name@] == value@,
                None => !self@.contains_key(name@),
            },
    {
        let mut i: usize = self.entries.len();
        while i > 0
            invariant
                i <= self.entries.len(),
                forall|j: int| i <= j < self.entries.len() ==> self.entries[j].name@ != name@,
            decreases i,
        {
            i -= 1;
            if self.entries[i].name == *name {
                proof {
                    lemma_bound_latest(self.pairs(), i as int);
                }
                return Some(&self.entries[i].value);
            }
        }
        proof {
            lemma_bound_domain(self.pairs(), name@);
        }
        None
    }
}

impl<V: View> View for Table<V> {
    type V = Map<Seq<char>, V::V>;

    open spec fn view(&self) -> Map<Seq<char>, V::V> {
        bound(self.pairs())
    }
}

} // verus!
