//! A small map from names to values that keeps its entries in the order in
//! which their names first came.

use vstd::prelude::*;
use crate::text::{same_text, views};

verus! {

/// Entries under distinct names, in the order of arrival.
pub struct Table<V> {
    names: Vec<String>,
    values: Vec<V>,
}

impl<V: View> View for Table<V> {
    type V = Map<Seq<char>, V::V>;

    closed spec fn view(&self) -> Map<Seq<char>, V::V> {
        Map::new(
            |k: Seq<char>| views(self.names@).contains(k),
            |k: Seq<char>| self.values[views(self.names@).index_of(k)]@,
        )
    }
}

impl<V: View> Table<V> {
    /// Every name has one value and occurs once.
    pub closed spec fn wf(&self) -> bool {
        &&& self.names.len() == self.values.len()
        &&& views(self.names@).no_duplicates()
    }

    /// The names in the order in which they came.
    pub closed spec fn order(&self) -> Seq<Seq<char>> {
        views(self.names@)
    }

    /// The names of a table are those of its map, each once.
    pub proof fn lemma_order(&self)
        requires
            self.wf(),
        ensures
            self.order().no_duplicates(),
            forall|k: Seq<char>| self.order().contains(k) <==> self@.contains_key(k),
    {
    }

    proof fn lemma_at(&self, i: int)
        requires
            self.wf(),
            0 <= i < self.names.len(),
        ensures
            self@.contains_key(self.names[i]@),
            self@[self.names[i]@] == self.values[i]@,
            self.order()[i] == self.names[i]@,
    {
        let names = views(self.names@);
        assert(names[i] == self.names[i]@);
        assert(names.contains(self.names[i]@));
        let j = names.index_of(self.names[i]@);
        assert(names[j] == names[i]);
    }

    /// A table without entries.
    pub fn new() -> (r: Table<V>)
        ensures
            r.wf(),
            r@ == Map::<Seq<char>, V::V>::empty(),
            r.order() == Seq::<Seq<char>>::empty(),
    {
        let r = Table { names: Vec::new(), values: Vec::new() };
        assert(r@ =~= Map::<Seq<char>, V::V>::empty());
        assert(r.order() =~= Seq::<Seq<char>>::empty());
        r
    }

    /// The number of entries.
    pub fn len(&self) -> (r: usize)
        requires
            self.wf(),
        ensures
            r == self.order().len(),
    {
        self.names.len()
    }

    /// Place of the entry under `name`.
    pub fn position(&self, name: &str) -> (r: Option<usize>)
        requires
            self.wf(),
        ensures
            match r {
                Some(i) => i < self.order().len() && self.order()[i as int] == name@
                    && self@.contains_key(name@),
                None => !self@.contains_key(name@) && !self.order().contains(name@),
            },
    {
        let mut i: usize = 0;
        while i < self.names.len()
            invariant
                self.wf(),
                i <= self.names.len(),
                forall|j: int| 0 <= j < i ==> views(self.names@)[j] != name@,
            decreases self.names.len() - i,
        {
            if same_text(self.names[i].as_str(), name) {
                proof {
                    self.lemma_at(i as int);
                }
                return Some(i);
            }
            i += 1;
        }
        None
    }

    /// Whether there is an entry under `name`.
    pub fn contains_key(&self, name: &str) -> (r: bool)
        requires
            self.wf(),
        ensures
            r == self@.contains_key(name@),
    {
        self.position(name).is_some()
    }

    /// The name of the entry at place `i`.
    pub fn name_at(&self, i: usize) -> (r: &String)
        requires
            self.wf(),
            i < self.order().len(),
        ensures
            r@ == self.order()[i as int],
            self@.contains_key(r@),
    {
        proof {
            self.lemma_at(i as int);
        }
        &self.names[i]
    }

    /// The value of the entry at place `i`.
    pub fn value_at(&self, i: usize) -> (r: &V)
        requires
            self.wf(),
            i < self.order().len(),
        ensures
            self@.contains_key(self.order()[i as int]),
            r@ == self@[self.order()[i as int]],
    {
        proof {
            self.lemma_at(i as int);
        }
        &self.values[i]
    }

    /// The value under `name`.
    pub fn get(&self, name: &str) -> (r: Option<&V>)
        requires
            self.wf(),
        ensures
            match r {
                Some(v) => self@.contains_key(name@) && v@ == self@[name@],
                None => !self@.contains_key(name@),
            },
    {
        match self.position(name) {
            Some(i) => Some(self.value_at(i)),
            None => None,
        }
    }

    /// Puts `value` under `name`. An entry under that name keeps its place and
    /// gets the new value; a new name goes to the end.
    pub fn insert(&mut self, name: String, value: V)
        requires
            old(self).wf(),
        ensures
            final(self).wf(),
            final(self)@ == old(self)@.insert(name@, value@),
            final(self).order() == if old(self)@.contains_key(name@) {
                old(self).order()
            } else {
                old(self).order().push(name@)
            },
    {
        let ghost before = *self;
        let ghost goal = before@.insert(name@, value@);
        match self.position(name.as_str()) {
            Some(i) => {
                self.values[i] = value;
                assert(self.names == before.names);
                assert forall|k: Seq<char>| #[trigger] goal.contains_key(k) implies self@[k]
                    == goal[k] by {
                    let j = views(self.names@).index_of(k);
                    before.lemma_at(j);
                    before.lemma_at(i as int);
                }
            },
            None => {
                let ghost key = name@;
                self.names.push(name);
                self.values.push(value);
                let ghost n = before.names.len() as int;
                assert(views(self.names@) =~= views(before.names@).push(key));
                assert forall|k: Seq<char>| #[trigger] goal.contains_key(k) implies self@[k]
                    == goal[k] && self@.contains_key(k) by {
                    if k == key {
                        assert(views(self.names@)[n] == k);
                    } else {
                        let j0 = views(before.names@).index_of(k);
                        assert(views(self.names@)[j0] == k);
                    }
                    let j = views(self.names@).index_of(k);
                    if j < n {
                        assert(views(before.names@)[j] == k);
                        before.lemma_at(j);
                    }
                }
            },
        }
        assert(self@ =~= goal);
    }

    /// Takes the entry under `name` out and hands its value back.
    pub fn remove(&mut self, name: &str) -> (r: Option<V>)
        requires
            old(self).wf(),
        ensures
            final(self).wf(),
            final(self)@ == old(self)@.remove(name@),
            final(self).order() == old(self).order().remove_value(name@),
            match r {
                Some(v) => old(self)@.contains_key(name@) && v@ == old(self)@[name@],
                None => !old(self)@.contains_key(name@),
            },
    {
        let ghost before = *self;
        let ghost goal = before@.remove(name@);
        let ghost names = views(before.names@);
        match self.position(name) {
            None => {
                assert(self@ =~= goal);
                proof {
                    names.index_of_first_ensures(name@);
                }
                None
            },
            Some(i) => {
                proof {
                    before.lemma_at(i as int);
                    names.index_of_first_ensures(name@);
                    assert(names.index_of_first(name@) == Some(i as int));
                }
                self.names.remove(i);
                let v = self.values.remove(i);
                assert(views(self.names@) =~= names.remove(i as int));
                assert(names.remove(i as int) =~= names.remove_value(name@));
                assert forall|a: int, b: int|
                    0 <= a < b < self.names.len() implies views(self.names@)[a] != views(
                    self.names@,
                )[b] by {
                    let a0 = if a < i { a } else { a + 1 };
                    let b0 = if b < i { b } else { b + 1 };
                    assert(views(self.names@)[a] == names[a0]);
                    assert(views(self.names@)[b] == names[b0]);
                }
                assert forall|k: Seq<char>| #[trigger] goal.contains_key(k) implies self@[k]
                    == goal[k] && self@.contains_key(k) by {
                    let j0 = names.index_of(k);
                    before.lemma_at(j0);
                    let j1 = if j0 < i { j0 } else { j0 - 1 };
                    assert(views(self.names@)[j1] == k);
                    let j = views(self.names@).index_of(k);
                    let jb = if j < i { j } else { j + 1 };
                    assert(names[jb] == k);
                }
                assert forall|k: Seq<char>| #[trigger] self@.contains_key(k) implies goal.contains_key(k) by {
                    let j = views(self.names@).index_of(k);
                    let jb = if j < i { j } else { j + 1 };
                    assert(names[jb] == k);
                }
                assert(self@ =~= goal);
                Some(v)
            },
        }
    }
}

} // verus!
