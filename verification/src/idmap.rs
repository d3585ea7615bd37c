//! Maps keyed by identifier names, in insertion order.

use vstd::prelude::*;
use crate::il::Id;
use crate::span::Span;
use crate::assoc::{assoc_map, keys_unique, lemma_assoc_dom, lemma_assoc_index, lemma_assoc_update, lemma_assoc_push, lemma_assoc_remove};

verus! {

/// The names and value views of a list of entries.
pub open spec fn idmap_entries<V: View>(s: Seq<(Id, V)>) -> Seq<(Seq<char>, V::V)> {
    Seq::new(s.len(), |i: int| (s[i].0@, s[i].1@))
}

/// The position of an entry named `n`.
pub open spec fn key_index<V>(s: Seq<(Id, V)>, n: Seq<char>) -> int {
    choose|i: int| 0 <= i < s.len() && s[i].0@ == n
}

/// A map keyed by identifier names; each name occurs at most once.
pub struct IdMap<V> {
    pub entries: Vec<(Id, V)>,
}

impl<V: View> View for IdMap<V> {
    type V = Map<Seq<char>, V::V>;

    open spec fn view(&self) -> Map<Seq<char>, V::V> {
        assoc_map(idmap_entries(self.entries@))
    }
}

impl<V: View> IdMap<V> {
    /// No name occurs twice.
    pub open spec fn wf(&self) -> bool {
        keys_unique(idmap_entries(self.entries@))
    }

    pub fn new() -> (m: Self)
        ensures
            m.wf(),
            m@ == Map::<Seq<char>, V::V>::empty(),
            m.entries@.len() == 0,
    {
        let m = IdMap { entries: Vec::new() };
        assert(idmap_entries(m.entries@) =~= Seq::<(Seq<char>, V::V)>::empty());
        m
    }

    /// The position of the entry named like `id`.
    pub fn find(&self, id: &Id) -> (r: Option<usize>)
        requires
            self.wf(),
        ensures
            match r {
                Some(i) => i < self.entries@.len() && self.entries@[i as int].0@ == id@,
                None => !self@.contains_key(id@),
            },
            r is Some <==> self@.contains_key(id@),
    {
        for i in 0..self.entries.len()
            invariant
                forall|j: int| 0 <= j < i ==> self.entries@[j].0@ != id@,
        {
            if self.entries[i].0.node == id.node {
                proof {
                    lemma_assoc_dom(idmap_entries(self.entries@));
                    assert(idmap_entries(self.entries@)[i as int].0 == id@);
                }
                return Some(i);
            }
        }
        proof {
            lemma_assoc_dom(idmap_entries(self.entries@));
            assert forall|j: int| 0 <= j < idmap_entries(self.entries@).len() implies
                idmap_entries(self.entries@)[j].0 != id@ by {}
        }
        None
    }

    /// The location of the identifier under which the name `n` is bound.
    pub open spec fn key_span(&self, n: Seq<char>) -> Span {
        self.entries@[key_index(self.entries@, n)].0.span
    }

    proof fn lemma_key_span(&self, i: int)
        requires
            self.wf(),
            0 <= i < self.entries@.len(),
        ensures
            self.key_span(self.entries@[i].0@) == self.entries@[i].0.span,
    {
        let n = self.entries@[i].0@;
        assert(exists|k: int| 0 <= k < self.entries@.len() && self.entries@[k].0@ == n);
        let j = key_index(self.entries@, n);
        assert(0 <= j < self.entries@.len() && self.entries@[j].0@ == n);
        let e = idmap_entries(self.entries@);
        assert(e[i].0 == n);
        assert(e[j].0 == n);
        if i < j {
            assert(e[i].0 != e[j].0);
        } else if j < i {
            assert(e[j].0 != e[i].0);
        }
    }

    /// The identifier under which `id`'s name is bound, and its value.
    pub fn get_key_value(&self, id: &Id) -> (r: Option<(&Id, &V)>)
        requires
            self.wf(),
        ensures
            match r {
                Some((k, v)) => self@.contains_key(id@) && k@ == id@ && k.span == self.key_span(id@) && self@[id@] == v@,
                None => !self@.contains_key(id@),
            },
    {
        match self.find(id) {
            Some(i) => {
                proof {
                    lemma_assoc_index(idmap_entries(self.entries@), i as int);
                    self.lemma_key_span(i as int);
                }
                Some((&self.entries[i].0, &self.entries[i].1))
            },
            None => None,
        }
    }

    /// Removes the binding of `id`'s name, returning the identifier it was
    /// bound under and its value.
    pub fn remove_entry(&mut self, id: &Id) -> (r: Option<(Id, V)>)
        requires
            old(self).wf(),
        ensures
            final(self).wf(),
            final(self)@ == old(self)@.remove(id@),
            match r {
                Some((k, v)) => old(self)@.contains_key(id@) && k@ == id@ && k.span == old(self).key_span(id@) && old(self)@[id@] == v@,
                None => !old(self)@.contains_key(id@),
            },
    {
        match self.find(id) {
            Some(i) => {
                let ghost s = idmap_entries(self.entries@);
                proof {
                    lemma_assoc_index(s, i as int);
                    self.lemma_key_span(i as int);
                    lemma_assoc_remove(s, i as int);
                }
                let (k, v) = self.entries.remove(i);
                proof {
                    assert(idmap_entries(self.entries@) =~= s.remove(i as int));
                }
                Some((k, v))
            },
            None => {
                proof {
                    assert(self@.remove(id@) =~= self@);
                }
                None
            },
        }
    }

    pub fn contains_key(&self, id: &Id) -> (b: bool)
        requires
            self.wf(),
        ensures
            b == self@.contains_key(id@),
    {
        self.find(id).is_some()
    }

    /// The value of `id`, if bound.
    pub fn get(&self, id: &Id) -> (r: Option<&V>)
        requires
            self.wf(),
        ensures
            match r {
                Some(v) => self@.contains_key(id@) && self@[id@] == v@,
                None => !self@.contains_key(id@),
            },
    {
        match self.find(id) {
            Some(i) => {
                proof {
                    lemma_assoc_index(idmap_entries(self.entries@), i as int);
                }
                Some(&self.entries[i].1)
            },
            None => None,
        }
    }

    /// Binds `id` to `v`, replacing an earlier binding of the same name in place.
    pub fn insert(&mut self, id: Id, v: V)
        requires
            old(self).wf(),
        ensures
            final(self).wf(),
            final(self)@ == old(self)@.insert(id@, v@),
            !old(self)@.contains_key(id@) ==> final(self).key_span(id@) == id.span,
    {
        let ghost sp = id.span;
        let ghost n = id@;
        match self.find(&id) {
            Some(i) => {
                let ghost s = idmap_entries(self.entries@);
                let ghost w = v@;
                self.entries.set(i, (id, v));
                proof {
                    lemma_assoc_update(s, i as int, w);
                    assert(idmap_entries(self.entries@) =~= s.update(i as int, (s[i as int].0, w)));
                }
            },
            None => {
                let ghost s = idmap_entries(self.entries@);
                let ghost k = id@;
                let ghost w = v@;
                self.entries.push((id, v));
                proof {
                    lemma_assoc_push(s, k, w);
                    assert(idmap_entries(self.entries@) =~= s.push((k, w)));
                    self.lemma_key_span(self.entries@.len() - 1);
                }
            },
        }
    }
}

} // verus!
