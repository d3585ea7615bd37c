//! Dimensions of variables and variable environments.

use vstd::prelude::*;
use crate::il::{Id, Iter, Typ, TypV, typ_view};
use crate::il_typ::{clone_id, clone_typ};
use crate::ids::IdSet;
use crate::assoc::{assoc_map, assoc_keys, keys_unique, lemma_assoc_dom, lemma_assoc_index, lemma_assoc_update, lemma_assoc_push};

verus! {

/// The type of a variable and the iterations it occurs under, innermost first.
pub struct Dim {
    pub typ: Typ,
    pub iters: Vec<Iter>,
}

/// A dimension without locations.
pub struct DimV {
    pub typ: TypV,
    pub iters: Seq<Iter>,
}

impl View for Dim {
    type V = DimV;

    open spec fn view(&self) -> DimV {
        DimV { typ: typ_view(self.typ), iters: self.iters@ }
    }
}

/// `a` is no deeper than `b`: the iterations of `a` are an innermost prefix of those of `b`.
pub open spec fn dim_sub(a: DimV, b: DimV) -> bool {
    a.iters.len() <= b.iters.len() && a.iters == b.iters.take(a.iters.len() as int)
}

/// `d` under one more enclosing iteration.
pub open spec fn dim_add_iter(d: DimV, iter: Iter) -> DimV {
    DimV { typ: d.typ, iters: d.iters.push(iter) }
}

impl Dim {
    pub fn new(typ: Typ, iters: Vec<Iter>) -> (d: Dim)
        ensures
            d.typ == typ,
            d.iters == iters,
    {
        Dim { typ, iters }
    }

    /// Copies a dimension.
    pub fn clone_dim(&self) -> (d: Dim)
        ensures
            d@ == self@,
    {
        Dim { typ: clone_typ(&self.typ), iters: self.iters.clone() }
    }

    /// Whether this dimension is no deeper than `other`.
    pub fn sub(&self, other: &Dim) -> (b: bool)
        ensures
            b == dim_sub(self@, other@),
    {
        if self.iters.len() > other.iters.len() {
            return false;
        }
        for i in 0..self.iters.len()
            invariant
                self.iters.len() <= other.iters.len(),
                forall|j: int| 0 <= j < i ==> self.iters@[j] == other.iters@[j],
        {
            if self.iters[i] != other.iters[i] {
                assert(self.iters@[i as int] != other.iters@.take(self.iters@.len() as int)[i as int]);
                return false;
            }
        }
        assert(self.iters@ =~= other.iters@.take(self.iters@.len() as int));
        true
    }

    /// This dimension under one more enclosing iteration.
    pub fn add_iter(self, iter: Iter) -> (d: Dim)
        ensures
            d@ == dim_add_iter(self@, iter),
    {
        let mut iters = self.iters;
        iters.push(iter);
        Dim { typ: self.typ, iters }
    }
}

/// The names and dimensions of an environment's entries, in order.
pub open spec fn venv_entries(s: Seq<(Id, Dim)>) -> Seq<(Seq<char>, DimV)> {
    Seq::new(s.len(), |i: int| (s[i].0@, s[i].1@))
}

/// Variables with their dimensions, each name at most once, in insertion order.
pub struct VEnv {
    pub entries: Vec<(Id, Dim)>,
}

impl View for VEnv {
    type V = Map<Seq<char>, DimV>;

    open spec fn view(&self) -> Map<Seq<char>, DimV> {
        assoc_map(venv_entries(self.entries@))
    }
}

impl VEnv {
    /// No name occurs twice.
    pub open spec fn wf(&self) -> bool {
        keys_unique(venv_entries(self.entries@))
    }

    pub fn new() -> (v: VEnv)
        ensures
            v.wf(),
            v@ == Map::<Seq<char>, DimV>::empty(),
            v.entries@.len() == 0,
    {
        let v = VEnv { entries: Vec::new() };
        assert(venv_entries(v.entries@) =~= Seq::empty());
        v
    }

    /// The position of the entry named like `id`.
    pub fn find(&self, id: &Id) -> (r: Option<usize>)
        requires
            self.wf(),
        ensures
            match r {
                Some(i) => i < self.entries@.len() && self.entries@[i as int].0@ == id@,
                None => !self@.contains_key(id@),
            },
            r is Some <==> self@.contains_key(id@),
    {
        proof {
            lemma_assoc_dom(venv_entries(self.entries@));
        }
        for i in 0..self.entries.len()
            invariant
                forall|j: int| 0 <= j < i ==> self.entries@[j].0@ != id@,
        {
            if self.entries[i].0.node == id.node {
                proof {
                    lemma_assoc_dom(venv_entries(self.entries@));
                    assert(venv_entries(self.entries@)[i as int].0 == id@);
                    assert(self@.contains_key(id@));
                }
                return Some(i);
            }
        }
        proof {
            assert forall|j: int| 0 <= j < venv_entries(self.entries@).len() implies
                venv_entries(self.entries@)[j].0 != id@ by {}
        }
        None
    }

    pub fn contains_key(&self, id: &Id) -> (b: bool)
        requires
            self.wf(),
        ensures
            b == self@.contains_key(id@),
    {
        self.find(id).is_some()
    }

    /// The dimension of `id`, if bound.
    pub fn get(&self, id: &Id) -> (r: Option<&Dim>)
        requires
            self.wf(),
        ensures
            match r {
                Some(d) => self@.contains_key(id@) && self@[id@] == d@,
                None => !self@.contains_key(id@),
            },
    {
        match self.find(id) {
            Some(i) => {
                proof {
                    lemma_assoc_index(venv_entries(self.entries@), i as int);
                }
                Some(&self.entries[i].1)
            },
            None => None,
        }
    }

    /// Binds `id` to `dim`, replacing an earlier binding of the same name in place.
    pub fn insert(&mut self, id: Id, dim: Dim)
        requires
            old(self).wf(),
        ensures
            final(self).wf(),
            final(self)@ == old(self)@.insert(id@, dim@),
            !old(self)@.contains_key(id@) ==> final(self).entries@ == old(self).entries@.push((id, dim)),
            old(self)@.contains_key(id@) ==> final(self).entries@.len() == old(self).entries@.len(),
            old(self)@.contains_key(id@) ==> assoc_keys(venv_entries(final(self).entries@)) == assoc_keys(venv_entries(old(self).entries@)),
            old(self)@.contains_key(id@) ==> exists|i: int| 0 <= i < old(self).entries@.len() && old(self).entries@[i].0@ == id@
                && final(self).entries@ == old(self).entries@.update(i, (id, dim)),
    {
        match self.find(&id) {
            Some(i) => {
                let ghost s = venv_entries(self.entries@);
                let ghost k = id@;
                let ghost w = dim@;
                self.entries.set(i, (id, dim));
                proof {
                    lemma_assoc_update(s, i as int, w);
                    assert(venv_entries(self.entries@) =~= s.update(i as int, (s[i as int].0, w)));
                    assert(assoc_keys(venv_entries(self.entries@)) =~= assoc_keys(s));
                }
            },
            None => {
                let ghost s = venv_entries(self.entries@);
                let ghost k = id@;
                let ghost w = dim@;
                self.entries.push((id, dim));
                proof {
                    lemma_assoc_push(s, k, w);
                    assert(venv_entries(self.entries@) =~= s.push((k, w)));
                }
            },
        }
    }

    /// The bound names.
    pub fn domain(&self) -> (d: IdSet)
        requires
            self.wf(),
        ensures
            d@ == self@.dom(),
    {
        let mut d = IdSet::new();
        proof {
            lemma_assoc_dom(venv_entries(self.entries@));
        }
        for i in 0..self.entries.len()
            invariant
                d@ == Set::new(|k: Seq<char>| exists|j: int| 0 <= j < i && venv_entries(self.entries@)[j].0 == k),
        {
            let ghost before = d@;
            d.insert(clone_id(&self.entries[i].0));
            proof {
                assert(d@ =~= Set::new(|k: Seq<char>| exists|j: int| 0 <= j < i + 1 && venv_entries(self.entries@)[j].0 == k)) by {
                    assert(venv_entries(self.entries@)[i as int].0 == self.entries@[i as int].0@);
                    assert forall|k: Seq<char>| (exists|j: int| 0 <= j < i + 1 && venv_entries(self.entries@)[j].0 == k)
                        implies d@.contains(k) by {
                        let j = choose|j: int| 0 <= j < i + 1 && venv_entries(self.entries@)[j].0 == k;
                        if j < i {
                            assert(before.contains(k));
                        }
                    }
                }
            }
        }
        proof {
            assert(d@ =~= self@.dom()) by {
                lemma_assoc_dom(venv_entries(self.entries@));
            }
        }
        d
    }

    /// The number of bound names.
    pub fn len(&self) -> (n: usize)
        ensures
            n == self.entries@.len(),
    {
        self.entries.len()
    }

    /// Copies an environment.
    pub fn clone_venv(&self) -> (v: VEnv)
        requires
            self.wf(),
        ensures
            v.wf(),
            v@ == self@,
            venv_entries(v.entries@) == venv_entries(self.entries@),
    {
        let mut entries: Vec<(Id, Dim)> = Vec::new();
        for i in 0..self.entries.len()
            invariant
                entries@.len() == i,
                forall|j: int| 0 <= j < i ==> entries@[j].0@ == self.entries@[j].0@ && entries@[j].1@ == self.entries@[j].1@,
        {
            let e = (clone_id(&self.entries[i].0), self.entries[i].1.clone_dim());
            entries.push(e);
        }
        assert(venv_entries(entries@) =~= venv_entries(self.entries@));
        VEnv { entries }
    }
}

} // verus!
