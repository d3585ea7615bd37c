//! Sets of identifiers compared by name.

use vstd::prelude::*;
use crate::il::Id;
use crate::il_typ::clone_id;

verus! {

/// A set of identifiers compared by name, in insertion order.
pub struct IdSet {
    pub ids: Vec<Id>,
}

/// The names of a list of identifiers.
pub open spec fn ids_set(s: Seq<Id>) -> Set<Seq<char>> {
    Set::new(|k: Seq<char>| exists|i: int| 0 <= i < s.len() && s[i]@ == k)
}

impl View for IdSet {
    type V = Set<Seq<char>>;

    open spec fn view(&self) -> Set<Seq<char>> {
        ids_set(self.ids@)
    }
}

pub proof fn lemma_ids_set_push(s: Seq<Id>, id: Id)
    ensures
        ids_set(s.push(id)) == ids_set(s).insert(id@),
{
    assert forall|k: Seq<char>| ids_set(s.push(id)).contains(k) <==> ids_set(s).insert(id@).contains(k) by {
        if ids_set(s.push(id)).contains(k) {
            let i = choose|i: int| 0 <= i < s.push(id).len() && s.push(id)[i]@ == k;
            if i < s.len() {
                assert(s[i]@ == k);
            }
        }
        if ids_set(s).contains(k) {
            let i = choose|i: int| 0 <= i < s.len() && s[i]@ == k;
            assert(s.push(id)[i]@ == k);
        }
        if k == id@ {
            assert(s.push(id)[s.len() as int]@ == k);
        }
    }
    assert(ids_set(s.push(id)) =~= ids_set(s).insert(id@));
}

impl IdSet {
    pub fn new() -> (s: IdSet)
        ensures
            s@ == Set::<Seq<char>>::empty(),
            s.ids@.len() == 0,
    {
        let s = IdSet { ids: Vec::new() };
        assert(s@ =~= Set::<Seq<char>>::empty());
        s
    }

    pub fn contains(&self, id: &Id) -> (b: bool)
        ensures
            b == self@.contains(id@),
    {
        for i in 0..self.ids.len()
            invariant
                forall|j: int| 0 <= j < i ==> self.ids@[j]@ != id@,
        {
            if self.ids[i].node == id.node {
                return true;
            }
        }
        false
    }

    /// Adds a name; an identifier already present by name is kept as it was.
    pub fn insert(&mut self, id: Id)
        ensures
            final(self)@ == old(self)@.insert(id@),
    {
        if !self.contains(&id) {
            let ghost s = self.ids@;
            self.ids.push(id);
            proof {
                lemma_ids_set_push(s, self.ids@.last());
                assert(self.ids@ =~= s.push(self.ids@.last()));
            }
        } else {
            assert(old(self)@.insert(id@) =~= old(self)@);
        }
    }

    /// Adds every name of `other`.
    pub fn insert_all(&mut self, other: &IdSet)
        ensures
            final(self)@ == old(self)@.union(other@),
    {
        for i in 0..other.ids.len()
            invariant
                self@ == old(self)@.union(ids_set(other.ids@.take(i as int))),
        {
            proof {
                assert(other.ids@.take(i + 1) =~= other.ids@.take(i as int).push(other.ids@[i as int]));
                lemma_ids_set_push(other.ids@.take(i as int), other.ids@[i as int]);
            }
            self.insert(clone_id(&other.ids[i]));
            assert(self@ =~= old(self)@.union(ids_set(other.ids@.take(i + 1))));
        }
        assert(other.ids@.take(other.ids@.len() as int) =~= other.ids@);
    }

    /// Copies a set.
    pub fn clone_set(&self) -> (s: IdSet)
        ensures
            s@ == self@,
            s.ids@ == self.ids@,
    {
        let mut ids: Vec<Id> = Vec::new();
        for i in 0..self.ids.len()
            invariant
                ids@ == self.ids@.take(i as int),
        {
            ids.push(clone_id(&self.ids[i]));
            assert(ids@ =~= self.ids@.take(i + 1));
        }
        assert(ids@ =~= self.ids@);
        IdSet { ids }
    }
}

} // verus!
