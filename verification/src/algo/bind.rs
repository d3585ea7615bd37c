//! Singular and repeated identifier bindings.

use vstd::prelude::*;
use crate::span::Span;
use crate::il::{Id, Iter, Typ};
use crate::il_typ::clone_id;
use crate::assoc::{assoc_map, assoc_map_values, lemma_assoc_map_values, keys_unique, lemma_assoc_dom, lemma_assoc_index, lemma_assoc_update, lemma_assoc_push};
use crate::algo::dim::{Dim, DimV, VEnv, dim_sub, dim_add_iter, venv_entries};
use crate::algo::error::{AlgoError, AlgoErrorKind};

verus! {

/// One binding occurrence or multiple parallel occurrences.
pub enum Binding {
    Single(Dim),
    Multiple(Dim),
}

/// A binding without locations.
pub enum BindingV {
    Single(DimV),
    Multiple(DimV),
}

impl View for Binding {
    type V = BindingV;

    open spec fn view(&self) -> BindingV {
        match self {
            Binding::Single(d) => BindingV::Single(d@),
            Binding::Multiple(d) => BindingV::Multiple(d@),
        }
    }
}

/// The dimension of a binding.
pub open spec fn binding_dim(b: BindingV) -> DimV {
    match b {
        BindingV::Single(d) => d,
        BindingV::Multiple(d) => d,
    }
}

/// A binding under one more enclosing iteration.
pub open spec fn binding_add_iter(b: BindingV, iter: Iter) -> BindingV {
    match b {
        BindingV::Single(d) => BindingV::Single(dim_add_iter(d, iter)),
        BindingV::Multiple(d) => BindingV::Multiple(dim_add_iter(d, iter)),
    }
}

impl Binding {
    pub fn dim(&self) -> (d: &Dim)
        ensures
            d@ == binding_dim(self@),
    {
        match self {
            Binding::Single(dim) => dim,
            Binding::Multiple(dim) => dim,
        }
    }

    pub fn add_iter(self, iter: Iter) -> (b: Binding)
        ensures
            b@ == binding_add_iter(self@, iter),
    {
        match self {
            Binding::Single(dim) => Binding::Single(dim.add_iter(iter)),
            Binding::Multiple(dim) => Binding::Multiple(dim.add_iter(iter)),
        }
    }

    /// Copies a binding.
    pub fn clone_binding(&self) -> (b: Binding)
        ensures
            b@ == self@,
    {
        match self {
            Binding::Single(dim) => Binding::Single(dim.clone_dim()),
            Binding::Multiple(dim) => Binding::Multiple(dim.clone_dim()),
        }
    }
}

/// The names and bindings of an environment's entries, in order.
pub open spec fn benv_entries(s: Seq<(Id, Binding)>) -> Seq<(Seq<char>, BindingV)> {
    Seq::new(s.len(), |i: int| (s[i].0@, s[i].1@))
}

/// Two bindings of one name whose dimensions differ.
pub open spec fn benv_conflict(l: Map<Seq<char>, BindingV>, r: Map<Seq<char>, BindingV>, k: Seq<char>) -> bool {
    l.contains_key(k) && r.contains_key(k) && binding_dim(l[k]).iters != binding_dim(r[k]).iters
}

/// Parallel combination: names bound on both sides become multiple bindings.
pub open spec fn benv_union(l: Map<Seq<char>, BindingV>, r: Map<Seq<char>, BindingV>) -> Map<Seq<char>, BindingV> {
    Map::new(
        |k: Seq<char>| l.contains_key(k) || r.contains_key(k),
        |k: Seq<char>|
            if l.contains_key(k) && r.contains_key(k) {
                BindingV::Multiple(binding_dim(l[k]))
            } else if l.contains_key(k) {
                l[k]
            } else {
                r[k]
            },
    )
}

/// The entries of an environment: their keys, with locations, and their
/// bindings.
pub open spec fn benv_seq(s: Seq<(Id, Binding)>) -> Seq<(Id, BindingV)> {
    Seq::new(s.len(), |i: int| (s[i].0, s[i].1@))
}

/// Entries under one more enclosing iteration.
pub open spec fn seq_add_iter(s: Seq<(Id, BindingV)>, iter: Iter) -> Seq<(Id, BindingV)> {
    Seq::new(s.len(), |i: int| (s[i].0, binding_add_iter(s[i].1, iter)))
}

/// The position of the entry named `n` in `s`, or -1.
pub open spec fn name_index(s: Seq<(Id, BindingV)>, n: Seq<char>) -> int {
    if exists|i: int| 0 <= i < s.len() && (#[trigger] s[i]).0@ == n {
        choose|i: int| 0 <= i < s.len() && (#[trigger] s[i]).0@ == n
    } else {
        -1
    }
}

/// In entries whose names are distinct, the entry named like the `j`-th is
/// the `j`-th.
pub proof fn lemma_name_index(s: Seq<(Id, BindingV)>, n: Seq<char>, j: int)
    requires
        0 <= j < s.len(),
        s[j].0@ == n,
        forall|a: int, b: int| 0 <= a < b < s.len() ==> (#[trigger] s[a]).0@ != (#[trigger] s[b]).0@,
    ensures
        name_index(s, n) == j,
{
    assert(exists|i: int| 0 <= i < s.len() && (#[trigger] s[i]).0@ == n);
    let i = choose|i: int| 0 <= i < s.len() && (#[trigger] s[i]).0@ == n;
    if i < j {
        assert(s[i].0@ != s[j].0@);
    } else if i > j {
        assert(s[j].0@ != s[i].0@);
    }
}

/// Adds the entry `en` of the other side to the combined entries `acc`: a
/// new name is appended; a name already there becomes a multiple binding,
/// keeping its stored key, or fails at that key when the dimensions differ.
pub open spec fn union_step(acc: Seq<(Id, BindingV)>, en: (Id, BindingV)) -> Result<Seq<(Id, BindingV)>, AlgoError> {
    let j = name_index(acc, en.0@);
    if j < 0 {
        Ok(acc.push(en))
    } else if binding_dim(acc[j].1).iters != binding_dim(en.1).iters {
        Err(AlgoError::new_spec(AlgoErrorKind::InconsistentDimensions, acc[j].0.span))
    } else {
        Ok(acc.update(j, (acc[j].0, BindingV::Multiple(binding_dim(acc[j].1)))))
    }
}

/// The entries of `ls` combined with those of `rs`, taken in order.
pub open spec fn entries_union(ls: Seq<(Id, BindingV)>, rs: Seq<(Id, BindingV)>) -> Result<Seq<(Id, BindingV)>, AlgoError>
    decreases rs.len(),
{
    if rs.len() == 0 {
        Ok(ls)
    } else {
        match entries_union(ls, rs.drop_last()) {
            Ok(acc) => union_step(acc, rs.last()),
            Err(e) => Err(e),
        }
    }
}

/// Binding environment keyed by identifier names, in insertion order.
pub struct BEnv {
    pub entries: Vec<(Id, Binding)>,
}

impl View for BEnv {
    type V = Map<Seq<char>, BindingV>;

    open spec fn view(&self) -> Map<Seq<char>, BindingV> {
        assoc_map(benv_entries(self.entries@))
    }
}

/// Once combining a prefix of the other side's entries fails, combining
/// more of them fails the same way.
pub proof fn lemma_entries_union_err(ls: Seq<(Id, BindingV)>, rs: Seq<(Id, BindingV)>, k: int)
    requires
        0 <= k <= rs.len(),
        entries_union(ls, rs.take(k)) is Err,
    ensures
        entries_union(ls, rs) == entries_union(ls, rs.take(k)),
    decreases rs.len() - k,
{
    if k < rs.len() {
        assert(rs.take(k + 1).drop_last() =~= rs.take(k));
        lemma_entries_union_err(ls, rs, k + 1);
    } else {
        assert(rs.take(k) =~= rs);
    }
}

/// No two entries share a name.
pub open spec fn entries_distinct(s: Seq<(Id, BindingV)>) -> bool {
    forall|a: int, b: int| 0 <= a < b < s.len() ==> (#[trigger] s[a]).0@ != (#[trigger] s[b]).0@
}

/// Combining keeps the names of the left side distinct.
pub proof fn lemma_entries_union_distinct(ls: Seq<(Id, BindingV)>, rs: Seq<(Id, BindingV)>)
    requires
        entries_distinct(ls),
    ensures
        entries_union(ls, rs) matches Ok(s) ==> entries_distinct(s),
    decreases rs.len(),
{
    if rs.len() > 0 {
        lemma_entries_union_distinct(ls, rs.drop_last());
        if let Ok(acc) = entries_union(ls, rs.drop_last()) {
            let en = rs.last();
            let j = name_index(acc, en.0@);
            if j < 0 {
                assert(!exists|i: int| 0 <= i < acc.len() && (#[trigger] acc[i]).0@ == en.0@);
                let s2 = acc.push(en);
                assert forall|a: int, b: int| 0 <= a < b < s2.len() implies (#[trigger] s2[a]).0@ != (#[trigger] s2[b]).0@ by {
                    if b == acc.len() {
                        assert(s2[a] == acc[a]);
                    } else {
                        assert(s2[a] == acc[a] && s2[b] == acc[b]);
                    }
                }
            } else if binding_dim(acc[j].1).iters == binding_dim(en.1).iters {
                assert(exists|i: int| 0 <= i < acc.len() && (#[trigger] acc[i]).0@ == en.0@);
                let s2 = acc.update(j, (acc[j].0, BindingV::Multiple(binding_dim(acc[j].1))));
                assert forall|a: int, b: int| 0 <= a < b < s2.len() implies (#[trigger] s2[a]).0@ != (#[trigger] s2[b]).0@ by {
                    assert(s2[a].0 == acc[a].0 && s2[b].0 == acc[b].0);
                }
            }
        }
    }
}

/// Combining nothing with entries of distinct names gives them back.
pub proof fn lemma_entries_union_empty_left(rs: Seq<(Id, BindingV)>)
    requires
        entries_distinct(rs),
    ensures
        entries_union(Seq::empty(), rs) == Ok::<Seq<(Id, BindingV)>, AlgoError>(rs),
    decreases rs.len(),
{
    if rs.len() > 0 {
        let d = rs.drop_last();
        assert forall|a: int, b: int| 0 <= a < b < d.len() implies (#[trigger] d[a]).0@ != (#[trigger] d[b]).0@ by {
            assert(d[a] == rs[a] && d[b] == rs[b]);
        }
        lemma_entries_union_empty_left(d);
        let en = rs.last();
        assert(!exists|i: int| 0 <= i < d.len() && (#[trigger] d[i]).0@ == en.0@) by {
            if exists|i: int| 0 <= i < d.len() && (#[trigger] d[i]).0@ == en.0@ {
                let i = choose|i: int| 0 <= i < d.len() && (#[trigger] d[i]).0@ == en.0@;
                assert(rs[i] == d[i]);
                assert(rs[i].0@ != rs[rs.len() - 1].0@);
            }
        }
        assert(d.push(en) =~= rs);
    } else {
        assert(rs =~= Seq::<(Id, BindingV)>::empty());
    }
}

impl BEnv {
    /// No name occurs twice.
    pub open spec fn wf(&self) -> bool {
        keys_unique(benv_entries(self.entries@))
    }

    pub fn new() -> (b: BEnv)
        ensures
            b.wf(),
            b@ == Map::<Seq<char>, BindingV>::empty(),
            b.entries@.len() == 0,
    {
        let b = BEnv { entries: Vec::new() };
        assert(benv_entries(b.entries@) =~= Seq::empty());
        b
    }

    /// The environment binding `id` once, at type `typ` and no iteration.
    pub fn singleton(id: Id, typ: Typ) -> (b: BEnv)
        ensures
            b.wf(),
            b@ == Map::<Seq<char>, BindingV>::empty().insert(
                id@,
                BindingV::Single(DimV { typ: typ@, iters: Seq::empty() }),
            ),
            b.entries@.len() == 1,
            b.entries@[0].0 == id,
            benv_seq(b.entries@) == seq![(id, BindingV::Single(DimV { typ: typ@, iters: Seq::empty() }))],
    {
        let mut b = BEnv::new();
        let ghost k = id@;
        let dim = Dim::new(typ, Vec::new());
        let binding = Binding::Single(dim);
        let ghost w = binding@;
        b.entries.push((id, binding));
        proof {
            lemma_assoc_push(Seq::<(Seq<char>, BindingV)>::empty(), k, w);
            assert(benv_entries(b.entries@) =~= Seq::<(Seq<char>, BindingV)>::empty().push((k, w)));
            assert(benv_seq(b.entries@) =~= seq![(b.entries@[0].0, w)]);
        }
        b
    }

    pub fn is_empty(&self) -> (r: bool)
        requires
            self.wf(),
        ensures
            r == (self@ == Map::<Seq<char>, BindingV>::empty()),
            r == (self.entries@.len() == 0),
    {
        proof {
            lemma_assoc_dom(benv_entries(self.entries@));
            if self.entries@.len() > 0 {
                assert(benv_entries(self.entries@)[0].0 == self.entries@[0].0@);
                assert(self@.contains_key(self.entries@[0].0@));
            } else {
                assert(self@ =~= Map::<Seq<char>, BindingV>::empty());
            }
        }
        self.entries.len() == 0
    }

    /// The position of the entry named like `id`.
    fn find(&self, id: &Id) -> (r: Option<usize>)
        requires
            self.wf(),
        ensures
            match r {
                Some(i) => i < self.entries@.len() && self.entries@[i as int].0@ == id@,
                None => !self@.contains_key(id@),
            },
            r is Some <==> self@.contains_key(id@),
    {
        for i in 0..self.entries.len()
            invariant
                forall|j: int| 0 <= j < i ==> self.entries@[j].0@ != id@,
        {
            if self.entries[i].0.node == id.node {
                proof {
                    lemma_assoc_dom(benv_entries(self.entries@));
                    assert(benv_entries(self.entries@)[i as int].0 == id@);
                }
                return Some(i);
            }
        }
        proof {
            lemma_assoc_dom(benv_entries(self.entries@));
            assert forall|j: int| 0 <= j < benv_entries(self.entries@).len() implies
                benv_entries(self.entries@)[j].0 != id@ by {}
        }
        None
    }

    /// The entries, in insertion order.
    pub fn iter(&self) -> (r: &Vec<(Id, Binding)>)
        ensures
            r == &self.entries,
    {
        &self.entries
    }

    /// The dimensions of the bound names.
    pub fn flatten(&self) -> (v: VEnv)
        requires
            self.wf(),
        ensures
            v.wf(),
            v@ == self@.map_values(|b: BindingV| binding_dim(b)),
            v.entries@.len() == self.entries@.len(),
            forall|i: int| 0 <= i < v.entries@.len() ==> v.entries@[i].0 == self.entries@[i].0,
    {
        let mut entries: Vec<(Id, Dim)> = Vec::new();
        for i in 0..self.entries.len()
            invariant
                entries@.len() == i,
                forall|j: int| 0 <= j < i ==> entries@[j].0 == self.entries@[j].0 && entries@[j].1@ == binding_dim(self.entries@[j].1@),
        {
            let id = clone_id(&self.entries[i].0);
            entries.push((id, self.entries[i].1.dim().clone_dim()));
        }
        let v = VEnv { entries };
        proof {
            let s = benv_entries(self.entries@);
            let t = venv_entries(v.entries@);
            assert(t =~= assoc_map_values(s, |b: BindingV| binding_dim(b)));
            lemma_assoc_map_values(s, |b: BindingV| binding_dim(b));
        }
        v
    }

    /// Every binding under one more enclosing iteration.
    pub fn add_iter(self, iter: Iter) -> (b: BEnv)
        requires
            self.wf(),
        ensures
            b.wf(),
            b@ == self@.map_values(|x: BindingV| binding_add_iter(x, iter)),
            benv_seq(b.entries@) == seq_add_iter(benv_seq(self.entries@), iter),
    {
        let ghost s = benv_entries(self.entries@);
        let mut entries: Vec<(Id, Binding)> = Vec::new();
        let mut src = self.entries;
        let ghost orig = src@;
        let mut i: usize = 0;
        let n = src.len();
        while i < n
            invariant
                n == orig.len(),
                i <= n,
                entries@.len() == i,
                forall|j: int| 0 <= j < i ==> entries@[j].0 == orig[j].0 && entries@[j].1@ == binding_add_iter(orig[j].1@, iter),
                src@.len() == n,
                forall|j: int| 0 <= j < n ==> src@[j].0 == orig[j].0 && src@[j].1@ == orig[j].1@,
            decreases n - i,
        {
            let id = clone_id(&src[i].0);
            let binding = src[i].1.clone_binding().add_iter(iter);
            entries.push((id, binding));
            i = i + 1;
        }
        let b = BEnv { entries };
        proof {
            let f = |x: BindingV| binding_add_iter(x, iter);
            assert(benv_entries(b.entries@) =~= assoc_map_values(s, f));
            lemma_assoc_map_values(s, f);
            assert(benv_seq(b.entries@) =~= seq_add_iter(benv_seq(orig), iter));
        }
        b
    }

    /// Combines parallel bindings: a name bound on both sides becomes a multiple
    /// binding at the dimension of `self`, keeping the entry first stored in `self`.
    /// Fails at that stored entry's location when the two dimensions differ.
    #[verifier::loop_isolation(false)]
    pub fn union(self, other: BEnv) -> (r: Result<BEnv, AlgoError>)
        requires
            self.wf(),
            other.wf(),
        ensures
            r is Ok <==> !exists|k: Seq<char>| benv_conflict(self@, other@, k),
            r matches Ok(b) ==> b.wf() && b@ == benv_union(self@, other@),
            r matches Err(e) ==> e.kind == AlgoErrorKind::InconsistentDimensions && exists|i: int|
                0 <= i < self.entries@.len() && self.entries@[i].0.span == e.span
                    && benv_conflict(self@, other@, self.entries@[i].0@),
            r matches Err(e) ==> exists|i: int| 0 <= i < other.entries@.len()
                && benv_conflict(self@, other@, #[trigger] other.entries@[i].0@)
                && (forall|j: int| 0 <= j < i ==> !benv_conflict(self@, other@, #[trigger] other.entries@[j].0@))
                && exists|j: int| 0 <= j < self.entries@.len() && (#[trigger] self.entries@[j]).0@ == other.entries@[i].0@
                    && self.entries@[j].0.span == e.span,
            r matches Ok(b) ==> b.entries@.len() >= self.entries@.len()
                && forall|j: int| 0 <= j < self.entries@.len() ==> (#[trigger] b.entries@[j]).0 == self.entries@[j].0,
            match r {
                Ok(b) => entries_union(benv_seq(self.entries@), benv_seq(other.entries@)) == Ok::<Seq<(Id, BindingV)>, AlgoError>(benv_seq(b.entries@)),
                Err(e) => entries_union(benv_seq(self.entries@), benv_seq(other.entries@)) == Err::<Seq<(Id, BindingV)>, AlgoError>(e),
            },
    {
        let ghost l = self@;
        let ghost ls = self.entries@;
        let ghost os = benv_entries(other.entries@);
        let ghost r_all = other@;
        let ghost lsv = benv_seq(ls);
        let ghost osv = benv_seq(other.entries@);
        let mut acc = self;
        proof {
            lemma_assoc_dom(benv_entries(ls));
            assert(os.take(0) =~= Seq::<(Seq<char>, BindingV)>::empty());
            assert(assoc_map(os.take(0)) =~= Map::<Seq<char>, BindingV>::empty());
            assert(benv_union(l, assoc_map(os.take(0))) =~= l);
            assert(osv.take(0) =~= Seq::<(Id, BindingV)>::empty());
        }
        let n = other.entries.len();
        let mut i: usize = 0;
        while i < n
            invariant
                i <= n,
                n == other.entries@.len(),
                acc.wf(),
                os == benv_entries(other.entries@),
                keys_unique(os),
                r_all == assoc_map(os),
                l == assoc_map(benv_entries(ls)),
                keys_unique(benv_entries(ls)),
                acc@ == benv_union(l, assoc_map(os.take(i as int))),
                forall|k: Seq<char>| !#[trigger] benv_conflict(l, assoc_map(os.take(i as int)), k),
                acc.entries@.len() >= ls.len(),
                forall|j: int| 0 <= j < ls.len() ==> acc.entries@[j].0 == ls[j].0,
                lsv == benv_seq(ls),
                osv == benv_seq(other.entries@),
                entries_union(lsv, osv.take(i as int)) == Ok::<Seq<(Id, BindingV)>, AlgoError>(benv_seq(acc.entries@)),
                forall|j: int| 0 <= j < i ==> !#[trigger] benv_conflict(l, r_all, os[j].0),
            decreases n - i,
        {
            let ghost ri = assoc_map(os.take(i as int));
            let ghost k = os[i as int].0;
            let ghost w = os[i as int].1;
            proof {
                assert(forall|k2: Seq<char>| !#[trigger] benv_conflict(l, assoc_map(os.take(i as int)), k2));
                assert(forall|k2: Seq<char>| !#[trigger] benv_conflict(l, ri, k2));
                assert(os.take(i + 1).drop_last() =~= os.take(i as int));
                assert(assoc_map(os.take(i + 1)) == ri.insert(k, w));
                lemma_assoc_dom(os.take(i as int));
                assert forall|j: int| 0 <= j < os.take(i as int).len() implies os.take(i as int)[j].0 != k by {
                    assert(os[j].0 != os[i as int].0);
                }
                assert(!ri.contains_key(k));
                lemma_assoc_index(os, i as int);
                assert(osv.take(i + 1).drop_last() =~= osv.take(i as int));
                assert(osv.take(i + 1).last() == osv[i as int]);
                assert(os[i as int].0 == other.entries@[i as int].0@);
            }
            let ghost accv = benv_seq(acc.entries@);
            let ghost accv_entries = acc.entries@;
            let id = &other.entries[i].0;
            let binding_r = &other.entries[i].1;
            match acc.find(id) {
                None => {
                    let ghost s = benv_entries(acc.entries@);
                    acc.entries.push((clone_id(id), binding_r.clone_binding()));
                    proof {
                        lemma_assoc_push(s, k, w);
                        assert(benv_entries(acc.entries@) =~= s.push((k, w)));
                        assert(!l.contains_key(k));
                        assert(acc@ =~= benv_union(l, assoc_map(os.take(i + 1))));
                        assert forall|k2: Seq<char>| !#[trigger] benv_conflict(l, assoc_map(os.take(i + 1)), k2) by {
                            assert(!benv_conflict(l, ri, k2));
                        }
                        lemma_assoc_dom(benv_entries(accv_entries));
                        assert forall|j2: int| 0 <= j2 < accv.len() implies (#[trigger] accv[j2]).0@ != k by {
                            assert(benv_entries(accv_entries)[j2].0 == accv[j2].0@);
                        }
                        assert(name_index(accv, k) == -1);
                        assert(benv_seq(acc.entries@) =~= accv.push(osv[i as int]));
                        assert(!benv_conflict(l, r_all, os[i as int].0));
                    }
                },
                Some(j) => {
                    proof {
                        assert(l.contains_key(k));
                        assert(acc@[k] == l[k]);
                        lemma_assoc_index(benv_entries(acc.entries@), j as int);
                        lemma_assoc_dom(benv_entries(ls));
                        let j2 = choose|j2: int| 0 <= j2 < benv_entries(ls).len() && benv_entries(ls)[j2].0 == k;
                        assert(benv_entries(acc.entries@)[j2].0 == k);
                        assert(j2 == j);
                        assert(accv[j as int].0@ == k);
                        assert(keys_unique(benv_entries(accv_entries)));
                        assert forall|a: int, b: int| 0 <= a < b < accv.len() implies (#[trigger] accv[a]).0@ != (#[trigger] accv[b]).0@ by {
                            assert(benv_entries(accv_entries)[a].0 != benv_entries(accv_entries)[b].0);
                        }
                        lemma_name_index(accv, k, j as int);
                    }
                    let dim_l = acc.entries[j].1.dim();
                    let dim_r = binding_r.dim();
                    if !(dim_l.sub(dim_r) && dim_r.sub(dim_l)) {
                        proof {
                            if dim_l@.iters == dim_r@.iters {
                                assert(dim_r@.iters.take(dim_l@.iters.len() as int) =~= dim_r@.iters);
                            }
                            assert(benv_conflict(l, r_all, k));
                            assert(ls[j as int].0@ == k);
                        }
                        let e = AlgoError::new(AlgoErrorKind::InconsistentDimensions, acc.entries[j].0.span);
                        proof {
                            assert(entries_union(lsv, osv.take(i + 1)) == Err::<Seq<(Id, BindingV)>, AlgoError>(e));
                            lemma_entries_union_err(lsv, osv, i + 1);
                            assert(osv.take(n as int) =~= osv);
                            assert(benv_conflict(l, r_all, other.entries@[i as int].0@));
                            assert(ls[j as int].0@ == other.entries@[i as int].0@);
                            assert forall|j3: int| 0 <= j3 < i implies !benv_conflict(l, r_all, #[trigger] other.entries@[j3].0@) by {
                                assert(os[j3].0 == other.entries@[j3].0@);
                            }
                            assert(ls[j as int].0.span == e.span);
                            assert(exists|i: int| 0 <= i < ls.len() && ls[i].0.span == e.span
                                && benv_conflict(l, r_all, ls[i].0@));
                            assert(exists|k2: Seq<char>| benv_conflict(l, r_all, k2));
                        }
                        return Err(e);
                    }
                    proof {
                        assert(dim_l@.iters =~= dim_r@.iters);
                    }
                    let dim = dim_l.clone_dim();
                    let key = clone_id(&acc.entries[j].0);
                    let ghost s = benv_entries(acc.entries@);
                    let ghost wm = BindingV::Multiple(dim@);
                    acc.entries.set(j, (key, Binding::Multiple(dim)));
                    proof {
                        assert(benv_seq(acc.entries@) =~= accv.update(j as int, (accv[j as int].0, BindingV::Multiple(binding_dim(accv[j as int].1)))));
                        assert(!benv_conflict(l, r_all, os[i as int].0));
                        lemma_assoc_update(s, j as int, wm);
                        assert(benv_entries(acc.entries@) =~= s.update(j as int, (s[j as int].0, wm)));
                        assert(acc@ =~= benv_union(l, assoc_map(os.take(i + 1))));
                        assert forall|k2: Seq<char>| !#[trigger] benv_conflict(l, assoc_map(os.take(i + 1)), k2) by {
                            assert(!benv_conflict(l, ri, k2));
                        }
                    }
                },
            }
            i = i + 1;
        }
        proof {
            assert(os.take(other.entries@.len() as int) =~= os);
            assert(r_all == other@);
            assert(forall|k2: Seq<char>| !#[trigger] benv_conflict(l, r_all, k2));
            assert(osv.take(n as int) =~= osv);
        }
        Ok(acc)
    }
}

} // verus!
