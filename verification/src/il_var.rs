//! Variables made up by the passes: fresh names, variables named after their
//! type, and the expression that reads a variable.

use vstd::prelude::*;
use vstd::string::StringExecFns;
use crate::span::Span;
use crate::il::{Exp, ExpIter, ExpKind, Id, Iter, Typ, TypKind, TypV, Var, VarV, ExpV, ExpKindV, typ_view};
use crate::il_typ::{clone_id, clone_typ};
use crate::ids::IdSet;
use crate::idmap::{IdMap, idmap_entries};

verus! {

/// `k` primes.
pub open spec fn primes(k: nat) -> Seq<char> {
    Seq::new(k, |i: int| '\'')
}

/// Whether `x` followed by `k` primes is the first primed form of `x` outside `frees`.
pub open spec fn first_fresh(frees: Set<Seq<char>>, x: Seq<char>, k: nat) -> bool {
    &&& !frees.contains(x + primes(k))
    &&& forall|j: nat| j < k ==> frees.contains(x + #[trigger] primes(j))
}

/// `x` with the fewest primes appended that makes it a name outside `frees`.
pub open spec fn fresh_name(frees: Set<Seq<char>>, x: Seq<char>) -> Seq<char> {
    x + primes(choose|k: nat| first_fresh(frees, x, k))
}

pub proof fn lemma_first_fresh_unique(frees: Set<Seq<char>>, x: Seq<char>, k1: nat, k2: nat)
    requires
        first_fresh(frees, x, k1),
        first_fresh(frees, x, k2),
    ensures
        k1 == k2,
{
    if k1 < k2 {
        assert(frees.contains(x + primes(k1)));
    } else if k2 < k1 {
        assert(frees.contains(x + primes(k2)));
    }
}

proof fn lemma_all_primed_in(frees: Set<Seq<char>>, x: Seq<char>, k: nat)
    requires
        forall|c: nat| !first_fresh(frees, x, c),
    ensures
        forall|j: nat| j <= k ==> frees.contains(x + #[trigger] primes(j)),
    decreases k,
{
    if k == 0 {
        assert(!first_fresh(frees, x, 0));
    } else {
        lemma_all_primed_in(frees, x, (k - 1) as nat);
        assert(!first_fresh(frees, x, k));
    }
}

/// Among finitely many names in use, a primed form of `x` is always left:
/// the name `fresh_name` picks is not in use.
pub proof fn lemma_fresh_name_fresh(frees: Set<Seq<char>>, x: Seq<char>)
    requires
        frees.finite(),
    ensures
        first_fresh(frees, x, (fresh_name(frees, x).len() - x.len()) as nat),
        !frees.contains(fresh_name(frees, x)),
{
    if forall|c: nat| !first_fresh(frees, x, c) {
        let n = frees.len();
        lemma_all_primed_in(frees, x, n);
        let names = Seq::new(n + 1, |j: int| x + primes(j as nat));
        assert forall|i: int, j: int| 0 <= i < names.len() && 0 <= j < names.len() && i != j
            implies names[i] != names[j] by {
            assert(names[i].len() == x.len() + i);
            assert(names[j].len() == x.len() + j);
        }
        names.unique_seq_to_set();
        assert forall|s: Seq<char>| names.to_set().contains(s) implies frees.contains(s) by {
            let j = choose|j: int| 0 <= j < names.len() && names[j] == s;
            assert(frees.contains(x + primes(j as nat)));
        }
        vstd::set_lib::lemma_len_subset(names.to_set(), frees);
    }
    let k = choose|k: nat| first_fresh(frees, x, k);
    assert((x + primes(k)).len() - x.len() == k);
}

/// Appends primes to `id` until its name is not in `ids`.
pub fn fresh_id(ids: &IdSet, id: &Id) -> (r: Id)
    ensures
        r@ == fresh_name(ids@, id@),
        !ids@.contains(r@),
        r.span == id.span,
{
    let mut id_fresh = clone_id(id);
    let ghost mut k: nat = 0;
    let ghost mut seen: Set<Seq<char>> = Set::empty();
    let ghost all = Seq::new(ids.ids@.len(), |i: int| ids.ids@[i]@).to_set();
    proof {
        assert(primes(0) =~= Seq::<char>::empty());
        assert(id_fresh@ =~= id@ + primes(0));
        assert forall|x: Seq<char>| ids@.contains(x) implies all.contains(x) by {
            let i = choose|i: int| 0 <= i < ids.ids@.len() && ids.ids@[i]@ == x;
            assert(Seq::new(ids.ids@.len(), |i: int| ids.ids@[i]@)[i] == x);
        }
        Seq::new(ids.ids@.len(), |i: int| ids.ids@[i]@).lemma_cardinality_of_set();
        vstd::seq_lib::seq_to_set_is_finite(Seq::new(ids.ids@.len(), |i: int| ids.ids@[i]@));
    }
    while ids.contains(&id_fresh)
        invariant
            id_fresh@ == id@ + primes(k),
            id_fresh.span == id.span,
            forall|j: nat| j < k ==> ids@.contains(id@ + #[trigger] primes(j)),
            seen.finite(),
            seen.len() == k,
            forall|x: Seq<char>| #[trigger] seen.contains(x) ==> x.len() < id_fresh@.len() && all.contains(x),
            all.finite(),
            all.len() <= ids.ids@.len(),
            forall|x: Seq<char>| ids@.contains(x) ==> all.contains(x),
        decreases ids.ids@.len() - k,
    {
        proof {
            assert(!seen.contains(id_fresh@));
            seen = seen.insert(id_fresh@);
            vstd::set_lib::lemma_len_subset(seen, all);
        }
        id_fresh.node.append("'");
        proof {
            reveal_strlit("'");
            k = k + 1;
            assert(id_fresh@ =~= id@ + primes(k));
        }
    }
    proof {
        assert(first_fresh(ids@, id@, k));
        let c = choose|c: nat| first_fresh(ids@, id@, c);
        lemma_first_fresh_unique(ids@, id@, k, c);
    }
    id_fresh
}

// == Variables named after their type

/// A type with its outer iterations taken off, and those iterations,
/// innermost first.
pub open spec fn strip_iters(t: TypV) -> (TypV, Seq<Iter>)
    decreases t,
{
    match t {
        TypV::Iter(b, it) => {
            let r = strip_iters(*b);
            (r.0, r.1.push(it))
        },
        _ => (t, Seq::empty()),
    }
}

/// The index of the first meta-variable of type `t`, if any.
pub open spec fn meta_index(menv: Seq<(Seq<char>, TypV)>, t: TypV) -> Option<int>
    decreases menv.len(),
{
    if menv.len() == 0 {
        None
    } else {
        match meta_index(menv.drop_last(), t) {
            Some(i) => Some(i),
            None => if menv.last().1 == t { Some(menv.len() - 1) } else { None },
        }
    }
}

/// The name a variable of (non-iterated) type `t` is given: the first
/// meta-variable of that type, else the name of a named type, else `x`.
pub open spec fn base_name(menv: Seq<(Seq<char>, TypV)>, t: TypV) -> Seq<char> {
    match meta_index(menv, t) {
        Some(i) => menv[i].0,
        None => match t {
            TypV::Var(id, _) => id,
            _ => seq!['x'],
        },
    }
}

/// A fresh variable for a value of type `t`: named after the type's
/// iteration-free part, with the iterations as its own.
pub open spec fn fresh_var(menv: Seq<(Seq<char>, TypV)>, frees: Set<Seq<char>>, t: TypV) -> VarV {
    let (b, its) = strip_iters(t);
    VarV { id: fresh_name(frees, base_name(menv, b)), typ: b, iters: its }
}

fn strip_typ_iters(t: &Typ) -> (r: (Typ, Vec<Iter>))
    ensures
        (typ_view(r.0), r.1@) == strip_iters(typ_view(*t)),
    decreases t,
{
    match &t.node {
        TypKind::Iter(b, it) => {
            let (base, mut its) = strip_typ_iters(b);
            its.push(*it);
            (base, its)
        },
        _ => (clone_typ(t), Vec::new()),
    }
}

fn base_name_of(menv: &IdMap<Typ>, t: &Typ) -> (r: String)
    ensures
        r@ == base_name(idmap_entries(menv.entries@), typ_view(*t)),
{
    let ghost es = idmap_entries(menv.entries@);
    let mut i: usize = 0;
    while i < menv.entries.len()
        invariant
            i <= menv.entries@.len(),
            es == idmap_entries(menv.entries@),
            meta_index(es.take(i as int), typ_view(*t)) is None,
        decreases menv.entries@.len() - i,
    {
        proof {
            assert(es.take(i + 1).drop_last() =~= es.take(i as int));
        }
        if crate::il_typ::typ_eq(&menv.entries[i].1, t) {
            proof {
                assert(es.take(i + 1).last() == es[i as int]);
                assert(meta_index(es.take(i + 1), typ_view(*t)) == Some(i as int));
                lemma_meta_index_prefix(es, i as int + 1, typ_view(*t));
            }
            return menv.entries[i].0.node.clone();
        }
        i = i + 1;
    }
    proof {
        assert(es.take(i as int) =~= es);
    }
    match &t.node {
        TypKind::Var(id, _) => id.node.clone(),
        _ => {
            let x = String::from_str("x");
            proof {
                reveal_strlit("x");
            }
            x
        },
    }
}

/// A hit in a prefix is the first hit of the whole list.
proof fn lemma_meta_index_prefix(menv: Seq<(Seq<char>, TypV)>, n: int, t: TypV)
    requires
        0 <= n <= menv.len(),
        meta_index(menv.take(n), t) is Some,
    ensures
        meta_index(menv, t) == meta_index(menv.take(n), t),
    decreases menv.len() - n,
{
    if n < menv.len() {
        assert(menv.take(n + 1).drop_last() =~= menv.take(n));
        lemma_meta_index_prefix(menv, n + 1, t);
    } else {
        assert(menv.take(n) =~= menv);
    }
}

/// A fresh variable for a value of type `typ`, located at `span`.
pub fn var_from_typ(menv: &IdMap<Typ>, frees: &IdSet, span: Span, typ: &Typ) -> (v: Var)
    ensures
        v@ == fresh_var(idmap_entries(menv.entries@), frees@, typ_view(*typ)),
        v.id.span == span,
{
    let (base, iters) = strip_typ_iters(typ);
    let name = base_name_of(menv, &base);
    let id = fresh_id(frees, &Id { node: name, span });
    Var { id, typ: base, iters }
}

// == Reading a variable

/// The type of a value of type `t` under the iterations `its`, innermost first.
pub open spec fn iter_typ(t: TypV, its: Seq<Iter>) -> TypV
    decreases its.len(),
{
    if its.len() == 0 {
        t
    } else {
        TypV::Iter(Box::new(iter_typ(t, its.drop_last())), its.last())
    }
}

/// The expression reading `v` under its first `k` iterations: the variable
/// itself, iterated once per iteration over the variable one level down.
pub open spec fn var_exp_at(v: VarV, k: int) -> ExpV
    decreases k,
{
    if k <= 0 {
        ExpV { node: ExpKindV::Var(v.id), note: v.typ }
    } else {
        ExpV {
            node: ExpKindV::Iter(
                Box::new(var_exp_at(v, k - 1)),
                v.iters[k - 1],
                seq![VarV { id: v.id, typ: v.typ, iters: v.iters.take(k - 1) }],
            ),
            note: iter_typ(v.typ, v.iters.take(k)),
        }
    }
}

/// The expression reading `v` with all its iterations.
pub open spec fn var_exp(v: VarV) -> ExpV {
    var_exp_at(v, v.iters.len() as int)
}

/// The expression reading a variable.
pub fn as_exp(v: &Var) -> (e: Exp)
    ensures
        crate::il::exp_view(e) == var_exp(v@),
        e.span == v.id.span,
{
    let span = v.id.span;
    let mut note = clone_typ(&v.typ);
    let mut e = Exp { node: ExpKind::Var(clone_id(&v.id)), note: crate::il_typ::clone_typ_kind(&v.typ.node), span };
    let mut k: usize = 0;
    proof {
        assert(v@.iters.take(0) =~= Seq::<Iter>::empty());
    }
    while k < v.iters.len()
        invariant
            k <= v.iters@.len(),
            crate::il::exp_view(e) == var_exp_at(v@, k as int),
            typ_view(note) == iter_typ(typ_view(v.typ), v.iters@.take(k as int)),
            e.span == span,
            span == v.id.span,
        decreases v.iters@.len() - k,
    {
        let mut its: Vec<Iter> = Vec::new();
        for j in 0..k
            invariant
                k < v.iters@.len(),
                its@ == v.iters@.take(j as int),
        {
            its.push(v.iters[j]);
            assert(its@ =~= v.iters@.take(j + 1));
        }
        let inner = Var { id: clone_id(&v.id), typ: clone_typ(&v.typ), iters: its };
        let it = v.iters[k];
        let note2 = Typ { node: TypKind::Iter(Box::new(note), it), span };
        proof {
            assert(v.iters@.take(k + 1).drop_last() =~= v.iters@.take(k as int));
            assert(typ_view(note2) == iter_typ(typ_view(v.typ), v.iters@.take(k + 1)));
            assert(crate::il::vars_view(seq![inner]) =~= seq![VarV { id: v@.id, typ: v@.typ, iters: v@.iters.take(k as int) }]);
        }
        let mut vars: Vec<Var> = Vec::new();
        vars.push(inner);
        e = Exp {
            node: ExpKind::Iter(Box::new(e), ExpIter { iter: it, vars }),
            note: crate::il_typ::clone_typ_kind(&note2.node),
            span,
        };
        note = note2;
        k = k + 1;
    }
    e
}

} // verus!
