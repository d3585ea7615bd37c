//! Views, copies and syntactic equality of identifiers, types and binders.

use vstd::prelude::*;

use crate::il::{
    Id, Typ, TypKind, Var, NotTyp, Mixop, TypV, VarV, NotTypV, typ_view, typ_kind_view, typs_view,
    var_view, vars_view, not_typ_view, mixop_view, strs_view,
};

verus! {

impl View for Id {
    type V = Seq<char>;

    open spec fn view(&self) -> Seq<char> {
        self.node@
    }
}

impl View for Typ {
    type V = TypV;

    open spec fn view(&self) -> TypV {
        typ_view(*self)
    }
}

impl View for Var {
    type V = VarV;

    open spec fn view(&self) -> VarV {
        var_view(*self)
    }
}

impl View for NotTyp {
    type V = NotTypV;

    open spec fn view(&self) -> NotTypV {
        not_typ_view(*self)
    }
}

// == Sequence views

pub proof fn lemma_typs_view(ts: Seq<Typ>)
    ensures
        typs_view(ts).len() == ts.len(),
        forall|i: int| 0 <= i < ts.len() ==> #[trigger] typs_view(ts)[i] == typ_view(ts[i]),
    decreases ts.len(),
{
    if ts.len() > 0 {
        lemma_typs_view(ts.drop_last());
    }
}

pub proof fn lemma_typs_view_push(ts: Seq<Typ>, t: Typ)
    ensures
        typs_view(ts.push(t)) == typs_view(ts).push(typ_view(t)),
{
    assert(ts.push(t).drop_last() =~= ts);
}

// == Copies

/// Copies an identifier.
pub fn clone_id(id: &Id) -> (res: Id)
    ensures
        res == *id,
{
    Id { node: id.node.clone(), span: id.span }
}

pub fn clone_strs(v: &Vec<String>) -> (res: Vec<String>)
    ensures
        strs_view(res@) == strs_view(v@),
{
    let mut res: Vec<String> = Vec::new();
    for i in 0..v.len()
        invariant
            res@.len() == i,
            forall|j: int| 0 <= j < i ==> res@[j]@ == v@[j]@,
    {
        res.push(v[i].clone());
    }
    assert(strs_view(res@) =~= strs_view(v@));
    res
}

/// Copies a mixfix operator.
pub fn clone_mixop(m: &Mixop) -> (res: Mixop)
    ensures
        mixop_view(res) == mixop_view(*m),
{
    let mut phrases: Vec<Vec<String>> = Vec::new();
    for i in 0..m.phrases.len()
        invariant
            phrases@.len() == i,
            forall|j: int| 0 <= j < i ==> strs_view(phrases@[j]@) == strs_view(m.phrases@[j]@),
    {
        phrases.push(clone_strs(&m.phrases[i]));
    }
    let res = Mixop { phrases };
    assert(mixop_view(res) =~= mixop_view(*m));
    res
}

/// Copies a type.
pub fn clone_typ(t: &Typ) -> (res: Typ)
    ensures
        typ_view(res) == typ_view(*t),
        res.span == t.span,
        t.node is Var ==> res.node is Var && res.node->Var_0 == t.node->Var_0,
    decreases t,
{
    Typ { node: clone_typ_kind(&t.node), span: t.span }
}

/// Copies a type node.
pub fn clone_typ_kind(k: &TypKind) -> (res: TypKind)
    ensures
        typ_kind_view(res) == typ_kind_view(*k),
        k is Var ==> res is Var && res->Var_0 == k->Var_0,
    decreases k,
{
    match k {
        TypKind::Bool => TypKind::Bool,
        TypKind::Num(n) => TypKind::Num(*n),
        TypKind::Text => TypKind::Text,
        TypKind::Var(id, targs) => TypKind::Var(clone_id(id), clone_typs(targs)),
        TypKind::Tuple(ts) => TypKind::Tuple(clone_typs(ts)),
        TypKind::Iter(t, it) => TypKind::Iter(Box::new(clone_typ(t)), *it),
    }
}

/// Copies a list of types.
#[verifier::loop_isolation(false)]
pub fn clone_typs(ts: &Vec<Typ>) -> (res: Vec<Typ>)
    ensures
        typs_view(res@) == typs_view(ts@),
    decreases ts,
{
    let mut res: Vec<Typ> = Vec::new();
    for i in 0..ts.len()
        invariant
            typs_view(res@) == typs_view(ts@.take(i as int)),
    {
        proof {
            assert(decreases_to!(ts => ts[i as int]));
        }
        let t = clone_typ(&ts[i]);
        proof {
            lemma_typs_view_push(res@, t);
            assert(ts@.take(i + 1).drop_last() =~= ts@.take(i as int));
        }
        res.push(t);
    }
    assert(ts@.take(ts.len() as int) =~= ts@);
    res
}

// == Syntactic equality

/// Whether two types are equal up to locations.
pub fn typ_eq(a: &Typ, b: &Typ) -> (r: bool)
    ensures
        r == (typ_view(*a) == typ_view(*b)),
    decreases a,
{
    typ_kind_eq(&a.node, &b.node)
}

/// Whether two type nodes are equal up to locations.
pub fn typ_kind_eq(a: &TypKind, b: &TypKind) -> (r: bool)
    ensures
        r == (typ_kind_view(*a) == typ_kind_view(*b)),
    decreases a,
{
    match (a, b) {
        (TypKind::Bool, TypKind::Bool) => true,
        (TypKind::Num(x), TypKind::Num(y)) => *x == *y,
        (TypKind::Text, TypKind::Text) => true,
        (TypKind::Var(x, xs), TypKind::Var(y, ys)) => x.node == y.node && typs_eq(xs, ys),
        (TypKind::Tuple(xs), TypKind::Tuple(ys)) => typs_eq(xs, ys),
        (TypKind::Iter(x, i), TypKind::Iter(y, j)) => *i == *j && typ_eq(x, y),
        _ => false,
    }
}

/// Whether two lists of types are equal up to locations.
#[verifier::loop_isolation(false)]
pub fn typs_eq(xs: &Vec<Typ>, ys: &Vec<Typ>) -> (r: bool)
    ensures
        r == (typs_view(xs@) == typs_view(ys@)),
    decreases xs,
{
    proof {
        lemma_typs_view(xs@);
        lemma_typs_view(ys@);
    }
    if xs.len() != ys.len() {
        return false;
    }
    for i in 0..xs.len()
        invariant
            forall|j: int| 0 <= j < i ==> typ_view(xs@[j]) == typ_view(ys@[j]),
    {
        proof {
            assert(decreases_to!(xs => xs[i as int]));
        }
        if !typ_eq(&xs[i], &ys[i]) {
            assert(typs_view(xs@)[i as int] != typs_view(ys@)[i as int]);
            return false;
        }
    }
    assert(typs_view(xs@) =~= typs_view(ys@));
    true
}

/// Copies a binder.
pub fn clone_var(v: &Var) -> (res: Var)
    ensures
        var_view(res) == var_view(*v),
        res.id.span == v.id.span,
{
    Var { id: clone_id(&v.id), typ: clone_typ(&v.typ), iters: v.iters.clone() }
}

/// Copies a list of binders.
pub fn clone_vars(vs: &Vec<Var>) -> (res: Vec<Var>)
    ensures
        vars_view(res@) == vars_view(vs@),
{
    let mut res: Vec<Var> = Vec::new();
    for i in 0..vs.len()
        invariant
            res@.len() == i,
            forall|j: int| 0 <= j < i ==> var_view(res@[j]) == var_view(vs@[j]),
    {
        res.push(clone_var(&vs[i]));
    }
    assert(vars_view(res@) =~= vars_view(vs@));
    res
}

/// Whether two mixfix operators are equal.
pub fn mixop_eq(a: &Mixop, b: &Mixop) -> (r: bool)
    ensures
        r == (mixop_view(*a) == mixop_view(*b)),
{
    if a.phrases.len() != b.phrases.len() {
        assert(mixop_view(*a).len() != mixop_view(*b).len());
        return false;
    }
    for i in 0..a.phrases.len()
        invariant
            a.phrases.len() == b.phrases.len(),
            forall|j: int| 0 <= j < i ==> strs_view(a.phrases@[j]@) == strs_view(b.phrases@[j]@),
    {
        let x = &a.phrases[i];
        let y = &b.phrases[i];
        if x.len() != y.len() {
            assert(mixop_view(*a)[i as int].len() != mixop_view(*b)[i as int].len());
            return false;
        }
        for k in 0..x.len()
            invariant
                x.len() == y.len(),
                0 <= i < a.phrases.len() == b.phrases.len(),
                *x == a.phrases@[i as int],
                *y == b.phrases@[i as int],
                forall|j: int| 0 <= j < k ==> x@[j]@ == y@[j]@,
        {
            if x[k] != y[k] {
                assert(mixop_view(*a)[i as int][k as int] != mixop_view(*b)[i as int][k as int]);
                return false;
            }
        }
        assert(strs_view(x@) =~= strs_view(y@));
    }
    assert(mixop_view(*a) =~= mixop_view(*b));
    true
}

/// Copies a notation type.
pub fn clone_not_typ(n: &NotTyp) -> (res: NotTyp)
    ensures
        not_typ_view(res) == not_typ_view(*n),
        res.span == n.span,
{
    NotTyp { mixop: clone_mixop(&n.mixop), typs: clone_typs(&n.typs), span: n.span }
}

/// Whether two notation types are equal up to locations.
pub fn not_typ_eq(a: &NotTyp, b: &NotTyp) -> (r: bool)
    ensures
        r == (not_typ_view(*a) == not_typ_view(*b)),
{
    mixop_eq(&a.mixop, &b.mixop) && typs_eq(&a.typs, &b.typs)
}

// == Substitution of type parameters

/// The position of the first type parameter named `id`.
pub open spec fn param_index(tparams: Seq<Seq<char>>, id: Seq<char>) -> Option<int>
    decreases tparams.len(),
{
    if tparams.len() == 0 {
        None
    } else {
        match param_index(tparams.drop_last(), id) {
            Some(i) => Some(i),
            None => if tparams.last() == id { Some(tparams.len() - 1) } else { None },
        }
    }
}

/// `t` with each type parameter replaced by its argument.
pub open spec fn subst(tparams: Seq<Seq<char>>, targs: Seq<TypV>, t: TypV) -> TypV
    decreases t,
{
    match t {
        TypV::Var(id, args) => match param_index(tparams, id) {
            Some(i) => targs[i],
            None => TypV::Var(id, substs(tparams, targs, args)),
        },
        TypV::Tuple(ts) => TypV::Tuple(substs(tparams, targs, ts)),
        TypV::Iter(b, it) => TypV::Iter(Box::new(subst(tparams, targs, *b)), it),
        _ => t,
    }
}

pub open spec fn substs(tparams: Seq<Seq<char>>, targs: Seq<TypV>, ts: Seq<TypV>) -> Seq<TypV>
    decreases ts,
{
    if ts.len() == 0 {
        ts
    } else {
        substs(tparams, targs, ts.drop_last()).push(subst(tparams, targs, ts.last()))
    }
}

/// The names of a list of identifiers.
pub open spec fn ids_view(ids: Seq<Id>) -> Seq<Seq<char>> {
    Seq::new(ids.len(), |i: int| ids[i]@)
}

fn find_param(tparams: &Vec<Id>, id: &Id) -> (r: Option<usize>)
    ensures
        match r {
            Some(i) => param_index(ids_view(tparams@), id@) == Some(i as int) && i < tparams@.len(),
            None => param_index(ids_view(tparams@), id@) is None,
        },
{
    let ghost ps = ids_view(tparams@);
    let mut i: usize = 0;
    while i < tparams.len()
        invariant
            i <= tparams@.len(),
            ps == ids_view(tparams@),
            param_index(ps.take(i as int), id@) is None,
        decreases tparams@.len() - i,
    {
        proof {
            assert(ps.take(i + 1).drop_last() =~= ps.take(i as int));
        }
        if tparams[i].node == id.node {
            proof {
                assert(ps.take(i + 1).last() == id@);
                lemma_param_index_prefix(ps, i + 1, id@);
            }
            return Some(i);
        }
        i = i + 1;
    }
    proof {
        assert(ps.take(i as int) =~= ps);
    }
    None
}

proof fn lemma_param_index_prefix(ps: Seq<Seq<char>>, n: int, id: Seq<char>)
    requires
        0 <= n <= ps.len(),
        param_index(ps.take(n), id) is Some,
    ensures
        param_index(ps, id) == param_index(ps.take(n), id),
    decreases ps.len() - n,
{
    if n < ps.len() {
        assert(ps.take(n + 1).drop_last() =~= ps.take(n));
        lemma_param_index_prefix(ps, n + 1, id);
    } else {
        assert(ps.take(n) =~= ps);
    }
}

proof fn lemma_param_index_bound(ps: Seq<Seq<char>>, id: Seq<char>)
    ensures
        param_index(ps, id) matches Some(i) ==> 0 <= i < ps.len(),
    decreases ps.len(),
{
    if ps.len() > 0 {
        lemma_param_index_bound(ps.drop_last(), id);
    }
}

/// Substitutes the type arguments `targs` for the parameters `tparams` in `t`.
pub fn subst_typ(tparams: &Vec<Id>, targs: &Vec<Typ>, t: &Typ) -> (r: Typ)
    requires
        tparams@.len() == targs@.len(),
    ensures
        typ_view(r) == subst(ids_view(tparams@), typs_view(targs@), typ_view(*t)),
    decreases t,
{
    proof {
        lemma_typs_view(targs@);
    }
    match &t.node {
        TypKind::Var(id, args) => match find_param(tparams, id) {
            Some(i) => clone_typ(&targs[i]),
            None => {
                let args2 = subst_typs(tparams, targs, args);
                Typ { node: TypKind::Var(clone_id(id), args2), span: t.span }
            },
        },
        TypKind::Tuple(ts) => {
            let ts2 = subst_typs(tparams, targs, ts);
            Typ { node: TypKind::Tuple(ts2), span: t.span }
        },
        TypKind::Iter(b, it) => {
            let b2 = subst_typ(tparams, targs, b);
            Typ { node: TypKind::Iter(Box::new(b2), *it), span: t.span }
        },
        _ => clone_typ(t),
    }
}

#[verifier::loop_isolation(false)]
fn subst_typs(tparams: &Vec<Id>, targs: &Vec<Typ>, ts: &Vec<Typ>) -> (r: Vec<Typ>)
    requires
        tparams@.len() == targs@.len(),
    ensures
        typs_view(r@) == substs(ids_view(tparams@), typs_view(targs@), typs_view(ts@)),
    decreases ts,
{
    let ghost ps = ids_view(tparams@);
    let ghost xs = typs_view(targs@);
    let mut r: Vec<Typ> = Vec::new();
    proof {
        assert(ts@.take(0) =~= Seq::<Typ>::empty());
        assert(typs_view(Seq::<Typ>::empty()) =~= Seq::<TypV>::empty());
    }
    for i in 0..ts.len()
        invariant
            ps == ids_view(tparams@),
            xs == typs_view(targs@),
            typs_view(r@) == substs(ps, xs, typs_view(ts@.take(i as int))),
    {
        proof {
            assert(decreases_to!(ts => ts@[i as int]));
        }
        let t2 = subst_typ(tparams, targs, &ts[i]);
        proof {
            lemma_typs_view_push(ts@.take(i as int), ts@[i as int]);
            assert(ts@.take(i + 1) =~= ts@.take(i as int).push(ts@[i as int]));
            lemma_typs_view_push(r@, t2);
            let sv = typs_view(ts@.take(i as int)).push(typ_view(ts@[i as int]));
            assert(sv.drop_last() =~= typs_view(ts@.take(i as int)));
        }
        r.push(t2);
    }
    proof {
        assert(ts@.take(ts.len() as int) =~= ts@);
    }
    r
}

} // verus!
