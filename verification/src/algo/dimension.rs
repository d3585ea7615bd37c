//! Minimal-dimension inference for expression variables: records the variables
//! of an expression, retaining the minimal dimension when one occurs more than
//! once.

use vstd::prelude::*;
use crate::il::{Arg, ArgKind, Exp, ExpKind, ExpField, Id, Iter, Path, PathKind, Typ, typ_kind_view};
use crate::il_typ::{clone_id, clone_typ_kind};
use crate::algo::dim::{Dim, DimV, VEnv, dim_sub, venv_entries};
use crate::assoc::{assoc_keys, lemma_assoc_dom};

verus! {

/// The environment after seeing `id` at dimension `d`: kept when new or no deeper.
pub open spec fn inf_var(acc: Map<Seq<char>, DimV>, id: Seq<char>, d: DimV) -> Map<Seq<char>, DimV> {
    if !acc.contains_key(id) || dim_sub(d, acc[id]) {
        acc.insert(id, d)
    } else {
        acc
    }
}

/// Variables of `e` under the iterations `iters`, left to right, added to `acc`.
pub open spec fn inf(acc: Map<Seq<char>, DimV>, e: Exp, iters: Seq<Iter>) -> Map<Seq<char>, DimV>
    decreases e,
{
    match e.node {
        ExpKind::Bool(_) | ExpKind::Num(_) | ExpKind::Text(_) => acc,
        ExpKind::Var(id) => inf_var(acc, id@, DimV { typ: typ_kind_view(e.note), iters }),
        ExpKind::Un(_, _, x) => inf(acc, *x, iters),
        ExpKind::UpCast(_, x) => inf(acc, *x, iters),
        ExpKind::DownCast(_, x) => inf(acc, *x, iters),
        ExpKind::Sub(x, _) => inf(acc, *x, iters),
        ExpKind::Match(x, _) => inf(acc, *x, iters),
        ExpKind::Len(x) => inf(acc, *x, iters),
        ExpKind::Dot(x, _) => inf(acc, *x, iters),
        ExpKind::Bin(_, _, l, r) => inf(inf(acc, *l, iters), *r, iters),
        ExpKind::Cmp(_, _, l, r) => inf(inf(acc, *l, iters), *r, iters),
        ExpKind::Cons(l, r) => inf(inf(acc, *l, iters), *r, iters),
        ExpKind::Cat(l, r) => inf(inf(acc, *l, iters), *r, iters),
        ExpKind::Mem(l, r) => inf(inf(acc, *l, iters), *r, iters),
        ExpKind::Idx(l, r) => inf(inf(acc, *l, iters), *r, iters),
        ExpKind::Tuple(es) => inf_exps(acc, es@, iters),
        ExpKind::List(es) => inf_exps(acc, es@, iters),
        ExpKind::Case(n) => inf_exps(acc, n.args@, iters),
        ExpKind::Str(fs) => inf_fields(acc, fs@, iters),
        ExpKind::Opt(o) => match o {
            Some(x) => inf(acc, *x, iters),
            None => acc,
        },
        ExpKind::Slice(b, l, h) => inf(inf(inf(acc, *b, iters), *l, iters), *h, iters),
        ExpKind::Upd(b, p, f) => inf(inf_path(inf(acc, *b, iters), p, iters), *f, iters),
        ExpKind::Call(_, _, args) => inf_args(acc, args@, iters),
        ExpKind::Iter(x, it) => inf(acc, *x, seq![it.iter] + iters),
    }
}

pub open spec fn inf_exps(acc: Map<Seq<char>, DimV>, es: Seq<Exp>, iters: Seq<Iter>) -> Map<Seq<char>, DimV>
    decreases es,
{
    if es.len() == 0 {
        acc
    } else {
        inf(inf_exps(acc, es.drop_last(), iters), es.last(), iters)
    }
}

pub open spec fn inf_fields(acc: Map<Seq<char>, DimV>, fs: Seq<ExpField>, iters: Seq<Iter>) -> Map<Seq<char>, DimV>
    decreases fs,
{
    if fs.len() == 0 {
        acc
    } else {
        inf(inf_fields(acc, fs.drop_last(), iters), fs.last().exp, iters)
    }
}

pub open spec fn inf_path(acc: Map<Seq<char>, DimV>, p: Path, iters: Seq<Iter>) -> Map<Seq<char>, DimV>
    decreases p,
{
    match p.node {
        PathKind::Root => acc,
        PathKind::Idx(q, x) => inf(inf_path(acc, *q, iters), *x, iters),
        PathKind::Slice(q, l, h) => inf(inf(inf_path(acc, *q, iters), *l, iters), *h, iters),
        PathKind::Dot(q, _) => inf_path(acc, *q, iters),
    }
}

pub open spec fn inf_args(acc: Map<Seq<char>, DimV>, args: Seq<Arg>, iters: Seq<Iter>) -> Map<Seq<char>, DimV>
    decreases args,
{
    if args.len() == 0 {
        acc
    } else {
        let acc1 = inf_args(acc, args.drop_last(), iters);
        match args.last().node {
            ArgKind::Exp(x) => inf(acc1, *x, iters),
            ArgKind::Def(_) => acc1,
        }
    }
}

// == Order of first occurrence

/// The variable occurrences of `e`, in the order in which inference visits them.
pub open spec fn occ(e: Exp) -> Seq<Seq<char>>
    decreases e,
{
    match e.node {
        ExpKind::Bool(_) | ExpKind::Num(_) | ExpKind::Text(_) => Seq::empty(),
        ExpKind::Var(id) => seq![id@],
        ExpKind::Un(_, _, x) => occ(*x),
        ExpKind::UpCast(_, x) => occ(*x),
        ExpKind::DownCast(_, x) => occ(*x),
        ExpKind::Sub(x, _) => occ(*x),
        ExpKind::Match(x, _) => occ(*x),
        ExpKind::Len(x) => occ(*x),
        ExpKind::Dot(x, _) => occ(*x),
        ExpKind::Bin(_, _, l, r) => occ(*l) + occ(*r),
        ExpKind::Cmp(_, _, l, r) => occ(*l) + occ(*r),
        ExpKind::Cons(l, r) => occ(*l) + occ(*r),
        ExpKind::Cat(l, r) => occ(*l) + occ(*r),
        ExpKind::Mem(l, r) => occ(*l) + occ(*r),
        ExpKind::Idx(l, r) => occ(*l) + occ(*r),
        ExpKind::Tuple(es) => occ_exps(es@),
        ExpKind::List(es) => occ_exps(es@),
        ExpKind::Case(n) => occ_exps(n.args@),
        ExpKind::Str(fs) => occ_fields(fs@),
        ExpKind::Opt(o) => match o {
            Some(x) => occ(*x),
            None => Seq::empty(),
        },
        ExpKind::Slice(b, l, h) => occ(*b) + occ(*l) + occ(*h),
        ExpKind::Upd(b, p, f) => occ(*b) + occ_path(p) + occ(*f),
        ExpKind::Call(_, _, args) => occ_args(args@),
        ExpKind::Iter(x, _) => occ(*x),
    }
}

pub open spec fn occ_exps(es: Seq<Exp>) -> Seq<Seq<char>>
    decreases es,
{
    if es.len() == 0 { Seq::empty() } else { occ_exps(es.drop_last()) + occ(es.last()) }
}

pub open spec fn occ_fields(fs: Seq<ExpField>) -> Seq<Seq<char>>
    decreases fs,
{
    if fs.len() == 0 { Seq::empty() } else { occ_fields(fs.drop_last()) + occ(fs.last().exp) }
}

pub open spec fn occ_path(p: Path) -> Seq<Seq<char>>
    decreases p,
{
    match p.node {
        PathKind::Root => Seq::empty(),
        PathKind::Idx(q, x) => occ_path(*q) + occ(*x),
        PathKind::Slice(q, l, h) => occ_path(*q) + occ(*l) + occ(*h),
        PathKind::Dot(q, _) => occ_path(*q),
    }
}

pub open spec fn occ_args(args: Seq<Arg>) -> Seq<Seq<char>>
    decreases args,
{
    if args.len() == 0 {
        Seq::empty()
    } else {
        occ_args(args.drop_last()) + match args.last().node {
            ArgKind::Exp(x) => occ(*x),
            ArgKind::Def(_) => Seq::empty(),
        }
    }
}

/// `keys` followed by the names of `s` not seen before, in order.
pub open spec fn dedup_append(keys: Seq<Seq<char>>, s: Seq<Seq<char>>) -> Seq<Seq<char>>
    decreases s.len(),
{
    if s.len() == 0 {
        keys
    } else {
        let k = dedup_append(keys, s.drop_last());
        if k.contains(s.last()) { k } else { k.push(s.last()) }
    }
}

pub proof fn lemma_dedup_append_concat(keys: Seq<Seq<char>>, a: Seq<Seq<char>>, b: Seq<Seq<char>>)
    ensures
        dedup_append(keys, a + b) == dedup_append(dedup_append(keys, a), b),
    decreases b.len(),
{
    if b.len() == 0 {
        assert(a + b =~= a);
    } else {
        lemma_dedup_append_concat(keys, a, b.drop_last());
        assert((a + b).drop_last() =~= a + b.drop_last());
        assert((a + b).last() == b.last());
    }
}

/// The entries that inference of `e` yields: each variable of `e` once, in
/// the order of first occurrence, with its minimal dimension.
pub open spec fn inf_entries(e: Exp) -> Seq<(Seq<char>, DimV)> {
    let keys = dedup_append(Seq::empty(), occ(e));
    let m = inf(Map::empty(), e, Seq::empty());
    Seq::new(keys.len(), |i: int| (keys[i], m[keys[i]]))
}

/// The entries that inference of the expressions `es` yields, as
/// `inf_entries` for one.
pub open spec fn inf_exps_entries(es: Seq<Exp>) -> Seq<(Seq<char>, DimV)> {
    let keys = dedup_append(Seq::empty(), occ_exps(es));
    let m = inf_exps(Map::empty(), es, Seq::empty());
    Seq::new(keys.len(), |i: int| (keys[i], m[keys[i]]))
}

/// The names of an environment's entries, in order.
pub open spec fn venv_keys(v: VEnv) -> Seq<Seq<char>> {
    assoc_keys(venv_entries(v.entries@))
}

// == Variable inference

fn infer_var(venv: &mut VEnv, exp: &Exp, id: &Id, iters: &Vec<Iter>)
    requires
        old(venv).wf(),
    ensures
        final(venv).wf(),
        final(venv)@ == inf_var(old(venv)@, id@, DimV { typ: typ_kind_view(exp.note), iters: iters@ }),
        venv_keys(*final(venv)) == dedup_append(venv_keys(*old(venv)), seq![id@]),
{
    proof {
        lemma_assoc_dom(venv_entries(venv.entries@));
        assert(seq![id@].drop_last() =~= Seq::<Seq<char>>::empty());
        assert(dedup_append(venv_keys(*venv), Seq::<Seq<char>>::empty()) == venv_keys(*venv));
        assert(venv_keys(*venv).contains(id@) <==> venv@.contains_key(id@)) by {
            if venv@.contains_key(id@) {
                let i = choose|i: int| 0 <= i < venv_entries(venv.entries@).len() && venv_entries(venv.entries@)[i].0 == id@;
                assert(venv_keys(*venv)[i] == id@);
            }
        }
    }
    let typ = Typ { node: clone_typ_kind(&exp.note), span: exp.span };
    let dim = Dim::new(typ, iters.clone());
    let keep = match venv.get(id) {
        None => true,
        Some(dim_previous) => dim.sub(dim_previous),
    };
    if keep {
        let ghost k0 = venv_keys(*venv);
        venv.insert(clone_id(id), dim);
        proof {
            if !old(venv)@.contains_key(id@) {
                assert(venv_keys(*venv) =~= k0.push(id@));
            }
        }
    }
}

// == Expression inference

/// The variables of an expression with their minimal dimensions.
pub fn infer_exp(exp: &Exp) -> (v: VEnv)
    ensures
        v.wf(),
        v@ == inf(Map::empty(), *exp, Seq::empty()),
        venv_keys(v) == dedup_append(Seq::empty(), occ(*exp)),
        venv_entries(v.entries@) == inf_entries(*exp),
{
    let mut venv = VEnv::new();
    proof {
        assert(venv_keys(venv) =~= Seq::<Seq<char>>::empty());
    }
    let iters: Vec<Iter> = Vec::new();
    infer_exp_inner(&mut venv, exp, &iters);
    proof {
        let es = venv_entries(venv.entries@);
        assert forall|i: int| 0 <= i < es.len() implies #[trigger] es[i] == inf_entries(*exp)[i] by {
            crate::assoc::lemma_assoc_index(es, i);
            assert(venv_keys(venv)[i] == es[i].0);
        }
        assert(es =~= inf_entries(*exp));
    }
    venv
}

fn infer_exp_inner(venv: &mut VEnv, exp: &Exp, iters: &Vec<Iter>)
    requires
        old(venv).wf(),
    ensures
        final(venv).wf(),
        final(venv)@ == inf(old(venv)@, *exp, iters@),
        venv_keys(*final(venv)) == dedup_append(venv_keys(*old(venv)), occ(*exp)),
    decreases exp,
{
    match &exp.node {
        ExpKind::Bool(_) | ExpKind::Num(_) | ExpKind::Text(_) => {},
        ExpKind::Var(id) => infer_var(venv, exp, id, iters),
        ExpKind::Un(_, _, x) | ExpKind::UpCast(_, x) | ExpKind::DownCast(_, x) | ExpKind::Sub(x, _)
        | ExpKind::Match(x, _) | ExpKind::Len(x) | ExpKind::Dot(x, _) => infer_exp_inner(venv, x, iters),
        ExpKind::Bin(_, _, l, r) | ExpKind::Cmp(_, _, l, r) | ExpKind::Cons(l, r) | ExpKind::Cat(l, r)
        | ExpKind::Mem(l, r) | ExpKind::Idx(l, r) => {
            proof {
                lemma_dedup_append_concat(venv_keys(*venv), occ(**l), occ(**r));
            }
            infer_exp_inner(venv, l, iters);
            infer_exp_inner(venv, r, iters);
        },
        ExpKind::Tuple(es) | ExpKind::List(es) => infer_exps_inner(venv, es, iters),
        ExpKind::Case(n) => infer_exps_inner(venv, &n.args, iters),
        ExpKind::Str(fs) => infer_fields_inner(venv, fs, iters),
        ExpKind::Opt(o) => match o {
            Some(x) => infer_exp_inner(venv, x, iters),
            None => {},
        },
        ExpKind::Slice(b, l, h) => {
            proof {
                lemma_dedup_append_concat(venv_keys(*venv), occ(**b), occ(**l));
                lemma_dedup_append_concat(venv_keys(*venv), occ(**b) + occ(**l), occ(**h));
            }
            infer_exp_inner(venv, b, iters);
            infer_exp_inner(venv, l, iters);
            infer_exp_inner(venv, h, iters);
        },
        ExpKind::Upd(b, p, f) => {
            proof {
                lemma_dedup_append_concat(venv_keys(*venv), occ(**b), occ_path(*p));
                lemma_dedup_append_concat(venv_keys(*venv), occ(**b) + occ_path(*p), occ(**f));
            }
            infer_exp_inner(venv, b, iters);
            infer_path_inner(venv, p, iters);
            infer_exp_inner(venv, f, iters);
        },
        ExpKind::Call(_, _, args) => infer_args_inner(venv, args, iters),
        ExpKind::Iter(x, it) => {
            let mut iters_inner: Vec<Iter> = Vec::new();
            iters_inner.push(it.iter);
            let mut rest = iters.clone();
            iters_inner.append(&mut rest);
            proof {
                assert(iters_inner@ =~= seq![it.iter] + iters@);
            }
            infer_exp_inner(venv, x, &iters_inner);
        },
    }
}

/// The variables of a list of expressions with their minimal dimensions.
pub fn infer_exps(exps: &Vec<Exp>) -> (v: VEnv)
    ensures
        v.wf(),
        v@ == inf_exps(Map::empty(), exps@, Seq::empty()),
        venv_keys(v) == dedup_append(Seq::empty(), occ_exps(exps@)),
        venv_entries(v.entries@) == inf_exps_entries(exps@),
{
    let mut venv = VEnv::new();
    proof {
        assert(venv_keys(venv) =~= Seq::<Seq<char>>::empty());
    }
    let iters: Vec<Iter> = Vec::new();
    infer_exps_inner(&mut venv, exps, &iters);
    proof {
        let es = venv_entries(venv.entries@);
        assert forall|i: int| 0 <= i < es.len() implies #[trigger] es[i] == inf_exps_entries(exps@)[i] by {
            crate::assoc::lemma_assoc_index(es, i);
            assert(venv_keys(venv)[i] == es[i].0);
        }
        assert(es =~= inf_exps_entries(exps@));
    }
    venv
}

#[verifier::loop_isolation(false)]
fn infer_exps_inner(venv: &mut VEnv, exps: &Vec<Exp>, iters: &Vec<Iter>)
    requires
        old(venv).wf(),
    ensures
        final(venv).wf(),
        final(venv)@ == inf_exps(old(venv)@, exps@, iters@),
        venv_keys(*final(venv)) == dedup_append(venv_keys(*old(venv)), occ_exps(exps@)),
    decreases exps,
{
    for i in 0..exps.len()
        invariant
            venv.wf(),
            venv@ == inf_exps(old(venv)@, exps@.take(i as int), iters@),
            venv_keys(*venv) == dedup_append(venv_keys(*old(venv)), occ_exps(exps@.take(i as int))),
    {
        proof {
            assert(decreases_to!(exps => exps[i as int]));
            assert(exps@.take(i + 1).drop_last() =~= exps@.take(i as int));
            lemma_dedup_append_concat(venv_keys(*old(venv)), occ_exps(exps@.take(i as int)), occ(exps@[i as int]));
        }
        infer_exp_inner(venv, &exps[i], iters);
    }
    assert(exps@.take(exps@.len() as int) =~= exps@);
}

#[verifier::loop_isolation(false)]
fn infer_fields_inner(venv: &mut VEnv, fields: &Vec<ExpField>, iters: &Vec<Iter>)
    requires
        old(venv).wf(),
    ensures
        final(venv).wf(),
        final(venv)@ == inf_fields(old(venv)@, fields@, iters@),
        venv_keys(*final(venv)) == dedup_append(venv_keys(*old(venv)), occ_fields(fields@)),
    decreases fields,
{
    for i in 0..fields.len()
        invariant
            venv.wf(),
            venv@ == inf_fields(old(venv)@, fields@.take(i as int), iters@),
            venv_keys(*venv) == dedup_append(venv_keys(*old(venv)), occ_fields(fields@.take(i as int))),
    {
        proof {
            assert(decreases_to!(fields => fields[i as int]));
            assert(decreases_to!(fields[i as int] => fields[i as int].exp));
            assert(fields@.take(i + 1).drop_last() =~= fields@.take(i as int));
            lemma_dedup_append_concat(venv_keys(*old(venv)), occ_fields(fields@.take(i as int)), occ(fields@[i as int].exp));
        }
        infer_exp_inner(venv, &fields[i].exp, iters);
    }
    assert(fields@.take(fields@.len() as int) =~= fields@);
}

// == Path inference

fn infer_path_inner(venv: &mut VEnv, path: &Path, iters: &Vec<Iter>)
    requires
        old(venv).wf(),
    ensures
        final(venv).wf(),
        final(venv)@ == inf_path(old(venv)@, *path, iters@),
        venv_keys(*final(venv)) == dedup_append(venv_keys(*old(venv)), occ_path(*path)),
    decreases path,
{
    match &path.node {
        PathKind::Root => {},
        PathKind::Idx(q, x) => {
            proof {
                lemma_dedup_append_concat(venv_keys(*venv), occ_path(**q), occ(**x));
            }
            infer_path_inner(venv, q, iters);
            infer_exp_inner(venv, x, iters);
        },
        PathKind::Slice(q, l, h) => {
            proof {
                lemma_dedup_append_concat(venv_keys(*venv), occ_path(**q), occ(**l));
                lemma_dedup_append_concat(venv_keys(*venv), occ_path(**q) + occ(**l), occ(**h));
            }
            infer_path_inner(venv, q, iters);
            infer_exp_inner(venv, l, iters);
            infer_exp_inner(venv, h, iters);
        },
        PathKind::Dot(q, _) => infer_path_inner(venv, q, iters),
    }
}

// == Argument inference

#[verifier::loop_isolation(false)]
fn infer_args_inner(venv: &mut VEnv, args: &Vec<Arg>, iters: &Vec<Iter>)
    requires
        old(venv).wf(),
    ensures
        final(venv).wf(),
        final(venv)@ == inf_args(old(venv)@, args@, iters@),
        venv_keys(*final(venv)) == dedup_append(venv_keys(*old(venv)), occ_args(args@)),
    decreases args,
{
    for i in 0..args.len()
        invariant
            venv.wf(),
            venv@ == inf_args(old(venv)@, args@.take(i as int), iters@),
            venv_keys(*venv) == dedup_append(venv_keys(*old(venv)), occ_args(args@.take(i as int))),
    {
        proof {
            assert(decreases_to!(args => args[i as int]));
            assert(args@.take(i + 1).drop_last() =~= args@.take(i as int));
            match args@[i as int].node {
                ArgKind::Exp(x) => lemma_dedup_append_concat(venv_keys(*old(venv)), occ_args(args@.take(i as int)), occ(*x)),
                ArgKind::Def(_) => {
                    assert(occ_args(args@.take(i as int)) + Seq::<Seq<char>>::empty() =~= occ_args(args@.take(i as int)));
                },
            }
        }
        if let ArgKind::Exp(x) = &args[i].node {
            proof {
                assert(decreases_to!(args[i as int] => args[i as int].node));
            }
            infer_exp_inner(venv, x, iters);
        }
    }
    assert(args@.take(args@.len() as int) =~= args@);
}

} // verus!
