//! Free variables of expressions.

use vstd::prelude::*;
use crate::il::{Exp, ExpKind, ExpField, Path, PathKind, Arg, ArgKind, ExpV, ExpKindV, PathV, ArgV,
    exp_view, exps_view, fields_view, path_view, args_view, arg_view};
use crate::il_typ::clone_id;
use crate::ids::IdSet;

verus! {

/// The names of the variables occurring in an expression.
pub open spec fn exp_free(e: Exp) -> Set<Seq<char>>
    decreases e,
{
    exp_kind_free(e.node)
}

pub open spec fn exp_kind_free(k: ExpKind) -> Set<Seq<char>>
    decreases k,
{
    match k {
        ExpKind::Bool(_) | ExpKind::Num(_) | ExpKind::Text(_) => Set::empty(),
        ExpKind::Var(id) => Set::empty().insert(id@),
        ExpKind::Un(_, _, e) => exp_free(*e),
        ExpKind::Bin(_, _, l, r) => exp_free(*l).union(exp_free(*r)),
        ExpKind::Cmp(_, _, l, r) => exp_free(*l).union(exp_free(*r)),
        ExpKind::UpCast(_, e) => exp_free(*e),
        ExpKind::DownCast(_, e) => exp_free(*e),
        ExpKind::Sub(e, _) => exp_free(*e),
        ExpKind::Match(e, _) => exp_free(*e),
        ExpKind::Tuple(es) => exps_free(es@),
        ExpKind::Case(n) => exps_free(n.args@),
        ExpKind::Str(fs) => fields_free(fs@),
        ExpKind::Opt(o) => match o {
            Some(e) => exp_free(*e),
            None => Set::empty(),
        },
        ExpKind::List(es) => exps_free(es@),
        ExpKind::Cons(l, r) => exp_free(*l).union(exp_free(*r)),
        ExpKind::Cat(l, r) => exp_free(*l).union(exp_free(*r)),
        ExpKind::Mem(l, r) => exp_free(*l).union(exp_free(*r)),
        ExpKind::Len(e) => exp_free(*e),
        ExpKind::Dot(e, _) => exp_free(*e),
        ExpKind::Idx(l, r) => exp_free(*l).union(exp_free(*r)),
        ExpKind::Slice(b, l, h) => exp_free(*b).union(exp_free(*l)).union(exp_free(*h)),
        ExpKind::Upd(b, p, f) => exp_free(*b).union(path_free(p)).union(exp_free(*f)),
        ExpKind::Call(_, _, args) => args_free(args@),
        ExpKind::Iter(e, _) => exp_free(*e),
    }
}

pub open spec fn exps_free(es: Seq<Exp>) -> Set<Seq<char>>
    decreases es,
{
    if es.len() == 0 {
        Set::empty()
    } else {
        exps_free(es.drop_last()).union(exp_free(es.last()))
    }
}

pub open spec fn fields_free(fs: Seq<ExpField>) -> Set<Seq<char>>
    decreases fs,
{
    if fs.len() == 0 {
        Set::empty()
    } else {
        fields_free(fs.drop_last()).union(exp_free(fs.last().exp))
    }
}

pub open spec fn path_free(p: Path) -> Set<Seq<char>>
    decreases p,
{
    match p.node {
        PathKind::Root => Set::empty(),
        PathKind::Idx(q, e) => path_free(*q).union(exp_free(*e)),
        PathKind::Slice(q, l, h) => path_free(*q).union(exp_free(*l)).union(exp_free(*h)),
        PathKind::Dot(q, _) => path_free(*q),
    }
}

pub open spec fn args_free(args: Seq<Arg>) -> Set<Seq<char>>
    decreases args,
{
    if args.len() == 0 {
        Set::empty()
    } else {
        args_free(args.drop_last()).union(
            match args.last().node {
                ArgKind::Exp(e) => exp_free(*e),
                ArgKind::Def(_) => Set::empty(),
            },
        )
    }
}

/// The names of the variables occurring in an expression view.
pub open spec fn expv_free(e: ExpV) -> Set<Seq<char>>
    decreases e,
{
    match e.node {
        ExpKindV::Bool(_) | ExpKindV::Num(_) | ExpKindV::Text(_) => Set::empty(),
        ExpKindV::Var(id) => Set::empty().insert(id),
        ExpKindV::Un(_, _, e) => expv_free(*e),
        ExpKindV::Bin(_, _, l, r) => expv_free(*l).union(expv_free(*r)),
        ExpKindV::Cmp(_, _, l, r) => expv_free(*l).union(expv_free(*r)),
        ExpKindV::UpCast(_, e) => expv_free(*e),
        ExpKindV::DownCast(_, e) => expv_free(*e),
        ExpKindV::Sub(e, _) => expv_free(*e),
        ExpKindV::Match(e, _) => expv_free(*e),
        ExpKindV::Tuple(es) => expvs_free(es),
        ExpKindV::Case(_, es) => expvs_free(es),
        ExpKindV::Str(_, es) => expvs_free(es),
        ExpKindV::Opt(o) => match o {
            Some(e) => expv_free(*e),
            None => Set::empty(),
        },
        ExpKindV::List(es) => expvs_free(es),
        ExpKindV::Cons(l, r) => expv_free(*l).union(expv_free(*r)),
        ExpKindV::Cat(l, r) => expv_free(*l).union(expv_free(*r)),
        ExpKindV::Mem(l, r) => expv_free(*l).union(expv_free(*r)),
        ExpKindV::Len(e) => expv_free(*e),
        ExpKindV::Dot(e, _) => expv_free(*e),
        ExpKindV::Idx(l, r) => expv_free(*l).union(expv_free(*r)),
        ExpKindV::Slice(b, l, h) => expv_free(*b).union(expv_free(*l)).union(expv_free(*h)),
        ExpKindV::Upd(b, p, f) => expv_free(*b).union(pathv_free(p)).union(expv_free(*f)),
        ExpKindV::Call(_, _, args) => argsv_free(args),
        ExpKindV::Iter(e, _, _) => expv_free(*e),
    }
}

pub open spec fn expvs_free(es: Seq<ExpV>) -> Set<Seq<char>>
    decreases es,
{
    if es.len() == 0 {
        Set::empty()
    } else {
        expvs_free(es.drop_last()).union(expv_free(es.last()))
    }
}

pub open spec fn pathv_free(p: PathV) -> Set<Seq<char>>
    decreases p,
{
    match p {
        PathV::Root => Set::empty(),
        PathV::Idx(q, e) => pathv_free(*q).union(expv_free(*e)),
        PathV::Slice(q, l, h) => pathv_free(*q).union(expv_free(*l)).union(expv_free(*h)),
        PathV::Dot(q, _) => pathv_free(*q),
    }
}

pub open spec fn argsv_free(args: Seq<ArgV>) -> Set<Seq<char>>
    decreases args,
{
    if args.len() == 0 {
        Set::empty()
    } else {
        argsv_free(args.drop_last()).union(
            match args.last() {
                ArgV::Exp(e) => expv_free(*e),
                ArgV::Def(_) => Set::empty(),
            },
        )
    }
}

/// The free variables of an expression are those of its view.
pub proof fn lemma_free_view(e: Exp)
    ensures
        exp_free(e) == expv_free(exp_view(e)),
    decreases e,
{
    match e.node {
        ExpKind::Un(_, _, x) => lemma_free_view(*x),
        ExpKind::Bin(_, _, l, r) => { lemma_free_view(*l); lemma_free_view(*r); },
        ExpKind::Cmp(_, _, l, r) => { lemma_free_view(*l); lemma_free_view(*r); },
        ExpKind::UpCast(_, x) => lemma_free_view(*x),
        ExpKind::DownCast(_, x) => lemma_free_view(*x),
        ExpKind::Sub(x, _) => lemma_free_view(*x),
        ExpKind::Match(x, _) => lemma_free_view(*x),
        ExpKind::Tuple(es) => lemma_free_view_exps(es@),
        ExpKind::Case(n) => lemma_free_view_exps(n.args@),
        ExpKind::Str(fs) => lemma_free_view_fields(fs@),
        ExpKind::Opt(o) => match o {
            Some(x) => lemma_free_view(*x),
            None => {},
        },
        ExpKind::List(es) => lemma_free_view_exps(es@),
        ExpKind::Cons(l, r) => { lemma_free_view(*l); lemma_free_view(*r); },
        ExpKind::Cat(l, r) => { lemma_free_view(*l); lemma_free_view(*r); },
        ExpKind::Mem(l, r) => { lemma_free_view(*l); lemma_free_view(*r); },
        ExpKind::Len(x) => lemma_free_view(*x),
        ExpKind::Dot(x, _) => lemma_free_view(*x),
        ExpKind::Idx(l, r) => { lemma_free_view(*l); lemma_free_view(*r); },
        ExpKind::Slice(b, l, h) => { lemma_free_view(*b); lemma_free_view(*l); lemma_free_view(*h); },
        ExpKind::Upd(b, p, f) => { lemma_free_view(*b); lemma_free_view_path(p); lemma_free_view(*f); },
        ExpKind::Call(_, _, args) => lemma_free_view_args(args@),
        ExpKind::Iter(x, _) => lemma_free_view(*x),
        _ => {},
    }
}

pub proof fn lemma_free_view_exps(es: Seq<Exp>)
    ensures
        exps_free(es) == expvs_free(exps_view(es)),
    decreases es,
{
    if es.len() > 0 {
        lemma_free_view_exps(es.drop_last());
        lemma_free_view(es.last());
        assert(exps_view(es).drop_last() =~= exps_view(es.drop_last()));
    }
}

pub proof fn lemma_free_view_fields(fs: Seq<ExpField>)
    ensures
        fields_free(fs) == expvs_free(fields_view(fs)),
    decreases fs,
{
    if fs.len() > 0 {
        lemma_free_view_fields(fs.drop_last());
        lemma_free_view(fs.last().exp);
        assert(fields_view(fs).drop_last() =~= fields_view(fs.drop_last()));
    }
}

pub proof fn lemma_free_view_path(p: Path)
    ensures
        path_free(p) == pathv_free(path_view(p)),
    decreases p,
{
    match p.node {
        PathKind::Root => {},
        PathKind::Idx(q, e) => { lemma_free_view_path(*q); lemma_free_view(*e); },
        PathKind::Slice(q, l, h) => { lemma_free_view_path(*q); lemma_free_view(*l); lemma_free_view(*h); },
        PathKind::Dot(q, _) => lemma_free_view_path(*q),
    }
}

pub proof fn lemma_free_view_args(args: Seq<Arg>)
    ensures
        args_free(args) == argsv_free(args_view(args)),
    decreases args,
{
    if args.len() > 0 {
        lemma_free_view_args(args.drop_last());
        match args.last().node {
            ArgKind::Exp(e) => lemma_free_view(*e),
            ArgKind::Def(_) => {},
        }
        assert(args_view(args).drop_last() =~= args_view(args.drop_last()));
        assert(args_view(args).last() == arg_view(args.last()));
    }
}

/// The variables occurring in an expression.
pub fn free(e: &Exp) -> (s: IdSet)
    ensures
        s@ == exp_free(*e),
{
    let mut s = IdSet::new();
    free_exp(e, &mut s);
    assert(s@ =~= exp_free(*e));
    s
}

/// Adds the variables occurring in `e` to `acc`.
pub fn free_exp(e: &Exp, acc: &mut IdSet)
    ensures
        final(acc)@ == old(acc)@.union(exp_free(*e)),
    decreases e,
{
    match &e.node {
        ExpKind::Bool(_) | ExpKind::Num(_) | ExpKind::Text(_) => {
            assert(old(acc)@.union(exp_free(*e)) =~= old(acc)@);
        },
        ExpKind::Var(id) => {
            acc.insert(clone_id(id));
            assert(old(acc)@.insert(id@) =~= old(acc)@.union(exp_free(*e)));
        },
        ExpKind::Un(_, _, x) | ExpKind::UpCast(_, x) | ExpKind::DownCast(_, x) | ExpKind::Sub(x, _)
        | ExpKind::Match(x, _) | ExpKind::Len(x) | ExpKind::Dot(x, _) | ExpKind::Iter(x, _) => {
            free_exp(x, acc);
        },
        ExpKind::Bin(_, _, l, r) | ExpKind::Cmp(_, _, l, r) | ExpKind::Cons(l, r) | ExpKind::Cat(l, r)
        | ExpKind::Mem(l, r) | ExpKind::Idx(l, r) => {
            free_exp(l, acc);
            free_exp(r, acc);
            assert(old(acc)@.union(exp_free(**l)).union(exp_free(**r)) =~= old(acc)@.union(exp_free(*e)));
        },
        ExpKind::Tuple(es) | ExpKind::List(es) => {
            free_exps(es, acc);
        },
        ExpKind::Case(n) => {
            free_exps(&n.args, acc);
        },
        ExpKind::Str(fs) => {
            free_fields(fs, acc);
        },
        ExpKind::Opt(o) => match o {
            Some(x) => free_exp(x, acc),
            None => {
                assert(old(acc)@.union(exp_free(*e)) =~= old(acc)@);
            },
        },
        ExpKind::Slice(b, l, h) => {
            free_exp(b, acc);
            free_exp(l, acc);
            free_exp(h, acc);
            assert(old(acc)@.union(exp_free(**b)).union(exp_free(**l)).union(exp_free(**h)) =~= old(acc)@.union(exp_free(*e)));
        },
        ExpKind::Upd(b, p, f) => {
            free_exp(b, acc);
            free_path(p, acc);
            free_exp(f, acc);
            assert(old(acc)@.union(exp_free(**b)).union(path_free(*p)).union(exp_free(**f)) =~= old(acc)@.union(exp_free(*e)));
        },
        ExpKind::Call(_, _, args) => {
            free_args(args, acc);
        },
    }
}

/// Adds the variables occurring in `es` to `acc`.
#[verifier::loop_isolation(false)]
pub fn free_exps(es: &Vec<Exp>, acc: &mut IdSet)
    ensures
        final(acc)@ == old(acc)@.union(exps_free(es@)),
    decreases es,
{
    for i in 0..es.len()
        invariant
            acc@ == old(acc)@.union(exps_free(es@.take(i as int))),
    {
        proof {
            assert(decreases_to!(es => es[i as int]));
            assert(es@.take(i + 1).drop_last() =~= es@.take(i as int));
        }
        free_exp(&es[i], acc);
        assert(acc@ =~= old(acc)@.union(exps_free(es@.take(i + 1))));
    }
    assert(es@.take(es.len() as int) =~= es@);
}

/// Adds the variables occurring in the fields `fs` to `acc`.
#[verifier::loop_isolation(false)]
pub fn free_fields(fs: &Vec<ExpField>, acc: &mut IdSet)
    ensures
        final(acc)@ == old(acc)@.union(fields_free(fs@)),
    decreases fs,
{
    for i in 0..fs.len()
        invariant
            acc@ == old(acc)@.union(fields_free(fs@.take(i as int))),
    {
        proof {
            assert(decreases_to!(fs => fs[i as int]));
            assert(decreases_to!(fs[i as int] => fs[i as int].exp));
            assert(fs@.take(i + 1).drop_last() =~= fs@.take(i as int));
        }
        free_exp(&fs[i].exp, acc);
        assert(acc@ =~= old(acc)@.union(fields_free(fs@.take(i + 1))));
    }
    assert(fs@.take(fs.len() as int) =~= fs@);
}

/// Adds the variables occurring in the path `p` to `acc`.
pub fn free_path(p: &Path, acc: &mut IdSet)
    ensures
        final(acc)@ == old(acc)@.union(path_free(*p)),
    decreases p,
{
    match &p.node {
        PathKind::Root => {
            assert(old(acc)@.union(path_free(*p)) =~= old(acc)@);
        },
        PathKind::Idx(q, x) => {
            free_path(q, acc);
            free_exp(x, acc);
            assert(old(acc)@.union(path_free(**q)).union(exp_free(**x)) =~= old(acc)@.union(path_free(*p)));
        },
        PathKind::Slice(q, l, h) => {
            free_path(q, acc);
            free_exp(l, acc);
            free_exp(h, acc);
            assert(old(acc)@.union(path_free(**q)).union(exp_free(**l)).union(exp_free(**h)) =~= old(acc)@.union(path_free(*p)));
        },
        PathKind::Dot(q, _) => {
            free_path(q, acc);
        },
    }
}

/// Adds the variables occurring in the arguments `args` to `acc`.
#[verifier::loop_isolation(false)]
pub fn free_args(args: &Vec<Arg>, acc: &mut IdSet)
    ensures
        final(acc)@ == old(acc)@.union(args_free(args@)),
    decreases args,
{
    for i in 0..args.len()
        invariant
            acc@ == old(acc)@.union(args_free(args@.take(i as int))),
    {
        proof {
            assert(decreases_to!(args => args[i as int]));
            assert(args@.take(i + 1).drop_last() =~= args@.take(i as int));
        }
        match &args[i].node {
            ArgKind::Exp(x) => {
                proof {
                    assert(decreases_to!(args[i as int] => args[i as int].node));
                }
                free_exp(x, acc);
            },
            ArgKind::Def(_) => {},
        }
        assert(acc@ =~= old(acc)@.union(args_free(args@.take(i + 1))));
    }
    assert(args@.take(args.len() as int) =~= args@);
}

} // verus!
