//! Free variables of an expression, each with its type and the
//! iterations it occurs under, in order of first occurrence: a variable
//! occurring under an iteration that ranges over it gains that iteration.

use vstd::prelude::*;
use crate::il::{Arg, ArgKind, Exp, ExpField, ExpKind, Path, PathKind, Typ, Var, VarV, Iter, var_view, vars_view, typ_view};
use crate::il_typ::{clone_id, clone_typ_kind, clone_var};
use crate::il_sub::{occurs, occurs_in, occurs_in_args, occurs_in_fields, occurs_in_path};

verus! {

/// Two variables are the same: same name, same iterations.
pub open spec fn same_var(a: VarV, b: VarV) -> bool {
    a.id == b.id && a.iters == b.iters
}

/// `vs` already holds a variable that is the same as `w`.
pub open spec fn has_var(vs: Seq<VarV>, w: VarV) -> bool {
    exists|i: int| 0 <= i < vs.len() && same_var(#[trigger] vs[i], w)
}

/// `vs` extended by the variables of `ws`, in order, each unless already there.
pub open spec fn extend(vs: Seq<VarV>, ws: Seq<VarV>) -> Seq<VarV>
    decreases ws.len(),
{
    if ws.len() == 0 {
        vs
    } else {
        let w = ws.last();
        let e = extend(vs, ws.drop_last());
        if has_var(e, w) { e } else { e.push(w) }
    }
}

/// `v` with the iteration `it` added where one of `bound` is the same.
pub open spec fn lift_var(v: VarV, it: Iter, bound: Seq<VarV>) -> VarV {
    if has_var(bound, v) { VarV { iters: v.iters.push(it), ..v } } else { v }
}

/// The free variables of an expression.
pub open spec fn fv(e: Exp) -> Seq<VarV>
    decreases e,
{
    match e.node {
        ExpKind::Bool(_) | ExpKind::Num(_) | ExpKind::Text(_) => Seq::empty(),
        ExpKind::Var(id) => seq![VarV { id: id@, typ: typ_view(Typ { node: e.note, span: e.span }), iters: Seq::empty() }],
        ExpKind::Un(_, _, x) => fv(*x),
        ExpKind::UpCast(_, x) => fv(*x),
        ExpKind::DownCast(_, x) => fv(*x),
        ExpKind::Sub(x, _) => fv(*x),
        ExpKind::Match(x, _) => fv(*x),
        ExpKind::Len(x) => fv(*x),
        ExpKind::Dot(x, _) => fv(*x),
        ExpKind::Bin(_, _, l, r) => extend(fv(*l), fv(*r)),
        ExpKind::Cmp(_, _, l, r) => extend(fv(*l), fv(*r)),
        ExpKind::Cons(l, r) => extend(fv(*l), fv(*r)),
        ExpKind::Cat(l, r) => extend(fv(*l), fv(*r)),
        ExpKind::Mem(l, r) => extend(fv(*l), fv(*r)),
        ExpKind::Idx(l, r) => extend(fv(*l), fv(*r)),
        ExpKind::Tuple(es) => fv_exps(es@),
        ExpKind::List(es) => fv_exps(es@),
        ExpKind::Case(n) => fv_exps(n.args@),
        ExpKind::Str(fs) => fv_fields(fs@),
        ExpKind::Opt(o) => match o {
            Some(x) => fv(*x),
            None => Seq::empty(),
        },
        ExpKind::Slice(b, l, h) => extend(extend(fv(*b), fv(*l)), fv(*h)),
        ExpKind::Upd(b, p, f) => extend(extend(fv(*b), fv_path(p)), fv(*f)),
        ExpKind::Call(_, _, args) => fv_args(args@),
        ExpKind::Iter(x, it) => {
            let inner = fv(*x);
            Seq::new(inner.len(), |i: int| lift_var(inner[i], it.iter, vars_view(it.vars@)))
        },
    }
}

/// The free variables of a list of expressions, each list extending the last.
pub open spec fn fv_exps(es: Seq<Exp>) -> Seq<VarV>
    decreases es,
{
    if es.len() == 0 {
        Seq::empty()
    } else {
        extend(fv_exps(es.drop_last()), fv(es.last()))
    }
}

/// The free variables of the fields of a structure.
pub open spec fn fv_fields(fs: Seq<ExpField>) -> Seq<VarV>
    decreases fs,
{
    if fs.len() == 0 {
        Seq::empty()
    } else {
        extend(fv_fields(fs.drop_last()), fv(fs.last().exp))
    }
}

/// The free variables of an update path.
pub open spec fn fv_path(p: Path) -> Seq<VarV>
    decreases p,
{
    match p.node {
        PathKind::Root => Seq::empty(),
        PathKind::Idx(q, e) => extend(fv_path(*q), fv(*e)),
        PathKind::Slice(q, l, h) => extend(extend(fv_path(*q), fv(*l)), fv(*h)),
        PathKind::Dot(q, _) => fv_path(*q),
    }
}

/// The free variables of an argument: a function name has none.
pub open spec fn fv_arg(a: Arg) -> Seq<VarV>
    decreases a,
{
    match a.node {
        ArgKind::Exp(e) => fv(*e),
        ArgKind::Def(_) => Seq::empty(),
    }
}

/// The free variables of call arguments.
pub open spec fn fv_args(args: Seq<Arg>) -> Seq<VarV>
    decreases args,
{
    if args.len() == 0 {
        Seq::empty()
    } else {
        extend(fv_args(args.drop_last()), fv_arg(args.last()))
    }
}

/// Whether two variables are the same: same name, same iterations.
pub fn var_eq(a: &Var, b: &Var) -> (r: bool)
    ensures
        r == same_var(var_view(*a), var_view(*b)),
{
    let same_iters = a.iters.len() == b.iters.len() && {
        let mut k: usize = 0;
        let mut ok = true;
        while k < a.iters.len()
            invariant
                a.iters@.len() == b.iters@.len(),
                k <= a.iters@.len(),
                ok == forall|j: int| 0 <= j < k ==> a.iters@[j] == b.iters@[j],
            decreases a.iters@.len() - k,
        {
            if a.iters[k] != b.iters[k] {
                ok = false;
            }
            k = k + 1;
        }
        proof {
            if ok {
                assert(a.iters@ =~= b.iters@);
            }
        }
        ok
    };
    a.id.node == b.id.node && same_iters
}

/// Extends `vars` by those of `others`, in order, each unless already there.
pub fn extend_vars(vars: &mut Vec<Var>, others: Vec<Var>)
    ensures
        vars_view(final(vars)@) == extend(vars_view(old(vars)@), vars_view(others@)),
{
    let ghost v0 = vars_view(vars@);
    let ghost ws = vars_view(others@);
    for i in 0..others.len()
        invariant
            ws == vars_view(others@),
            vars_view(vars@) == extend(v0, ws.take(i as int)),
    {
        proof {
            assert(ws.take(i + 1).drop_last() =~= ws.take(i as int));
            assert(ws.take(i + 1).last() == ws[i as int]);
        }
        let mut found = false;
        let mut k: usize = 0;
        while k < vars.len()
            invariant
                k <= vars@.len(),
                ws == vars_view(others@),
                i < others@.len(),
                found == exists|j: int| 0 <= j < k && same_var(#[trigger] vars_view(vars@)[j], ws[i as int]),
            decreases vars@.len() - k,
        {
            let eq = var_eq(&vars[k], &others[i]);
            proof {
                assert(vars_view(vars@)[k as int] == var_view(vars@[k as int]));
                assert(ws[i as int] == var_view(others@[i as int]));
                if eq {
                    assert(same_var(vars_view(vars@)[k as int], ws[i as int]));
                } else {
                    assert forall|j: int| 0 <= j < k + 1 && same_var(#[trigger] vars_view(vars@)[j], ws[i as int]) implies 0 <= j < k by {}
                }
            }
            if eq {
                found = true;
            }
            k = k + 1;
        }
        if !found {
            let ghost before = vars@;
            vars.push(clone_var(&others[i]));
            proof {
                assert(vars_view(vars@) =~= vars_view(before).push(ws[i as int]));
            }
        }
    }
    proof {
        assert(ws.take(others@.len() as int) =~= ws);
    }
}

/// Whether `vars` holds a variable that is the same as `v`.
fn has_same_var(vars: &Vec<Var>, v: &Var) -> (r: bool)
    ensures
        r == has_var(vars_view(vars@), var_view(*v)),
{
    let mut k: usize = 0;
    while k < vars.len()
        invariant
            k <= vars@.len(),
            forall|j: int| 0 <= j < k ==> !same_var(#[trigger] vars_view(vars@)[j], var_view(*v)),
        decreases vars@.len() - k,
    {
        let eq = var_eq(&vars[k], v);
        assert(vars_view(vars@)[k as int] == var_view(vars@[k as int]));
        if eq {
            return true;
        }
        k = k + 1;
    }
    false
}

/// The variables `vs`, each the same as one of `bound` gaining the
/// iteration `it`.
fn lift_vars(vs: &Vec<Var>, it: Iter, bound: &Vec<Var>) -> (r: Vec<Var>)
    ensures
        vars_view(r@) == Seq::new(vs@.len(), |i: int| lift_var(vars_view(vs@)[i], it, vars_view(bound@))),
{
    let mut out: Vec<Var> = Vec::new();
    for i in 0..vs.len()
        invariant
            out@.len() == i,
            forall|j: int| 0 <= j < i ==> var_view(#[trigger] out@[j]) == lift_var(vars_view(vs@)[j], it, vars_view(bound@)),
    {
        let mut w = clone_var(&vs[i]);
        assert(vars_view(vs@)[i as int] == var_view(vs@[i as int]));
        if has_same_var(bound, &vs[i]) {
            w.iters.push(it);
        }
        out.push(w);
    }
    assert(vars_view(out@) =~= Seq::new(vs@.len(), |i: int| lift_var(vars_view(vs@)[i], it, vars_view(bound@))));
    out
}

/// The free variables of an expression, each with its type and the
/// iterations it occurs under, in order of first occurrence.
pub fn free_vars_exp(e: &Exp) -> (r: Vec<Var>)
    ensures
        vars_view(r@) == fv(*e),
    decreases e,
{
    match &e.node {
        ExpKind::Bool(_) | ExpKind::Num(_) | ExpKind::Text(_) => {
            let r: Vec<Var> = Vec::new();
            assert(vars_view(r@) =~= Seq::<VarV>::empty());
            r
        },
        ExpKind::Var(id) => {
            let v = Var { id: clone_id(id), typ: Typ { node: clone_typ_kind(&e.note), span: e.span }, iters: Vec::new() };
            let mut r: Vec<Var> = Vec::new();
            r.push(v);
            proof {
                assert(v.iters@ =~= Seq::<Iter>::empty());
                assert(vars_view(r@) =~= fv(*e));
            }
            r
        },
        ExpKind::Un(_, _, x) | ExpKind::UpCast(_, x) | ExpKind::DownCast(_, x) | ExpKind::Sub(x, _)
        | ExpKind::Match(x, _) | ExpKind::Len(x) | ExpKind::Dot(x, _) => free_vars_exp(x),
        ExpKind::Bin(_, _, l, r) | ExpKind::Cmp(_, _, l, r) | ExpKind::Cons(l, r) | ExpKind::Cat(l, r)
        | ExpKind::Mem(l, r) | ExpKind::Idx(l, r) => {
            let mut vars = free_vars_exp(l);
            extend_vars(&mut vars, free_vars_exp(r));
            vars
        },
        ExpKind::Tuple(es) | ExpKind::List(es) => free_vars_exps(es),
        ExpKind::Case(n) => free_vars_exps(&n.args),
        ExpKind::Str(fs) => free_vars_fields(fs),
        ExpKind::Opt(o) => match o {
            Some(x) => free_vars_exp(x),
            None => {
                let r: Vec<Var> = Vec::new();
                assert(vars_view(r@) =~= Seq::<VarV>::empty());
                r
            },
        },
        ExpKind::Slice(b, l, h) => {
            let mut vars = free_vars_exp(b);
            extend_vars(&mut vars, free_vars_exp(l));
            extend_vars(&mut vars, free_vars_exp(h));
            vars
        },
        ExpKind::Upd(b, p, f) => {
            let mut vars = free_vars_exp(b);
            extend_vars(&mut vars, free_vars_path(p));
            extend_vars(&mut vars, free_vars_exp(f));
            vars
        },
        ExpKind::Call(_, _, args) => free_vars_args(args),
        ExpKind::Iter(x, it) => {
            let inner = free_vars_exp(x);
            let r = lift_vars(&inner, it.iter, &it.vars);
            assert(vars_view(r@) =~= fv(*e));
            r
        },
    }
}

/// The free variables of a list of expressions, in order.
pub fn free_vars_exps(es: &Vec<Exp>) -> (r: Vec<Var>)
    ensures
        vars_view(r@) == fv_exps(es@),
    decreases es,
{
    let mut vars: Vec<Var> = Vec::new();
    assert(vars_view(vars@) =~= Seq::<VarV>::empty());
    for i in 0..es.len()
        invariant
            vars_view(vars@) == fv_exps(es@.take(i as int)),
    {
        proof {
            assert(decreases_to!(es => es@[i as int]));
            assert(es@.take(i + 1).drop_last() =~= es@.take(i as int));
        }
        extend_vars(&mut vars, free_vars_exp(&es[i]));
    }
    assert(es@.take(es.len() as int) =~= es@);
    vars
}

/// The free variables of the fields of a structure, in order.
pub fn free_vars_fields(fs: &Vec<ExpField>) -> (r: Vec<Var>)
    ensures
        vars_view(r@) == fv_fields(fs@),
    decreases fs,
{
    let mut vars: Vec<Var> = Vec::new();
    assert(vars_view(vars@) =~= Seq::<VarV>::empty());
    for i in 0..fs.len()
        invariant
            vars_view(vars@) == fv_fields(fs@.take(i as int)),
    {
        proof {
            assert(decreases_to!(fs => fs@[i as int]));
            assert(decreases_to!(fs@[i as int] => fs@[i as int].exp));
            assert(fs@.take(i + 1).drop_last() =~= fs@.take(i as int));
        }
        extend_vars(&mut vars, free_vars_exp(&fs[i].exp));
    }
    assert(fs@.take(fs.len() as int) =~= fs@);
    vars
}

/// The free variables of an update path.
pub fn free_vars_path(p: &Path) -> (r: Vec<Var>)
    ensures
        vars_view(r@) == fv_path(*p),
    decreases p,
{
    match &p.node {
        PathKind::Root => {
            let r: Vec<Var> = Vec::new();
            assert(vars_view(r@) =~= Seq::<VarV>::empty());
            r
        },
        PathKind::Idx(q, e) => {
            let mut vars = free_vars_path(q);
            extend_vars(&mut vars, free_vars_exp(e));
            vars
        },
        PathKind::Slice(q, l, h) => {
            let mut vars = free_vars_path(q);
            extend_vars(&mut vars, free_vars_exp(l));
            extend_vars(&mut vars, free_vars_exp(h));
            vars
        },
        PathKind::Dot(q, _) => free_vars_path(q),
    }
}

/// The free variables of an argument: a function name has none.
pub fn free_vars_arg(a: &Arg) -> (r: Vec<Var>)
    ensures
        vars_view(r@) == fv_arg(*a),
    decreases a,
{
    match &a.node {
        ArgKind::Exp(e) => free_vars_exp(e),
        ArgKind::Def(_) => {
            let r: Vec<Var> = Vec::new();
            assert(vars_view(r@) =~= Seq::<VarV>::empty());
            r
        },
    }
}

/// The free variables of call arguments, in order.
pub fn free_vars_args(args: &Vec<Arg>) -> (r: Vec<Var>)
    ensures
        vars_view(r@) == fv_args(args@),
    decreases args,
{
    let mut vars: Vec<Var> = Vec::new();
    assert(vars_view(vars@) =~= Seq::<VarV>::empty());
    for i in 0..args.len()
        invariant
            vars_view(vars@) == fv_args(args@.take(i as int)),
    {
        proof {
            assert(decreases_to!(args => args@[i as int]));
            assert(args@.take(i + 1).drop_last() =~= args@.take(i as int));
        }
        extend_vars(&mut vars, free_vars_arg(&args[i]));
    }
    assert(args@.take(args.len() as int) =~= args@);
    vars
}

// == Laws of free variables

/// One of `vs` has the name `n`.
pub open spec fn has_name(vs: Seq<VarV>, n: Seq<char>) -> bool {
    exists|i: int| 0 <= i < vs.len() && (#[trigger] vs[i]).id == n
}

/// Extending keeps every name of both lists.
pub proof fn lemma_extend_names(vs: Seq<VarV>, ws: Seq<VarV>, n: Seq<char>)
    requires
        has_name(vs, n) || has_name(ws, n),
    ensures
        has_name(extend(vs, ws), n),
    decreases ws.len(),
{
    if ws.len() > 0 {
        let w = ws.last();
        let d = ws.drop_last();
        let e = extend(vs, d);
        if has_name(vs, n) || has_name(d, n) {
            lemma_extend_names(vs, d, n);
        } else {
            let i = choose|i: int| 0 <= i < ws.len() && (#[trigger] ws[i]).id == n;
            if i < d.len() {
                assert(d[i] == ws[i]);
                assert(false);
            }
            assert(w.id == n);
            if has_var(e, w) {
                let j = choose|j: int| 0 <= j < e.len() && same_var(#[trigger] e[j], w);
                assert(e[j].id == n);
            } else {
                assert(e.push(w)[e.len() as int] == w);
            }
        }
        if has_name(e, n) {
            let j = choose|j: int| 0 <= j < e.len() && (#[trigger] e[j]).id == n;
            if !has_var(e, w) {
                assert(e.push(w)[j] == e[j]);
            }
        }
    }
}

/// Every variable occurring in an expression, inside call arguments,
/// fields, update paths and iterations included, is among its free
/// variables by name.
pub proof fn lemma_fv_complete(v: Exp, e: Exp)
    requires
        occurs(v, e),
        v.node is Var,
    ensures
        has_name(fv(e), v.node->Var_0@),
    decreases e,
{
    let n = v.node->Var_0@;
    if v == e {
        assert(fv(e)[0].id == n);
    } else {
        match e.node {
            ExpKind::Bool(_) | ExpKind::Num(_) | ExpKind::Text(_) | ExpKind::Var(_) => {},
            ExpKind::Un(_, _, x) => lemma_fv_complete(v, *x),
            ExpKind::UpCast(_, x) => lemma_fv_complete(v, *x),
            ExpKind::DownCast(_, x) => lemma_fv_complete(v, *x),
            ExpKind::Sub(x, _) => lemma_fv_complete(v, *x),
            ExpKind::Match(x, _) => lemma_fv_complete(v, *x),
            ExpKind::Len(x) => lemma_fv_complete(v, *x),
            ExpKind::Dot(x, _) => lemma_fv_complete(v, *x),
            ExpKind::Iter(x, it) => {
                lemma_fv_complete(v, *x);
                let inner = fv(*x);
                let i = choose|i: int| 0 <= i < inner.len() && (#[trigger] inner[i]).id == n;
                let out = Seq::new(inner.len(), |k: int| lift_var(inner[k], it.iter, vars_view(it.vars@)));
                assert(out[i].id == n);
            },
            ExpKind::Bin(_, _, l, r) => {
                if occurs(v, *l) {
                    lemma_fv_complete(v, *l);
                } else {
                    lemma_fv_complete(v, *r);
                }
                lemma_extend_names(fv(*l), fv(*r), n);
            },
            ExpKind::Cmp(_, _, l, r) => {
                if occurs(v, *l) {
                    lemma_fv_complete(v, *l);
                } else {
                    lemma_fv_complete(v, *r);
                }
                lemma_extend_names(fv(*l), fv(*r), n);
            },
            ExpKind::Cons(l, r) => {
                if occurs(v, *l) {
                    lemma_fv_complete(v, *l);
                } else {
                    lemma_fv_complete(v, *r);
                }
                lemma_extend_names(fv(*l), fv(*r), n);
            },
            ExpKind::Cat(l, r) => {
                if occurs(v, *l) {
                    lemma_fv_complete(v, *l);
                } else {
                    lemma_fv_complete(v, *r);
                }
                lemma_extend_names(fv(*l), fv(*r), n);
            },
            ExpKind::Mem(l, r) => {
                if occurs(v, *l) {
                    lemma_fv_complete(v, *l);
                } else {
                    lemma_fv_complete(v, *r);
                }
                lemma_extend_names(fv(*l), fv(*r), n);
            },
            ExpKind::Idx(l, r) => {
                if occurs(v, *l) {
                    lemma_fv_complete(v, *l);
                } else {
                    lemma_fv_complete(v, *r);
                }
                lemma_extend_names(fv(*l), fv(*r), n);
            },
            ExpKind::Tuple(es) => lemma_fv_complete_exps(v, es@),
            ExpKind::List(es) => lemma_fv_complete_exps(v, es@),
            ExpKind::Case(ne) => lemma_fv_complete_exps(v, ne.args@),
            ExpKind::Str(fs) => lemma_fv_complete_fields(v, fs@),
            ExpKind::Opt(o) => match o {
                Some(x) => lemma_fv_complete(v, *x),
                None => {},
            },
            ExpKind::Slice(b, l, h) => {
                if occurs(v, *b) || occurs(v, *l) {
                    if occurs(v, *b) {
                        lemma_fv_complete(v, *b);
                    } else {
                        lemma_fv_complete(v, *l);
                    }
                    lemma_extend_names(fv(*b), fv(*l), n);
                    lemma_extend_names(extend(fv(*b), fv(*l)), fv(*h), n);
                } else {
                    lemma_fv_complete(v, *h);
                    lemma_extend_names(extend(fv(*b), fv(*l)), fv(*h), n);
                }
            },
            ExpKind::Upd(b, p, f) => {
                if occurs(v, *b) {
                    lemma_fv_complete(v, *b);
                    lemma_extend_names(fv(*b), fv_path(p), n);
                } else if occurs_in_path(v, p) {
                    lemma_fv_complete_path(v, p);
                    lemma_extend_names(fv(*b), fv_path(p), n);
                } else {
                    lemma_fv_complete(v, *f);
                }
                lemma_extend_names(extend(fv(*b), fv_path(p)), fv(*f), n);
            },
            ExpKind::Call(_, _, args) => lemma_fv_complete_args(v, args@),
        }
    }
}

/// A variable occurring in one of a list of expressions is free in the list.
pub proof fn lemma_fv_complete_exps(v: Exp, es: Seq<Exp>)
    requires
        occurs_in(v, es),
        v.node is Var,
    ensures
        has_name(fv_exps(es), v.node->Var_0@),
    decreases es,
{
    if occurs_in(v, es.drop_last()) {
        lemma_fv_complete_exps(v, es.drop_last());
    } else {
        lemma_fv_complete(v, es.last());
    }
    lemma_extend_names(fv_exps(es.drop_last()), fv(es.last()), v.node->Var_0@);
}

/// A variable occurring in a field is free in the fields.
pub proof fn lemma_fv_complete_fields(v: Exp, fs: Seq<ExpField>)
    requires
        occurs_in_fields(v, fs),
        v.node is Var,
    ensures
        has_name(fv_fields(fs), v.node->Var_0@),
    decreases fs,
{
    if occurs_in_fields(v, fs.drop_last()) {
        lemma_fv_complete_fields(v, fs.drop_last());
    } else {
        lemma_fv_complete(v, fs.last().exp);
    }
    lemma_extend_names(fv_fields(fs.drop_last()), fv(fs.last().exp), v.node->Var_0@);
}

/// A variable occurring in an update path is free in the path.
pub proof fn lemma_fv_complete_path(v: Exp, p: Path)
    requires
        occurs_in_path(v, p),
        v.node is Var,
    ensures
        has_name(fv_path(p), v.node->Var_0@),
    decreases p,
{
    let n = v.node->Var_0@;
    match p.node {
        PathKind::Root => {},
        PathKind::Idx(q, x) => {
            if occurs_in_path(v, *q) {
                lemma_fv_complete_path(v, *q);
            } else {
                lemma_fv_complete(v, *x);
            }
            lemma_extend_names(fv_path(*q), fv(*x), n);
        },
        PathKind::Slice(q, l, h) => {
            if occurs_in_path(v, *q) {
                lemma_fv_complete_path(v, *q);
                lemma_extend_names(fv_path(*q), fv(*l), n);
            } else if occurs(v, *l) {
                lemma_fv_complete(v, *l);
                lemma_extend_names(fv_path(*q), fv(*l), n);
            } else {
                lemma_fv_complete(v, *h);
            }
            lemma_extend_names(extend(fv_path(*q), fv(*l)), fv(*h), n);
        },
        PathKind::Dot(q, _) => lemma_fv_complete_path(v, *q),
    }
}

/// A variable occurring in an expression argument is free in the arguments.
pub proof fn lemma_fv_complete_args(v: Exp, args: Seq<Arg>)
    requires
        occurs_in_args(v, args),
        v.node is Var,
    ensures
        has_name(fv_args(args), v.node->Var_0@),
    decreases args,
{
    if occurs_in_args(v, args.drop_last()) {
        lemma_fv_complete_args(v, args.drop_last());
    } else {
        match args.last().node {
            ArgKind::Exp(x) => lemma_fv_complete(v, *x),
            ArgKind::Def(_) => {},
        }
    }
    lemma_extend_names(fv_args(args.drop_last()), fv_arg(args.last()), v.node->Var_0@);
}

/// A variable named `n` occurs in `e`.
pub open spec fn var_occurs(n: Seq<char>, e: Exp) -> bool {
    exists|v: Exp| #[trigger] occurs(v, e) && v.node is Var && v.node->Var_0@ == n
}

/// Extending brings in no name that neither list has.
pub proof fn lemma_extend_names_from(vs: Seq<VarV>, ws: Seq<VarV>, n: Seq<char>)
    requires
        has_name(extend(vs, ws), n),
    ensures
        has_name(vs, n) || has_name(ws, n),
    decreases ws.len(),
{
    if ws.len() > 0 {
        let w = ws.last();
        let d = ws.drop_last();
        let e = extend(vs, d);
        let r = extend(vs, ws);
        let j = choose|j: int| 0 <= j < r.len() && (#[trigger] r[j]).id == n;
        if !has_var(e, w) && j == e.len() {
            assert(r[j] == w);
            assert(ws[ws.len() - 1] == w);
        } else {
            if !has_var(e, w) {
                assert(r[j] == e[j]);
            }
            assert(has_name(e, n));
            lemma_extend_names_from(vs, d, n);
            if has_name(d, n) {
                let k = choose|k: int| 0 <= k < d.len() && (#[trigger] d[k]).id == n;
                assert(ws[k] == d[k]);
            }
        }
    }
}

/// Every free variable of an expression occurs in it by name: none is
/// made up.
pub proof fn lemma_fv_sound(e: Exp, n: Seq<char>)
    requires
        has_name(fv(e), n),
    ensures
        var_occurs(n, e),
    decreases e,
{
    match e.node {
        ExpKind::Bool(_) | ExpKind::Num(_) | ExpKind::Text(_) => {},
        ExpKind::Var(_) => {
            assert(occurs(e, e));
        },
        ExpKind::Un(_, _, x) => { lemma_fv_sound(*x, n); lemma_var_occurs_up(n, *x, e); },
        ExpKind::UpCast(_, x) => { lemma_fv_sound(*x, n); lemma_var_occurs_up(n, *x, e); },
        ExpKind::DownCast(_, x) => { lemma_fv_sound(*x, n); lemma_var_occurs_up(n, *x, e); },
        ExpKind::Sub(x, _) => { lemma_fv_sound(*x, n); lemma_var_occurs_up(n, *x, e); },
        ExpKind::Match(x, _) => { lemma_fv_sound(*x, n); lemma_var_occurs_up(n, *x, e); },
        ExpKind::Len(x) => { lemma_fv_sound(*x, n); lemma_var_occurs_up(n, *x, e); },
        ExpKind::Dot(x, _) => { lemma_fv_sound(*x, n); lemma_var_occurs_up(n, *x, e); },
        ExpKind::Iter(x, it) => {
            let inner = fv(*x);
            let out = Seq::new(inner.len(), |k: int| lift_var(inner[k], it.iter, vars_view(it.vars@)));
            let i = choose|i: int| 0 <= i < out.len() && (#[trigger] out[i]).id == n;
            assert(inner[i].id == n);
            lemma_fv_sound(*x, n);
            lemma_var_occurs_up(n, *x, e);
        },
        ExpKind::Bin(_, _, l, r) => {
            lemma_extend_names_from(fv(*l), fv(*r), n);
            if has_name(fv(*l), n) { lemma_fv_sound(*l, n); lemma_var_occurs_up(n, *l, e); }
            else { lemma_fv_sound(*r, n); lemma_var_occurs_up(n, *r, e); }
        },
        ExpKind::Cmp(_, _, l, r) => {
            lemma_extend_names_from(fv(*l), fv(*r), n);
            if has_name(fv(*l), n) { lemma_fv_sound(*l, n); lemma_var_occurs_up(n, *l, e); }
            else { lemma_fv_sound(*r, n); lemma_var_occurs_up(n, *r, e); }
        },
        ExpKind::Cons(l, r) => {
            lemma_extend_names_from(fv(*l), fv(*r), n);
            if has_name(fv(*l), n) { lemma_fv_sound(*l, n); lemma_var_occurs_up(n, *l, e); }
            else { lemma_fv_sound(*r, n); lemma_var_occurs_up(n, *r, e); }
        },
        ExpKind::Cat(l, r) => {
            lemma_extend_names_from(fv(*l), fv(*r), n);
            if has_name(fv(*l), n) { lemma_fv_sound(*l, n); lemma_var_occurs_up(n, *l, e); }
            else { lemma_fv_sound(*r, n); lemma_var_occurs_up(n, *r, e); }
        },
        ExpKind::Mem(l, r) => {
            lemma_extend_names_from(fv(*l), fv(*r), n);
            if has_name(fv(*l), n) { lemma_fv_sound(*l, n); lemma_var_occurs_up(n, *l, e); }
            else { lemma_fv_sound(*r, n); lemma_var_occurs_up(n, *r, e); }
        },
        ExpKind::Idx(l, r) => {
            lemma_extend_names_from(fv(*l), fv(*r), n);
            if has_name(fv(*l), n) { lemma_fv_sound(*l, n); lemma_var_occurs_up(n, *l, e); }
            else { lemma_fv_sound(*r, n); lemma_var_occurs_up(n, *r, e); }
        },
        ExpKind::Tuple(es) => { lemma_fv_sound_exps(es@, n); lemma_var_occurs_up_exps(n, es@, e); },
        ExpKind::List(es) => { lemma_fv_sound_exps(es@, n); lemma_var_occurs_up_exps(n, es@, e); },
        ExpKind::Case(ne) => { lemma_fv_sound_exps(ne.args@, n); lemma_var_occurs_up_exps(n, ne.args@, e); },
        ExpKind::Str(fs) => { lemma_fv_sound_fields(fs@, n); lemma_var_occurs_up_fields(n, fs@, e); },
        ExpKind::Opt(o) => match o {
            Some(x) => { lemma_fv_sound(*x, n); lemma_var_occurs_up(n, *x, e); },
            None => {},
        },
        ExpKind::Slice(b, l, h) => {
            lemma_extend_names_from(extend(fv(*b), fv(*l)), fv(*h), n);
            if has_name(extend(fv(*b), fv(*l)), n) {
                lemma_extend_names_from(fv(*b), fv(*l), n);
                if has_name(fv(*b), n) { lemma_fv_sound(*b, n); lemma_var_occurs_up(n, *b, e); }
                else { lemma_fv_sound(*l, n); lemma_var_occurs_up(n, *l, e); }
            } else {
                lemma_fv_sound(*h, n);
                lemma_var_occurs_up(n, *h, e);
            }
        },
        ExpKind::Upd(b, p, f) => {
            lemma_extend_names_from(extend(fv(*b), fv_path(p)), fv(*f), n);
            if has_name(extend(fv(*b), fv_path(p)), n) {
                lemma_extend_names_from(fv(*b), fv_path(p), n);
                if has_name(fv(*b), n) { lemma_fv_sound(*b, n); lemma_var_occurs_up(n, *b, e); }
                else { lemma_fv_sound_path(p, n); lemma_var_occurs_up_path(n, p, e); }
            } else {
                lemma_fv_sound(*f, n);
                lemma_var_occurs_up(n, *f, e);
            }
        },
        ExpKind::Call(_, _, args) => { lemma_fv_sound_args(args@, n); lemma_var_occurs_up_args(n, args@, e); },
    }
}

/// Free variables of a list of expressions occur in one of them.
pub proof fn lemma_fv_sound_exps(es: Seq<Exp>, n: Seq<char>)
    requires
        has_name(fv_exps(es), n),
    ensures
        exists|v: Exp| #[trigger] occurs_in(v, es) && v.node is Var && v.node->Var_0@ == n,
    decreases es,
{
    if es.len() > 0 {
        lemma_extend_names_from(fv_exps(es.drop_last()), fv(es.last()), n);
        if has_name(fv_exps(es.drop_last()), n) {
            lemma_fv_sound_exps(es.drop_last(), n);
            let v = choose|v: Exp| #[trigger] occurs_in(v, es.drop_last()) && v.node is Var && v.node->Var_0@ == n;
            assert(occurs_in(v, es));
        } else {
            lemma_fv_sound(es.last(), n);
            let v = choose|v: Exp| #[trigger] occurs(v, es.last()) && v.node is Var && v.node->Var_0@ == n;
            assert(occurs_in(v, es));
        }
    }
}

/// Free variables of fields occur in one of them.
pub proof fn lemma_fv_sound_fields(fs: Seq<ExpField>, n: Seq<char>)
    requires
        has_name(fv_fields(fs), n),
    ensures
        exists|v: Exp| #[trigger] occurs_in_fields(v, fs) && v.node is Var && v.node->Var_0@ == n,
    decreases fs,
{
    if fs.len() > 0 {
        lemma_extend_names_from(fv_fields(fs.drop_last()), fv(fs.last().exp), n);
        if has_name(fv_fields(fs.drop_last()), n) {
            lemma_fv_sound_fields(fs.drop_last(), n);
            let v = choose|v: Exp| #[trigger] occurs_in_fields(v, fs.drop_last()) && v.node is Var && v.node->Var_0@ == n;
            assert(occurs_in_fields(v, fs));
        } else {
            lemma_fv_sound(fs.last().exp, n);
            let v = choose|v: Exp| #[trigger] occurs(v, fs.last().exp) && v.node is Var && v.node->Var_0@ == n;
            assert(occurs_in_fields(v, fs));
        }
    }
}

/// Free variables of an update path occur in it.
pub proof fn lemma_fv_sound_path(p: Path, n: Seq<char>)
    requires
        has_name(fv_path(p), n),
    ensures
        exists|v: Exp| #[trigger] occurs_in_path(v, p) && v.node is Var && v.node->Var_0@ == n,
    decreases p,
{
    match p.node {
        PathKind::Root => {},
        PathKind::Idx(q, x) => {
            lemma_extend_names_from(fv_path(*q), fv(*x), n);
            if has_name(fv_path(*q), n) {
                lemma_fv_sound_path(*q, n);
                let v = choose|v: Exp| #[trigger] occurs_in_path(v, *q) && v.node is Var && v.node->Var_0@ == n;
                assert(occurs_in_path(v, p));
            } else {
                lemma_fv_sound(*x, n);
                let v = choose|v: Exp| #[trigger] occurs(v, *x) && v.node is Var && v.node->Var_0@ == n;
                assert(occurs_in_path(v, p));
            }
        },
        PathKind::Slice(q, l, h) => {
            lemma_extend_names_from(extend(fv_path(*q), fv(*l)), fv(*h), n);
            if has_name(extend(fv_path(*q), fv(*l)), n) {
                lemma_extend_names_from(fv_path(*q), fv(*l), n);
                if has_name(fv_path(*q), n) {
                    lemma_fv_sound_path(*q, n);
                    let v = choose|v: Exp| #[trigger] occurs_in_path(v, *q) && v.node is Var && v.node->Var_0@ == n;
                    assert(occurs_in_path(v, p));
                } else {
                    lemma_fv_sound(*l, n);
                    let v = choose|v: Exp| #[trigger] occurs(v, *l) && v.node is Var && v.node->Var_0@ == n;
                    assert(occurs_in_path(v, p));
                }
            } else {
                lemma_fv_sound(*h, n);
                let v = choose|v: Exp| #[trigger] occurs(v, *h) && v.node is Var && v.node->Var_0@ == n;
                assert(occurs_in_path(v, p));
            }
        },
        PathKind::Dot(q, _) => {
            lemma_fv_sound_path(*q, n);
            let v = choose|v: Exp| #[trigger] occurs_in_path(v, *q) && v.node is Var && v.node->Var_0@ == n;
            assert(occurs_in_path(v, p));
        },
    }
}

/// Free variables of call arguments occur in one of them.
pub proof fn lemma_fv_sound_args(args: Seq<Arg>, n: Seq<char>)
    requires
        has_name(fv_args(args), n),
    ensures
        exists|v: Exp| #[trigger] occurs_in_args(v, args) && v.node is Var && v.node->Var_0@ == n,
    decreases args,
{
    if args.len() > 0 {
        lemma_extend_names_from(fv_args(args.drop_last()), fv_arg(args.last()), n);
        if has_name(fv_args(args.drop_last()), n) {
            lemma_fv_sound_args(args.drop_last(), n);
            let v = choose|v: Exp| #[trigger] occurs_in_args(v, args.drop_last()) && v.node is Var && v.node->Var_0@ == n;
            assert(occurs_in_args(v, args));
        } else {
            match args.last().node {
                ArgKind::Exp(x) => {
                    lemma_fv_sound(*x, n);
                    let v = choose|v: Exp| #[trigger] occurs(v, *x) && v.node is Var && v.node->Var_0@ == n;
                    assert(occurs_in_args(v, args));
                },
                ArgKind::Def(_) => {},
            }
        }
    }
}

/// A variable occurring in a part occurs in the whole.
proof fn lemma_var_occurs_up(n: Seq<char>, x: Exp, e: Exp)
    requires
        var_occurs(n, x),
        forall|v: Exp| occurs(v, x) ==> #[trigger] occurs(v, e),
    ensures
        var_occurs(n, e),
{
    let v = choose|v: Exp| #[trigger] occurs(v, x) && v.node is Var && v.node->Var_0@ == n;
    assert(occurs(v, e));
}

/// A variable occurring in one of the parts occurs in the whole.
proof fn lemma_var_occurs_up_exps(n: Seq<char>, es: Seq<Exp>, e: Exp)
    requires
        exists|v: Exp| #[trigger] occurs_in(v, es) && v.node is Var && v.node->Var_0@ == n,
        forall|v: Exp| occurs_in(v, es) ==> #[trigger] occurs(v, e),
    ensures
        var_occurs(n, e),
{
    let v = choose|v: Exp| #[trigger] occurs_in(v, es) && v.node is Var && v.node->Var_0@ == n;
    assert(occurs(v, e));
}

/// A variable occurring in one of the fields occurs in the whole.
proof fn lemma_var_occurs_up_fields(n: Seq<char>, fs: Seq<ExpField>, e: Exp)
    requires
        exists|v: Exp| #[trigger] occurs_in_fields(v, fs) && v.node is Var && v.node->Var_0@ == n,
        forall|v: Exp| occurs_in_fields(v, fs) ==> #[trigger] occurs(v, e),
    ensures
        var_occurs(n, e),
{
    let v = choose|v: Exp| #[trigger] occurs_in_fields(v, fs) && v.node is Var && v.node->Var_0@ == n;
    assert(occurs(v, e));
}

/// A variable occurring in the update path occurs in the whole.
proof fn lemma_var_occurs_up_path(n: Seq<char>, p: Path, e: Exp)
    requires
        exists|v: Exp| #[trigger] occurs_in_path(v, p) && v.node is Var && v.node->Var_0@ == n,
        forall|v: Exp| occurs_in_path(v, p) ==> #[trigger] occurs(v, e),
    ensures
        var_occurs(n, e),
{
    let v = choose|v: Exp| #[trigger] occurs_in_path(v, p) && v.node is Var && v.node->Var_0@ == n;
    assert(occurs(v, e));
}

/// A variable occurring in one of the arguments occurs in the whole.
proof fn lemma_var_occurs_up_args(n: Seq<char>, args: Seq<Arg>, e: Exp)
    requires
        exists|v: Exp| #[trigger] occurs_in_args(v, args) && v.node is Var && v.node->Var_0@ == n,
        forall|v: Exp| occurs_in_args(v, args) ==> #[trigger] occurs(v, e),
    ensures
        var_occurs(n, e),
{
    let v = choose|v: Exp| #[trigger] occurs_in_args(v, args) && v.node is Var && v.node->Var_0@ == n;
    assert(occurs(v, e));
}

/// The names of an expression's free variables are exactly the names of
/// the variables occurring in it.
pub proof fn lemma_fv_names(e: Exp, n: Seq<char>)
    ensures
        has_name(fv(e), n) <==> var_occurs(n, e),
{
    if has_name(fv(e), n) {
        lemma_fv_sound(e, n);
    }
    if var_occurs(n, e) {
        let v = choose|v: Exp| #[trigger] occurs(v, e) && v.node is Var && v.node->Var_0@ == n;
        lemma_fv_complete(v, e);
    }
}

} // verus!
