//! Rewriting of repeated binding occurrences.
//!
//! The leftmost occurrence keeps its identifier; each later occurrence is
//! renamed, and a side condition requires every renamed occurrence to equal
//! the leftmost one: `let (int, int, int) = …` becomes
//! `let (int, int', int'') = …, if int = int' /\ int = int''`.

use vstd::prelude::*;
use crate::span::Span;
use crate::il::{Arg, ArgKind, BinOp, CmpOp, Exp, ExpIter, ExpKind, ExpField, Id, Iter, NotExp, OpTyp, TypKind, Typ, Var,
    ExpV, ExpKindV, VarV, ArgV, TypV, typ_view, exp_view, exps_view, fields_view, fields_atoms, vars_view, var_view, arg_view, args_view};
use crate::il_typ::{clone_id, clone_typ, clone_typ_kind, clone_mixop, clone_var};
use crate::il_exp::{clone_exp, clone_arg, clone_fields};
use crate::il_free::{free, exp_free, expv_free, lemma_free_view};
use crate::ids::IdSet;
use crate::il_var::{fresh_id, fresh_name, lemma_fresh_name_fresh};
use crate::idmap::IdMap;
use crate::al::{Prem, PremKind, PremShape, IfPrem, prems_view};
use crate::algo::bind::{BEnv, Binding, BindingV};
use crate::algo::context::Context;
use crate::algo::dim::{Dim, DimV, VEnv, venv_entries};
use crate::algo::iteration::{ICtx, Iteration, IterationV, levels_iters, env_vars, iterate_shape, stands_at, unwrap_n, lemma_stands_at};
use crate::assoc::assoc_map;

verus! {

/// Ordered renamed occurrences for each repeated source identifier.
pub struct RenameEnv {
    pub renames: IdMap<Vec<Id>>,
    pub dimensions: IdMap<Dim>,
}

impl RenameEnv {
    pub open spec fn wf(&self) -> bool {
        self.renames.wf() && self.dimensions.wf() && self.renames@.dom() == self.dimensions@.dom()
    }

    /// Starts an empty rename list for every multiple binding.
    pub fn from_bindings(benv: &BEnv) -> (r: RenameEnv)
        requires
            benv.wf(),
        ensures
            r.wf(),
            forall|k: Seq<char>| r.renames@.contains_key(k) <==> (benv@.contains_key(k) && benv@[k] is Multiple),
            forall|k: Seq<char>| #[trigger] r.renames@.contains_key(k) ==> r.renames@[k].len() == 0,
            forall|k: Seq<char>| #[trigger] r.dimensions@.contains_key(k) ==> benv@[k] == BindingV::Multiple(r.dimensions@[k]),
    {
        let mut renames: IdMap<Vec<Id>> = IdMap::new();
        let mut dimensions: IdMap<Dim> = IdMap::new();
        let ghost es = crate::algo::bind::benv_entries(benv.entries@);
        for i in 0..benv.entries.len()
            invariant
                benv.wf(),
                es == crate::algo::bind::benv_entries(benv.entries@),
                renames.wf(),
                dimensions.wf(),
                renames@.dom() == dimensions@.dom(),
                forall|k: Seq<char>| renames@.contains_key(k) <==> (crate::assoc::assoc_map(es.take(i as int)).contains_key(k)
                    && crate::assoc::assoc_map(es.take(i as int))[k] is Multiple),
                forall|k: Seq<char>| #[trigger] renames@.contains_key(k) ==> renames@[k].len() == 0,
                forall|k: Seq<char>| #[trigger] dimensions@.contains_key(k) ==> crate::assoc::assoc_map(es.take(i as int))[k] == BindingV::Multiple(dimensions@[k]),
        {
            proof {
                assert(es.take(i + 1).drop_last() =~= es.take(i as int));
                crate::assoc::lemma_assoc_dom(es.take(i as int));
                assert forall|j: int| 0 <= j < i implies es.take(i as int)[j].0 != es[i as int].0 by {
                    assert(es[j].0 != es[i as int].0);
                }
                assert(!crate::assoc::assoc_map(es.take(i as int)).contains_key(es[i as int].0));
            }
            let entry = &benv.entries[i];
            match &entry.1 {
                Binding::Multiple(dim) => {
                    renames.insert(clone_id(&entry.0), Vec::new());
                    dimensions.insert(clone_id(&entry.0), dim.clone_dim());
                },
                Binding::Single(_) => {},
            }
        }
        proof {
            assert(es.take(es.len() as int) =~= es);
        }
        let r = RenameEnv { renames, dimensions };
        assert(r.renames@.dom() =~= r.dimensions@.dom());
        r
    }

    /// The rename lists, in insertion order.
    pub fn iter(&self) -> (r: &Vec<(Id, Vec<Id>)>)
        ensures
            r == &self.renames.entries,
    {
        &self.renames.entries
    }
}

// == The renaming, stated over views

/// The names in each rename list.
pub open spec fn names_of(m: Map<Seq<char>, Seq<Id>>) -> Map<Seq<char>, Seq<Seq<char>>> {
    Map::new(|k: Seq<char>| m.contains_key(k), |k: Seq<char>| ids_names(m[k]))
}

/// The names of a list of identifiers.
pub open spec fn ids_names(s: Seq<Id>) -> Seq<Seq<char>> {
    Seq::new(s.len(), |i: int| s[i]@)
}

/// One more occurrence of `x`: when `x` is a repeated binder, its rename is
/// `x` itself the first time and the freshest primed form of `x` afterwards;
/// the rename is recorded in its list and among the names in use.
pub open spec fn ren_id(lists: Map<Seq<char>, Seq<Seq<char>>>, frees: Set<Seq<char>>, x: Seq<char>) -> (
    Map<Seq<char>, Seq<Seq<char>>>,
    Set<Seq<char>>,
    Seq<char>,
) {
    if lists.contains_key(x) {
        let n = if lists[x].len() == 0 { x } else { fresh_name(frees, x) };
        (lists.insert(x, lists[x].push(n)), frees.insert(n), n)
    } else {
        (lists, frees, x)
    }
}

/// Renames the binder occurrences of an invertible expression, left to right,
/// threading the rename lists and the names in use.
pub open spec fn ren(lists: Map<Seq<char>, Seq<Seq<char>>>, frees: Set<Seq<char>>, e: ExpV) -> (
    Map<Seq<char>, Seq<Seq<char>>>,
    Set<Seq<char>>,
    ExpV,
)
    decreases e,
{
    match e.node {
        ExpKindV::Var(x) => {
            let r = ren_id(lists, frees, x);
            (r.0, r.1, ExpV { node: ExpKindV::Var(r.2), note: e.note })
        },
        ExpKindV::UpCast(t, x) => {
            let r = ren(lists, frees, *x);
            (r.0, r.1, ExpV { node: ExpKindV::UpCast(t, Box::new(r.2)), note: e.note })
        },
        ExpKindV::Tuple(es) => {
            let r = ren_exps(lists, frees, es);
            (r.0, r.1, ExpV { node: ExpKindV::Tuple(r.2), note: e.note })
        },
        ExpKindV::Case(m, es) => {
            let r = ren_exps(lists, frees, es);
            (r.0, r.1, ExpV { node: ExpKindV::Case(m, r.2), note: e.note })
        },
        ExpKindV::Str(atoms, es) => {
            let r = ren_exps(lists, frees, es);
            (r.0, r.1, ExpV { node: ExpKindV::Str(atoms, r.2), note: e.note })
        },
        ExpKindV::Opt(o) => match o {
            Some(x) => {
                let r = ren(lists, frees, *x);
                (r.0, r.1, ExpV { node: ExpKindV::Opt(Some(Box::new(r.2))), note: e.note })
            },
            None => (lists, frees, e),
        },
        ExpKindV::List(es) => {
            let r = ren_exps(lists, frees, es);
            (r.0, r.1, ExpV { node: ExpKindV::List(r.2), note: e.note })
        },
        ExpKindV::Cons(h, t) => {
            let a = ren(lists, frees, *h);
            let b = ren(a.0, a.1, *t);
            (b.0, b.1, ExpV { node: ExpKindV::Cons(Box::new(a.2), Box::new(b.2)), note: e.note })
        },
        ExpKindV::Iter(x, it, vars) => {
            let r = ren(lists, frees, *x);
            (r.0, r.1, ExpV { node: ExpKindV::Iter(Box::new(r.2), it, ren_vars(r.0, expv_free(r.2), vars)), note: e.note })
        },
        _ => (lists, frees, e),
    }
}

/// Renames a list of expressions left to right.
pub open spec fn ren_exps(lists: Map<Seq<char>, Seq<Seq<char>>>, frees: Set<Seq<char>>, es: Seq<ExpV>) -> (
    Map<Seq<char>, Seq<Seq<char>>>,
    Set<Seq<char>>,
    Seq<ExpV>,
)
    decreases es,
{
    if es.len() == 0 {
        (lists, frees, es)
    } else {
        let a = ren_exps(lists, frees, es.drop_last());
        let b = ren(a.0, a.1, es.last());
        (b.0, b.1, a.2.push(b.2))
    }
}

/// The variables of an iteration after renaming: a repeated binder with
/// renames stands for those of its renames still used inside, in order.
pub open spec fn ren_vars(lists: Map<Seq<char>, Seq<Seq<char>>>, used: Set<Seq<char>>, vars: Seq<VarV>) -> Seq<VarV>
    decreases vars.len(),
{
    if vars.len() == 0 {
        Seq::empty()
    } else {
        ren_vars(lists, used, vars.drop_last()) + ren_var(lists, used, vars.last())
    }
}

pub open spec fn ren_var(lists: Map<Seq<char>, Seq<Seq<char>>>, used: Set<Seq<char>>, v: VarV) -> Seq<VarV> {
    if lists.contains_key(v.id) && lists[v.id].len() > 0 {
        kept_renames(lists[v.id], used, v)
    } else {
        seq![v]
    }
}

/// The renames of `v` in `names` that are in `used`, each as a binder like `v`.
pub open spec fn kept_renames(names: Seq<Seq<char>>, used: Set<Seq<char>>, v: VarV) -> Seq<VarV>
    decreases names.len(),
{
    if names.len() == 0 {
        Seq::empty()
    } else if used.contains(names.last()) {
        kept_renames(names.drop_last(), used, v).push(VarV { id: names.last(), ..v })
    } else {
        kept_renames(names.drop_last(), used, v)
    }
}

pub open spec fn ren_arg(lists: Map<Seq<char>, Seq<Seq<char>>>, frees: Set<Seq<char>>, a: ArgV) -> (
    Map<Seq<char>, Seq<Seq<char>>>,
    Set<Seq<char>>,
    ArgV,
) {
    match a {
        ArgV::Exp(e) => {
            let r = ren(lists, frees, *e);
            (r.0, r.1, ArgV::Exp(Box::new(r.2)))
        },
        ArgV::Def(_) => (lists, frees, a),
    }
}

pub open spec fn ren_args(lists: Map<Seq<char>, Seq<Seq<char>>>, frees: Set<Seq<char>>, args: Seq<ArgV>) -> (
    Map<Seq<char>, Seq<Seq<char>>>,
    Set<Seq<char>>,
    Seq<ArgV>,
)
    decreases args.len(),
{
    if args.len() == 0 {
        (lists, frees, args)
    } else {
        let a = ren_args(lists, frees, args.drop_last());
        let b = ren_arg(a.0, a.1, args.last());
        (b.0, b.1, a.2.push(b.2))
    }
}

/// What renaming leaves of a context: all but the names in use.
pub open spec fn ctx_kept(a: Context, b: Context) -> bool {
    a.venv == b.venv && a.tdenv == b.tdenv && a.menv == b.menv
}

/// What renaming leaves of a rename environment: its well-formedness, its
/// repeated binders and their dimensions.
pub open spec fn renv_kept(a: RenameEnv, b: RenameEnv) -> bool {
    &&& b.wf()
    &&& b.dimensions == a.dimensions
    &&& b.renames@.dom() == a.renames@.dom()
}

// == Binding renaming

fn clone_id_list(l: &Vec<Id>) -> (r: Vec<Id>)
    ensures
        r@ == l@,
{
    let mut r: Vec<Id> = Vec::new();
    for j in 0..l.len()
        invariant
            r@ == l@.take(j as int),
    {
        r.push(clone_id(&l[j]));
        assert(r@ =~= l@.take(j + 1));
    }
    assert(r@ =~= l@);
    r
}

/// `b` is `a` rewritten in place: `b` has `a`'s span, a variable's
/// identifier keeps its span, and where `a` holds expressions that
/// renaming goes into, those of `b` keep their spans in turn.
pub open spec fn spans_kept(a: Exp, b: Exp) -> bool
    decreases a,
{
    &&& a.span == b.span
    &&& match (a.node, b.node) {
        (ExpKind::Var(i), ExpKind::Var(j)) => i.span == j.span,
        (ExpKind::Var(_), _) => false,
        (ExpKind::UpCast(_, x), ExpKind::UpCast(_, y)) => spans_kept(*x, *y),
        (ExpKind::Tuple(xs), ExpKind::Tuple(ys)) => spans_kept_all(xs@, ys@),
        (ExpKind::List(xs), ExpKind::List(ys)) => spans_kept_all(xs@, ys@),
        (ExpKind::Case(n), ExpKind::Case(m)) => spans_kept_all(n.args@, m.args@),
        (ExpKind::Str(fs), ExpKind::Str(gs)) => spans_kept_fields(fs@, gs@),
        (ExpKind::Opt(Some(x)), ExpKind::Opt(Some(y))) => spans_kept(*x, *y),
        (ExpKind::Cons(h, t), ExpKind::Cons(h2, t2)) => spans_kept(*h, *h2) && spans_kept(*t, *t2),
        (ExpKind::Iter(x, _), ExpKind::Iter(y, _)) => spans_kept(*x, *y),
        _ => true,
    }
}

/// Each expression of `ys` keeps the spans of the one of `xs` at its place.
pub open spec fn spans_kept_all(xs: Seq<Exp>, ys: Seq<Exp>) -> bool
    decreases xs,
{
    if xs.len() == 0 {
        ys.len() == 0
    } else {
        ys.len() == xs.len() && spans_kept_all(xs.drop_last(), ys.drop_last()) && spans_kept(xs.last(), ys.last())
    }
}

/// Each field of `gs` keeps the spans of the one of `fs` at its place.
pub open spec fn spans_kept_fields(fs: Seq<ExpField>, gs: Seq<ExpField>) -> bool
    decreases fs,
{
    if fs.len() == 0 {
        gs.len() == 0
    } else {
        gs.len() == fs.len() && spans_kept_fields(fs.drop_last(), gs.drop_last()) && spans_kept(fs.last().exp, gs.last().exp)
    }
}

/// Keeps the first occurrence of a repeated identifier, renaming later ones.
fn rename_id_exp(ctx: &mut Context, renv: &mut RenameEnv, exp: &Exp, id: &Id) -> (r: Exp)
    requires
        old(renv).wf(),
        exp_view(*exp).node == ExpKindV::Var(id@),
    ensures
        renv_kept(*old(renv), *final(renv)),
        ctx_kept(*old(ctx), *final(ctx)),
        ren(names_of(old(renv).renames@), old(ctx).frees@, exp_view(*exp))
            == (names_of(final(renv).renames@), final(ctx).frees@, exp_view(r)),
        r.span == exp.span,
        r.node matches ExpKind::Var(j) && j.span == id.span,
{
    let ghost l0 = names_of(renv.renames@);
    match renv.renames.get(id) {
        None => {
            let r = Exp { node: ExpKind::Var(clone_id(id)), note: clone_typ_kind(&exp.note), span: exp.span };
            proof {
                assert(!l0.contains_key(id@));
                assert(exp_view(r) == exp_view(*exp));
            }
            r
        },
        Some(list) => {
            let id_rename = if list.len() == 0 {
                clone_id(id)
            } else {
                fresh_id(&ctx.frees, id)
            };
            let mut list2 = clone_id_list(list);
            let ghost old_list = list2@;
            proof {
                assert(l0.contains_key(id@));
                assert(l0[id@] == ids_names(old_list));
                if old_list.len() == 0 {
                    assert(id_rename@ == id@);
                } else {
                    assert(ids_names(old_list).len() > 0);
                }
            }
            ctx.add_free(clone_id(&id_rename));
            list2.push(clone_id(&id_rename));
            let ghost m0 = renv.renames@;
            renv.renames.insert(clone_id(id), list2);
            proof {
                assert(ids_names(old_list.push(id_rename)) =~= ids_names(old_list).push(id_rename@));
                assert(names_of(renv.renames@) =~= l0.insert(id@, ids_names(old_list).push(id_rename@)));
                assert(renv.renames@.dom() =~= m0.dom());
            }
            Exp { node: ExpKind::Var(id_rename), note: clone_typ_kind(&exp.note), span: exp.span }
        },
    }
}

/// The variables of a renamed iteration: a repeated binder with renames
/// stands for those of its renames used in the renamed body.
fn rename_iter_vars(renv: &RenameEnv, used: &IdSet, vars: &Vec<Var>) -> (r: Vec<Var>)
    requires
        renv.wf(),
    ensures
        vars_view(r@) == ren_vars(names_of(renv.renames@), used@, vars_view(vars@)),
{
    let ghost lists = names_of(renv.renames@);
    let mut r: Vec<Var> = Vec::new();
    for i in 0..vars.len()
        invariant
            renv.wf(),
            lists == names_of(renv.renames@),
            vars_view(r@) == ren_vars(lists, used@, vars_view(vars@.take(i as int))),
    {
        let var = &vars[i];
        let ghost before = vars_view(r@);
        proof {
            assert(vars_view(vars@.take(i + 1)) =~= vars_view(vars@.take(i as int)).push(var_view(*var)));
            assert(vars_view(vars@.take(i + 1)).drop_last() =~= vars_view(vars@.take(i as int)));
        }
        match renv.renames.get(&var.id) {
            None => {
                r.push(clone_var(var));
                proof {
                    assert(vars_view(r@) =~= before.push(var_view(*var)));
                    assert(ren_var(lists, used@, var_view(*var)) == seq![var_view(*var)]);
                    assert(vars_view(r@) =~= before + seq![var_view(*var)]);
                }
            },
            Some(list) => {
                if list.len() == 0 {
                    r.push(clone_var(var));
                    proof {
                        assert(vars_view(r@) =~= before.push(var_view(*var)));
                        assert(lists[var.id@] == ids_names(list@));
                        assert(ren_var(lists, used@, var_view(*var)) == seq![var_view(*var)]);
                        assert(vars_view(r@) =~= before + seq![var_view(*var)]);
                    }
                } else {
                    let ghost names = ids_names(list@);
                    proof {
                        assert(lists[var.id@] == names);
                        assert(kept_renames(names.take(0), used@, var_view(*var)) =~= Seq::<VarV>::empty());
                        assert(vars_view(r@) =~= before + kept_renames(names.take(0), used@, var_view(*var)));
                    }
                    for j in 0..list.len()
                        invariant
                            names == ids_names(list@),
                            vars_view(r@) == before + kept_renames(names.take(j as int), used@, var_view(*var)),
                    {
                        let ghost prev = vars_view(r@);
                        proof {
                            assert(names.take(j + 1).drop_last() =~= names.take(j as int));
                            assert(names.take(j + 1).last() == list@[j as int]@);
                        }
                        if used.contains(&list[j]) {
                            let v = Var { id: clone_id(&list[j]), typ: clone_typ(&var.typ), iters: var.iters.clone() };
                            r.push(v);
                            proof {
                                assert(var_view(v) == (VarV { id: list@[j as int]@, ..var_view(*var) }));
                                assert(vars_view(r@) =~= prev.push(var_view(v)));
                            }
                        }
                    }
                    proof {
                        assert(names.take(list.len() as int) =~= names);
                    }
                }
            },
        }
    }
    proof {
        assert(vars@.take(vars.len() as int) =~= vars@);
    }
    r
}

/// Renames repeated binders inside an invertible expression.
#[verifier::rlimit(40)]
pub fn rename_exp(ctx: &mut Context, renv: &mut RenameEnv, exp: &Exp) -> (r: Exp)
    requires
        old(renv).wf(),
    ensures
        renv_kept(*old(renv), *final(renv)),
        ctx_kept(*old(ctx), *final(ctx)),
        ren(names_of(old(renv).renames@), old(ctx).frees@, exp_view(*exp))
            == (names_of(final(renv).renames@), final(ctx).frees@, exp_view(r)),
        r.span == exp.span,
        exp.node matches ExpKind::Var(i) ==> (r.node matches ExpKind::Var(j) && j.span == i.span),
        spans_kept(*exp, r),
    decreases exp,
{
    match &exp.node {
        ExpKind::Var(id) => rename_id_exp(ctx, renv, exp, id),
        ExpKind::UpCast(t, x) => {
            let x2 = rename_exp(ctx, renv, x);
            Exp { node: ExpKind::UpCast(clone_typ(t), Box::new(x2)), note: clone_typ_kind(&exp.note), span: exp.span }
        },
        ExpKind::Tuple(es) => {
            let es2 = rename_exps(ctx, renv, es);
            Exp { node: ExpKind::Tuple(es2), note: clone_typ_kind(&exp.note), span: exp.span }
        },
        ExpKind::Case(n) => {
            let args2 = rename_exps(ctx, renv, &n.args);
            Exp {
                node: ExpKind::Case(NotExp { mixop: clone_mixop(&n.mixop), args: args2 }),
                note: clone_typ_kind(&exp.note),
                span: exp.span,
            }
        },
        ExpKind::Str(fs) => {
            let fs2 = rename_fields(ctx, renv, fs);
            Exp { node: ExpKind::Str(fs2), note: clone_typ_kind(&exp.note), span: exp.span }
        },
        ExpKind::Opt(o) => match o {
            Some(x) => {
                let x2 = rename_exp(ctx, renv, x);
                Exp { node: ExpKind::Opt(Some(Box::new(x2))), note: clone_typ_kind(&exp.note), span: exp.span }
            },
            None => clone_exp(exp),
        },
        ExpKind::List(es) => {
            let es2 = rename_exps(ctx, renv, es);
            Exp { node: ExpKind::List(es2), note: clone_typ_kind(&exp.note), span: exp.span }
        },
        ExpKind::Cons(h, t) => {
            let h2 = rename_exp(ctx, renv, h);
            let t2 = rename_exp(ctx, renv, t);
            Exp { node: ExpKind::Cons(Box::new(h2), Box::new(t2)), note: clone_typ_kind(&exp.note), span: exp.span }
        },
        ExpKind::Iter(x, it) => {
            let x2 = rename_exp(ctx, renv, x);
            let used = free(&x2);
            proof {
                lemma_free_view(x2);
            }
            let vars2 = rename_iter_vars(renv, &used, &it.vars);
            Exp {
                node: ExpKind::Iter(Box::new(x2), ExpIter { iter: it.iter, vars: vars2 }),
                note: clone_typ_kind(&exp.note),
                span: exp.span,
            }
        },
        _ => clone_exp(exp),
    }
}

pub fn rename_exps(ctx: &mut Context, renv: &mut RenameEnv, exps: &Vec<Exp>) -> (r: Vec<Exp>)
    requires
        old(renv).wf(),
    ensures
        renv_kept(*old(renv), *final(renv)),
        ctx_kept(*old(ctx), *final(ctx)),
        ren_exps(names_of(old(renv).renames@), old(ctx).frees@, exps_view(exps@))
            == (names_of(final(renv).renames@), final(ctx).frees@, exps_view(r@)),
        r@.len() == exps@.len(),
        forall|j: int| 0 <= j < r@.len() ==> (#[trigger] r@[j]).span == exps@[j].span
            && (exps@[j].node matches ExpKind::Var(x) ==> (r@[j].node matches ExpKind::Var(y) && y.span == x.span)),
        spans_kept_all(exps@, r@),
    decreases exps,
{
    let mut r: Vec<Exp> = Vec::new();
    let ghost l0 = names_of(renv.renames@);
    let ghost f0 = ctx.frees@;
    proof {
        assert(exps@.take(0) =~= Seq::<Exp>::empty());
        assert(r@ =~= Seq::<Exp>::empty());
    }
    for i in 0..exps.len()
        invariant
            renv_kept(*old(renv), *renv),
            ctx_kept(*old(ctx), *ctx),
            l0 == names_of(old(renv).renames@),
            f0 == old(ctx).frees@,
            ren_exps(l0, f0, exps_view(exps@.take(i as int)))
                == (names_of(renv.renames@), ctx.frees@, exps_view(r@)),
            r@.len() == i,
            forall|j: int| 0 <= j < i ==> (#[trigger] r@[j]).span == exps@[j].span
                && (exps@[j].node matches ExpKind::Var(x) ==> (r@[j].node matches ExpKind::Var(y) && y.span == x.span)),
            spans_kept_all(exps@.take(i as int), r@),
    {
        proof {
            assert(decreases_to!(exps => exps@[i as int]));
        }
        let ghost s = exps_view(exps@.take(i as int));
        let ghost rv = exps_view(r@);
        let e2 = rename_exp(ctx, renv, &exps[i]);
        proof {
            crate::il_exp::lemma_exps_view_push(exps@.take(i as int), exps@[i as int]);
            assert(exps@.take(i + 1) =~= exps@.take(i as int).push(exps@[i as int]));
            crate::il_exp::lemma_exps_view_push(r@, e2);
            let sv = s.push(exp_view(exps@[i as int]));
            assert(sv.drop_last() =~= s);
            assert(sv.last() == exp_view(exps@[i as int]));
            assert(exps@.take(i + 1).drop_last() =~= exps@.take(i as int));
            assert(r@.push(e2).drop_last() =~= r@);
        }
        r.push(e2);
    }
    proof {
        assert(exps@.take(exps.len() as int) =~= exps@);
    }
    r
}

fn rename_fields(ctx: &mut Context, renv: &mut RenameEnv, fields: &Vec<ExpField>) -> (r: Vec<ExpField>)
    requires
        old(renv).wf(),
    ensures
        renv_kept(*old(renv), *final(renv)),
        ctx_kept(*old(ctx), *final(ctx)),
        ren_exps(names_of(old(renv).renames@), old(ctx).frees@, fields_view(fields@))
            == (names_of(final(renv).renames@), final(ctx).frees@, fields_view(r@)),
        fields_atoms(r@) == fields_atoms(fields@),
        r@.len() == fields@.len(),
        forall|j: int| 0 <= j < r@.len() ==> (#[trigger] r@[j]).exp.span == fields@[j].exp.span,
        spans_kept_fields(fields@, r@),
    decreases fields,
{
    let mut r: Vec<ExpField> = Vec::new();
    let ghost l0 = names_of(renv.renames@);
    let ghost f0 = ctx.frees@;
    proof {
        assert(fields@.take(0) =~= Seq::<ExpField>::empty());
        assert(r@ =~= Seq::<ExpField>::empty());
    }
    for i in 0..fields.len()
        invariant
            renv_kept(*old(renv), *renv),
            ctx_kept(*old(ctx), *ctx),
            l0 == names_of(old(renv).renames@),
            f0 == old(ctx).frees@,
            ren_exps(l0, f0, fields_view(fields@.take(i as int)))
                == (names_of(renv.renames@), ctx.frees@, fields_view(r@)),
            fields_atoms(r@) == fields_atoms(fields@.take(i as int)),
            r@.len() == i,
            forall|j: int| 0 <= j < i ==> (#[trigger] r@[j]).exp.span == fields@[j].exp.span,
            spans_kept_fields(fields@.take(i as int), r@),
    {
        proof {
            assert(decreases_to!(fields => fields@[i as int]));
            assert(decreases_to!(fields@[i as int] => fields@[i as int].exp));
        }
        let ghost s = fields_view(fields@.take(i as int));
        let f = &fields[i];
        let e2 = rename_exp(ctx, renv, &f.exp);
        let f2 = ExpField { atom: f.atom.clone(), exp: e2 };
        proof {
            assert(fields@.take(i + 1).drop_last() =~= fields@.take(i as int));
            assert(fields@.take(i + 1).last() == *f);
            assert(r@.push(f2).drop_last() =~= r@);
            let sv = s.push(exp_view(f.exp));
            assert(fields_view(fields@.take(i + 1)) == sv);
            assert(sv.drop_last() =~= s);
        }
        let ghost r_before = r@;
        r.push(f2);
        proof {
            assert(fields_atoms(r_before).len() == i);
            assert(r@.drop_last() =~= r_before);
            assert forall|j: int| 0 <= j < i + 1 implies #[trigger] fields_atoms(r@)[j] == fields_atoms(fields@.take(i + 1))[j] by {
                if j < i {
                    assert(fields_atoms(r_before)[j] == fields_atoms(fields@.take(i as int))[j]);
                }
            }
            assert(fields_atoms(r@) =~= fields_atoms(fields@.take(i + 1)));
        }
    }
    proof {
        assert(fields@.take(fields.len() as int) =~= fields@);
    }
    r
}

/// Renames repeated binders inside an expression argument.
pub fn rename_arg(ctx: &mut Context, renv: &mut RenameEnv, arg: &Arg) -> (r: Arg)
    requires
        old(renv).wf(),
    ensures
        renv_kept(*old(renv), *final(renv)),
        ctx_kept(*old(ctx), *final(ctx)),
        ren_arg(names_of(old(renv).renames@), old(ctx).frees@, arg_view(*arg))
            == (names_of(final(renv).renames@), final(ctx).frees@, arg_view(r)),
        r.span == arg.span,
        arg.node matches ArgKind::Exp(x) ==> (r.node matches ArgKind::Exp(y) && y.span == x.span),
{
    match &arg.node {
        ArgKind::Exp(e) => {
            let e2 = rename_exp(ctx, renv, e);
            Arg { node: ArgKind::Exp(Box::new(e2)), span: arg.span }
        },
        ArgKind::Def(_) => clone_arg(arg),
    }
}

pub fn rename_args(ctx: &mut Context, renv: &mut RenameEnv, args: &Vec<Arg>) -> (r: Vec<Arg>)
    requires
        old(renv).wf(),
    ensures
        renv_kept(*old(renv), *final(renv)),
        ctx_kept(*old(ctx), *final(ctx)),
        ren_args(names_of(old(renv).renames@), old(ctx).frees@, args_view(args@))
            == (names_of(final(renv).renames@), final(ctx).frees@, args_view(r@)),
        r@.len() == args@.len(),
        forall|i: int| 0 <= i < args@.len() ==> (#[trigger] r@[i]).span == args@[i].span,
{
    let mut r: Vec<Arg> = Vec::new();
    let ghost l0 = names_of(renv.renames@);
    let ghost f0 = ctx.frees@;
    proof {
        assert(args@.take(0) =~= Seq::<Arg>::empty());
        assert(r@ =~= Seq::<Arg>::empty());
    }
    for i in 0..args.len()
        invariant
            renv_kept(*old(renv), *renv),
            ctx_kept(*old(ctx), *ctx),
            l0 == names_of(old(renv).renames@),
            f0 == old(ctx).frees@,
            ren_args(l0, f0, args_view(args@.take(i as int)))
                == (names_of(renv.renames@), ctx.frees@, args_view(r@)),
            r@.len() == i,
            forall|j: int| 0 <= j < i ==> (#[trigger] r@[j]).span == args@[j].span,
    {
        let ghost s = args_view(args@.take(i as int));
        let a2 = rename_arg(ctx, renv, &args[i]);
        proof {
            assert(args@.take(i + 1).drop_last() =~= args@.take(i as int));
            assert(args@.take(i + 1).last() == args@[i as int]);
            assert(r@.push(a2).drop_last() =~= r@);
            let sv = s.push(arg_view(args@[i as int]));
            assert(args_view(args@.take(i + 1)) == sv);
            assert(sv.drop_last() =~= s);
        }
        r.push(a2);
    }
    proof {
        assert(args@.take(args.len() as int) =~= args@);
    }
    r
}

// == Side-condition generation

/// `x = y`, both of type `t`.
pub open spec fn eq_view(x: Seq<char>, y: Seq<char>, t: TypV) -> ExpV {
    ExpV {
        node: ExpKindV::Cmp(
            CmpOp::Eq,
            OpTyp::Bool,
            Box::new(ExpV { node: ExpKindV::Var(x), note: t }),
            Box::new(ExpV { node: ExpKindV::Var(y), note: t }),
        ),
        note: TypV::Bool,
    }
}

/// `x = names[1] /\ ... /\ x = names[k - 1]`, left-nested.
pub open spec fn conj_eqs(x: Seq<char>, names: Seq<Seq<char>>, t: TypV, k: int) -> ExpV
    decreases k,
{
    if k <= 2 {
        eq_view(x, names[1], t)
    } else {
        ExpV {
            node: ExpKindV::Bin(
                BinOp::And,
                OpTyp::Bool,
                Box::new(conj_eqs(x, names, t, k - 1)),
                Box::new(eq_view(x, names[k - 1], t)),
            ),
            note: TypV::Bool,
        }
    }
}

/// The entries of an environment binding the names of `ns` in order, each to
/// `d`, a name bound once.
pub open spec fn side_entries(ns: Seq<Seq<char>>, d: DimV) -> Seq<(Seq<char>, DimV)>
    decreases ns.len(),
{
    if ns.len() == 0 {
        Seq::empty()
    } else {
        let es = side_entries(ns.drop_last(), d);
        if assoc_map(es).contains_key(ns.last()) {
            es
        } else {
            es.push((ns.last(), d))
        }
    }
}

/// The iterations of a side condition: one per iteration in `its`, innermost
/// first, each ranging over the entries of `es` under the iterations inside it.
pub open spec fn side_levels(its: Seq<Iter>, es: Seq<(Seq<char>, DimV)>) -> Seq<IterationV> {
    Seq::new(its.len(), |l: int| IterationV { iter: its[l], vars_bound: env_vars(es, its.take(l)), vars_bind: Seq::empty() })
}

/// The side condition of a repeated binder `x` of dimension `d` with renames
/// `names`, under the enclosing iterations `outer`: none when `x` occurred
/// at most once.
pub open spec fn side_condition(d: DimV, outer: Seq<Iter>, x: Seq<char>, names: Seq<Seq<char>>) -> Option<PremShape> {
    if names.len() < 2 {
        None
    } else {
        let its = d.iters + outer;
        let es = side_entries(seq![x] + names, DimV { typ: d.typ, iters: Seq::empty() });
        Some(iterate_shape(PremShape::If(conj_eqs(x, names, d.typ, names.len() as int)), side_levels(its, es), its.len() as int))
    }
}

/// The side conditions of the rename lists `rs`, in order, for the binders
/// with a dimension in `dims`.
pub open spec fn side_conditions(
    rs: Seq<(Seq<char>, Seq<Seq<char>>)>,
    dims: Map<Seq<char>, DimV>,
    outer: Seq<Iter>,
) -> Seq<PremShape>
    decreases rs.len(),
{
    if rs.len() == 0 {
        Seq::empty()
    } else {
        let prev = side_conditions(rs.drop_last(), dims, outer);
        let (x, names) = rs.last();
        if dims.contains_key(x) {
            match side_condition(dims[x], outer, x, names) {
                Some(p) => prev.push(p),
                None => prev,
            }
        } else {
            prev
        }
    }
}

/// The names of the rename lists, in insertion order.
pub open spec fn rename_entries(s: Seq<(Id, Vec<Id>)>) -> Seq<(Seq<char>, Seq<Seq<char>>)> {
    Seq::new(s.len(), |i: int| (s[i].0@, ids_names(s[i].1@)))
}

/// Builds `id = id_rename`.
fn gen_exp_equality(id: &Id, id_rename: &Id, typ: &Typ) -> (r: Exp)
    ensures
        exp_view(r) == eq_view(id@, id_rename@, typ_view(*typ)),
        r.span == id.span,
{
    let exp_l = Exp { node: ExpKind::Var(clone_id(id)), note: clone_typ_kind(&typ.node), span: id.span };
    let exp_r = Exp { node: ExpKind::Var(clone_id(id_rename)), note: clone_typ_kind(&typ.node), span: id.span };
    proof {
        assert(typ_view(*typ) == crate::il::typ_kind_view(typ.node));
        assert(crate::il::typ_kind_view(TypKind::Bool) == TypV::Bool);
        assert(exp_view(exp_l) == (ExpV { node: ExpKindV::Var(id@), note: typ_view(*typ) }));
        assert(exp_view(exp_r) == (ExpV { node: ExpKindV::Var(id_rename@), note: typ_view(*typ) }));
    }
    Exp { node: ExpKind::Cmp(CmpOp::Eq, OpTyp::Bool, Box::new(exp_l), Box::new(exp_r)), note: TypKind::Bool, span: id.span }
}

/// Builds `x = x' /\ x = x''` for one repeated identifier under its
/// iterations; `None` when the identifier occurred at most once.
fn generate_side_condition(dim: &Dim, iter_ctx: &ICtx, id: &Id, ids_rename: &Vec<Id>) -> (r: Option<Prem>)
    ensures
        match r {
            Some(p) => side_condition(dim@, levels_iters(iter_ctx@, iter_ctx@.len() as int), id@, ids_names(ids_rename@)) == Some(p@),
            None => side_condition(dim@, levels_iters(iter_ctx@, iter_ctx@.len() as int), id@, ids_names(ids_rename@)) is None,
        },
        r matches Some(p) ==> stands_at(p, ids_rename@.last().span),
        r is Some <==> ids_rename@.len() >= 2,
{
    let ghost names = ids_names(ids_rename@);
    let ghost t = typ_view(dim.typ);
    if ids_rename.len() < 2 {
        return None;
    }
    // The condition stands at the last occurrence
    let last = ids_rename.len() - 1;
    let id_condition = Id { node: id.node.clone(), span: ids_rename[last].span };
    let mut exp = gen_exp_equality(&id_condition, &ids_rename[1], &dim.typ);
    let mut k: usize = 2;
    while k < ids_rename.len()
        invariant
            2 <= k <= ids_rename.len(),
            names == ids_names(ids_rename@),
            t == typ_view(dim.typ),
            id_condition@ == id@,
            exp_view(exp) == conj_eqs(id@, names, t, k as int),
        decreases ids_rename.len() - k,
    {
        let exp_r = gen_exp_equality(&id_condition, &ids_rename[k], &dim.typ);
        exp = Exp {
            node: ExpKind::Bin(BinOp::And, OpTyp::Bool, Box::new(exp), Box::new(exp_r)),
            note: TypKind::Bool,
            span: id_condition.span,
        };
        k = k + 1;
    }
    let prem = Prem { node: PremKind::If(IfPrem { exp }), span: id_condition.span };
    // Iterate over the identifier's own dimension and the enclosing iterations
    let outer = iter_ctx.iters();
    let mut its: Vec<Iteration> = Vec::new();
    let ghost all = dim.iters@ + outer@;
    for i in 0..dim.iters.len()
        invariant
            all == dim.iters@ + outer@,
            its@.len() == i,
            forall|j: int| 0 <= j < i ==> (#[trigger] its@[j])@ == (IterationV { iter: all[j], vars_bound: Seq::empty(), vars_bind: Seq::empty() }),
    {
        let it = Iteration { iter: dim.iters[i], vars_bound: Vec::new(), vars_bind: Vec::new() };
        proof {
            assert(it@.vars_bound =~= Seq::<VarV>::empty());
            assert(it@.vars_bind =~= Seq::<VarV>::empty());
        }
        its.push(it);
    }
    for i in 0..outer.len()
        invariant
            all == dim.iters@ + outer@,
            its@.len() == dim.iters@.len() + i,
            forall|j: int| 0 <= j < its@.len() ==> (#[trigger] its@[j])@ == (IterationV { iter: all[j], vars_bound: Seq::empty(), vars_bind: Seq::empty() }),
    {
        let it = Iteration { iter: outer[i], vars_bound: Vec::new(), vars_bind: Vec::new() };
        proof {
            assert(it@.vars_bound =~= Seq::<VarV>::empty());
            assert(it@.vars_bind =~= Seq::<VarV>::empty());
        }
        its.push(it);
    }
    let mut iter_ctx_side = ICtx::from_iterations(its);
    let ghost c0 = iter_ctx_side@;
    // Every occurrence is bound at the condition
    let ghost d0 = DimV { typ: t, iters: Seq::empty() };
    let mut venv = VEnv::new();
    venv.insert(clone_id(&id_condition), Dim::new(clone_typ(&dim.typ), Vec::new()));
    proof {
        let ns = seq![id@];
        assert(ns.drop_last() =~= Seq::<Seq<char>>::empty());
        assert(side_entries(ns.drop_last(), d0) == Seq::<(Seq<char>, DimV)>::empty());
        assert(venv.entries@[0].1@ == d0) by {
            assert(venv.entries@[0].1.iters@ =~= Seq::<Iter>::empty());
        }
        assert(venv_entries(venv.entries@) =~= side_entries(ns, d0));
        assert((seq![id@] + names.take(0)) =~= ns);
    }
    for j in 0..ids_rename.len()
        invariant
            venv.wf(),
            names == ids_names(ids_rename@),
            t == typ_view(dim.typ),
            d0 == (DimV { typ: t, iters: Seq::empty() }),
            venv_entries(venv.entries@) == side_entries(seq![id@] + names.take(j as int), d0),
    {
        let ghost es0 = venv_entries(venv.entries@);
        let ghost ns = seq![id@] + names.take(j + 1);
        proof {
            assert(ns.drop_last() =~= seq![id@] + names.take(j as int));
            assert(ns.last() == ids_rename@[j as int]@);
        }
        // A name bound already keeps its (equal) dimension
        if !venv.contains_key(&ids_rename[j]) {
            venv.insert(clone_id(&ids_rename[j]), Dim::new(clone_typ(&dim.typ), Vec::new()));
            proof {
                assert(venv_entries(venv.entries@) =~= es0.push((ids_rename@[j as int]@, d0)));
            }
        }
    }
    iter_ctx_side.add_vars_bound(&venv);
    let ghost es = venv_entries(venv.entries@);
    proof {
        assert(names.take(ids_rename@.len() as int) =~= names);
        assert(levels_iters(c0, c0.len() as int) =~= all) by {
            assert(c0.len() == all.len());
        }
        assert forall|l: int| 0 <= l < c0.len() implies levels_iters(c0, l) =~= all.take(l) by {}
        assert(iter_ctx_side@ =~= side_levels(all, es));
    }
    let ghost prem0 = prem;
    let p = iter_ctx_side.iterate_prem(prem);
    proof {
        lemma_stands_at(p, iter_ctx_side@.len() as nat, prem0.span);
    }
    Some(p)
}

/// Where the side conditions of the rename lists `s` stand, in order: at
/// the last occurrence of each repeated identifier with a dimension in `dims`.
pub open spec fn side_spans(s: Seq<(Id, Vec<Id>)>, dims: Map<Seq<char>, DimV>) -> Seq<Span>
    decreases s.len(),
{
    if s.len() == 0 {
        Seq::empty()
    } else {
        let prev = side_spans(s.drop_last(), dims);
        let e = s.last();
        if dims.contains_key(e.0@) && e.1@.len() >= 2 {
            prev.push(e.1@.last().span)
        } else {
            prev
        }
    }
}

/// Builds one side condition per repeated identifier, in the order in which
/// the identifiers were registered.
pub fn generate_side_conditions(iter_ctx: &ICtx, renv: &RenameEnv) -> (r: Vec<Prem>)
    requires
        renv.wf(),
    ensures
        prems_view(r@) == side_conditions(
            rename_entries(renv.renames.entries@),
            renv.dimensions@,
            levels_iters(iter_ctx@, iter_ctx@.len() as int),
        ),
        r@.len() == side_spans(renv.renames.entries@, renv.dimensions@).len(),
        forall|k: int| 0 <= k < r@.len() ==> stands_at(#[trigger] r@[k], side_spans(renv.renames.entries@, renv.dimensions@)[k]),
{
    let ghost rs = rename_entries(renv.renames.entries@);
    let ghost ents = renv.renames.entries@;
    let ghost outer = levels_iters(iter_ctx@, iter_ctx@.len() as int);
    let mut r: Vec<Prem> = Vec::new();
    proof {
        assert(prems_view(r@) =~= Seq::<PremShape>::empty());
        assert(rs.take(0) =~= Seq::<(Seq<char>, Seq<Seq<char>>)>::empty());
    }
    for i in 0..renv.renames.entries.len()
        invariant
            renv.wf(),
            rs == rename_entries(renv.renames.entries@),
            outer == levels_iters(iter_ctx@, iter_ctx@.len() as int),
            prems_view(r@) == side_conditions(rs.take(i as int), renv.dimensions@, outer),
            ents == renv.renames.entries@,
            r@.len() == side_spans(ents.take(i as int), renv.dimensions@).len(),
            forall|k: int| 0 <= k < r@.len() ==> stands_at(#[trigger] r@[k], side_spans(ents.take(i as int), renv.dimensions@)[k]),
    {
        let entry = &renv.renames.entries[i];
        let ghost prev = prems_view(r@);
        let ghost r0 = r@;
        proof {
            assert(rs.take(i + 1).drop_last() =~= rs.take(i as int));
            assert(rs.take(i + 1).last() == (entry.0@, ids_names(entry.1@)));
            assert(ents.take(i + 1).drop_last() =~= ents.take(i as int));
            assert(ents.take(i + 1).last() == ents[i as int]);
        }
        match renv.dimensions.get(&entry.0) {
            Some(dim) => {
                match generate_side_condition(dim, iter_ctx, &entry.0, &entry.1) {
                    Some(p) => {
                        r.push(p);
                        proof {
                            assert(prems_view(r@) =~= prev.push(p@));
                            assert forall|k: int| 0 <= k < r@.len() implies stands_at(#[trigger] r@[k], side_spans(ents.take(i + 1), renv.dimensions@)[k]) by {
                                if k < r0.len() {
                                    assert(r@[k] == r0[k]);
                                }
                            }
                        }
                    },
                    None => {},
                }
            },
            None => {},
        }
    }
    proof {
        assert(rs.take(renv.renames.entries@.len() as int) =~= rs);
        assert(ents.take(ents.len() as int) =~= ents);
    }
    r
}

// == Laws

/// Rename lists as renaming keeps them: each binder is in use and its list
/// starts with the binder itself; every rename is in use; no later rename is
/// a binder; and no name occurs twice across all the lists.
pub open spec fn lists_ok(lists: Map<Seq<char>, Seq<Seq<char>>>, frees: Set<Seq<char>>) -> bool {
    &&& frees.finite()
    &&& forall|k: Seq<char>| #[trigger] lists.contains_key(k) ==> frees.contains(k)
    &&& forall|k: Seq<char>| #[trigger] lists.contains_key(k) && lists[k].len() > 0 ==> lists[k][0] == k
    &&& forall|k: Seq<char>, j: int| lists.contains_key(k) && 0 <= j < lists[k].len() ==> frees.contains(#[trigger] lists[k][j])
    &&& forall|k1: Seq<char>, k2: Seq<char>, j: int|
        #![trigger lists[k1][j], lists.contains_key(k2)]
        lists.contains_key(k1) && lists.contains_key(k2) && 0 < j < lists[k1].len() ==> lists[k1][j] != k2
    &&& forall|k1: Seq<char>, i: int, k2: Seq<char>, j: int|
        #![trigger lists[k1][i], lists[k2][j]]
        lists.contains_key(k1) && lists.contains_key(k2) && 0 <= i < lists[k1].len() && 0 <= j < lists[k2].len()
            && (k1 != k2 || i != j) ==> lists[k1][i] != lists[k2][j]
}

/// One occurrence keeps the rename lists well formed.
pub proof fn lemma_ren_id_ok(lists: Map<Seq<char>, Seq<Seq<char>>>, frees: Set<Seq<char>>, x: Seq<char>)
    requires
        lists_ok(lists, frees),
    ensures
        lists_ok(ren_id(lists, frees, x).0, ren_id(lists, frees, x).1),
        ren_id(lists, frees, x).0.dom() == lists.dom(),
{
    if lists.contains_key(x) {
        let r = ren_id(lists, frees, x);
        let l2 = r.0;
        let f2 = r.1;
        let n = r.2;
        let old_l = lists[x];
        assert(l2.dom() =~= lists.dom());
        if old_l.len() == 0 {
            assert(n == x);
            assert(f2 =~= frees);
        } else {
            lemma_fresh_name_fresh(frees, x);
            assert(!frees.contains(n));
        }
        assert forall|k: Seq<char>, j: int| l2.contains_key(k) && 0 <= j < l2[k].len() implies f2.contains(#[trigger] l2[k][j]) by {
            if k == x && j < old_l.len() {
                assert(l2[k][j] == old_l[j]);
            }
        }
        assert forall|k1: Seq<char>, k2: Seq<char>, j: int|
            #![trigger l2[k1][j], l2.contains_key(k2)]
            l2.contains_key(k1) && l2.contains_key(k2) && 0 < j < l2[k1].len() implies l2[k1][j] != k2 by {
            if k1 == x && j < old_l.len() {
                assert(l2[k1][j] == lists[k1][j]);
            }
        }
        assert forall|k1: Seq<char>, i: int, k2: Seq<char>, j: int|
            #![trigger l2[k1][i], l2[k2][j]]
            l2.contains_key(k1) && l2.contains_key(k2) && 0 <= i < l2[k1].len() && 0 <= j < l2[k2].len()
                && (k1 != k2 || i != j) implies l2[k1][i] != l2[k2][j] by {
            let new1 = k1 == x && i == old_l.len();
            let new2 = k2 == x && j == old_l.len();
            if !new1 {
                assert(l2[k1][i] == lists[k1][i]);
            }
            if !new2 {
                assert(l2[k2][j] == lists[k2][j]);
            }
            if new1 && !new2 && old_l.len() > 0 {
                assert(frees.contains(lists[k2][j]));
            } else if new2 && !new1 && old_l.len() > 0 {
                assert(frees.contains(lists[k1][i]));
            } else if new1 && !new2 {
                if j > 0 {
                    assert(lists[k2][j] != x);
                } else {
                    assert(lists[k2][0] == k2);
                }
            } else if new2 && !new1 {
                if i > 0 {
                    assert(lists[k1][i] != x);
                } else {
                    assert(lists[k1][0] == k1);
                }
            }
        }
    }
}

/// Renaming an expression keeps the rename lists well formed: each later
/// occurrence of a repeated binder gets a name distinct from every name in
/// use and from every other rename.
pub proof fn lemma_ren_ok(lists: Map<Seq<char>, Seq<Seq<char>>>, frees: Set<Seq<char>>, e: ExpV)
    requires
        lists_ok(lists, frees),
    ensures
        lists_ok(ren(lists, frees, e).0, ren(lists, frees, e).1),
        ren(lists, frees, e).0.dom() == lists.dom(),
    decreases e,
{
    match e.node {
        ExpKindV::Var(x) => lemma_ren_id_ok(lists, frees, x),
        ExpKindV::UpCast(_, x) => lemma_ren_ok(lists, frees, *x),
        ExpKindV::Tuple(es) => lemma_ren_exps_ok(lists, frees, es),
        ExpKindV::Case(_, es) => lemma_ren_exps_ok(lists, frees, es),
        ExpKindV::Str(_, es) => lemma_ren_exps_ok(lists, frees, es),
        ExpKindV::Opt(o) => match o {
            Some(x) => lemma_ren_ok(lists, frees, *x),
            None => {},
        },
        ExpKindV::List(es) => lemma_ren_exps_ok(lists, frees, es),
        ExpKindV::Cons(h, t) => {
            lemma_ren_ok(lists, frees, *h);
            let a = ren(lists, frees, *h);
            lemma_ren_ok(a.0, a.1, *t);
        },
        ExpKindV::Iter(x, _, _) => lemma_ren_ok(lists, frees, *x),
        _ => {},
    }
}

/// Renaming a list of expressions keeps the rename lists well formed.
pub proof fn lemma_ren_exps_ok(lists: Map<Seq<char>, Seq<Seq<char>>>, frees: Set<Seq<char>>, es: Seq<ExpV>)
    requires
        lists_ok(lists, frees),
    ensures
        lists_ok(ren_exps(lists, frees, es).0, ren_exps(lists, frees, es).1),
        ren_exps(lists, frees, es).0.dom() == lists.dom(),
    decreases es,
{
    if es.len() > 0 {
        lemma_ren_exps_ok(lists, frees, es.drop_last());
        let a = ren_exps(lists, frees, es.drop_last());
        lemma_ren_ok(a.0, a.1, es.last());
    }
}

/// Renaming a list of arguments keeps the rename lists well formed.
pub proof fn lemma_ren_args_ok(lists: Map<Seq<char>, Seq<Seq<char>>>, frees: Set<Seq<char>>, args: Seq<ArgV>)
    requires
        lists_ok(lists, frees),
    ensures
        lists_ok(ren_args(lists, frees, args).0, ren_args(lists, frees, args).1),
        ren_args(lists, frees, args).0.dom() == lists.dom(),
    decreases args.len(),
{
    if args.len() > 0 {
        lemma_ren_args_ok(lists, frees, args.drop_last());
        let a = ren_args(lists, frees, args.drop_last());
        match args.last() {
            ArgV::Exp(e) => lemma_ren_ok(a.0, a.1, *e),
            ArgV::Def(_) => {},
        }
    }
}

} // verus!
