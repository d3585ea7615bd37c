//! Binding analysis of definitions: expressions that must bind nothing, and
//! the validity of decision tables.
//!
//! The rows of a table must be mutually exclusive, and, unless the last row
//! closes the table with wildcard patterns only, exhaustive over the cases of
//! the parameter types.

use vstd::prelude::*;
use crate::span::Span;
use crate::il::{Arg, ArgV, CmpOp, Exp, ExpKind, ExpV, Id, NotExp, NotTyp, NotTypV, Typ, TypKind, args_view, exps_view, mixop_view, typ_kind_view, not_typ_view, typs_view};
use crate::il_typ::{clone_mixop, clone_typ_kind, lemma_typs_view};
use crate::il_def::{DefTypKind, DefTypV, TypeDef, TypeDefV, def_typ_view};
use crate::algo::error::{AlgoError, AlgoErrorKind};
use crate::algo::context::Context;
use crate::algo::dim::{Dim, DimV, VEnv};
use crate::algo::multiple::{RenameEnv, rename_entries, ids_names, names_of, ren, ren_args, ren_exps, ctx_kept, side_conditions, generate_side_conditions};
use crate::algo::iteration::{
    ICtx, IterationV, dims_keep, env_vars, iterate_shape, keep_vars, levels_iters, with_bind, with_bound_only, wrapped_at,
};
use crate::algo::partial::{PState, RenameV, penv, prn, prn_args, prn_exps, renames_prems, gen_prems};
use crate::algo::dimension::{inf, inf_entries, infer_exp};
use crate::al::{IfPrem, LetPrem, Prem, PremKind, PremShape, RulePrem, clone_rule_prem, prems_view};
use crate::il::exp_view;
use crate::il_exp::clone_exp;
use crate::ids::IdSet;
use crate::il_typ::{clone_id, clone_typ};
use crate::idmap::idmap_entries;
use crate::assoc::lemma_assoc_dom;
use crate::algo::pattern::{
    PatternSet, PatternSets, all_nonempty, find_missing, first_overlap, group_contains, group_view, first_stop, stops_at, lemma_first_stop_unique, arity_error, nonempty, prod_contains,
    sets_overlap, uncovered, lemma_overlap_product,
};
use crate::al::TableRow;
use crate::algo::bind::{BEnv, BindingV, binding_dim};
use crate::algo::collect::{coll, coll_arg, coll_args, coll_exps, collect_arg, collect_args, collect_exp, collect_exps,
    collection, collection_arg, collection_args, collection_exps};
use crate::algo::shallow::{check_arg, shallow_arg};

verus! {

broadcast use {vstd::string::axiom_spec_iter, vstd::string::next_postcondition};

/// Whether a name is a wildcard: it begins with an underscore.
pub open spec fn is_wildcard(id: Seq<char>) -> bool {
    id.len() > 0 && id[0] == '_'
}

fn starts_with_underscore(id: &Id) -> (b: bool)
    ensures
        b == is_wildcard(id@),
{
    let mut chars = id.node.as_str().chars();
    match chars.next() {
        Some(c) => c == '_',
        None => false,
    }
}

// == Environments after renaming

/// `v` with each of `names` bound to `d`.
pub open spec fn insert_names(v: Map<Seq<char>, DimV>, names: Seq<Seq<char>>, d: DimV) -> Map<Seq<char>, DimV>
    decreases names.len(),
{
    if names.len() == 0 {
        v
    } else {
        insert_names(v, names.drop_last(), d).insert(names.last(), d)
    }
}

/// The bound variables after repeated binders are renamed: each rename gets
/// the dimension of its binder, list by list.
pub open spec fn venv_multiple(v: Map<Seq<char>, DimV>, lists: Seq<(Seq<char>, Seq<Seq<char>>)>) -> Map<Seq<char>, DimV>
    decreases lists.len(),
{
    if lists.len() == 0 {
        v
    } else {
        let v1 = venv_multiple(v, lists.drop_last());
        insert_names(v1, lists.last().1, v1[lists.last().0])
    }
}

/// The bound variables after partial patterns are rewritten: each fresh
/// variable is bound at its own iterations followed by those of its context.
pub open spec fn venv_partial(v: Map<Seq<char>, DimV>, renames: Seq<RenameV>) -> Map<Seq<char>, DimV>
    decreases renames.len(),
{
    if renames.len() == 0 {
        v
    } else {
        let r = renames.last();
        venv_partial(v, renames.drop_last()).insert(
            r.destination.id,
            DimV { typ: r.destination.typ, iters: r.destination.iters + levels_iters(r.iter_ctx, r.iter_ctx.len() as int) },
        )
    }
}

proof fn lemma_insert_names_dom(v: Map<Seq<char>, DimV>, names: Seq<Seq<char>>, d: DimV)
    ensures
        v.dom().subset_of(insert_names(v, names, d).dom()),
    decreases names.len(),
{
    if names.len() > 0 {
        lemma_insert_names_dom(v, names.drop_last(), d);
    }
}

/// Binds the renames of every repeated binder at the binder's dimension.
pub fn update_venv_multiple(venv: &mut VEnv, renv: &RenameEnv)
    requires
        old(venv).wf(),
        renv.wf(),
        forall|k: Seq<char>| #[trigger] renv.renames@.contains_key(k) ==> old(venv)@.contains_key(k),
    ensures
        final(venv).wf(),
        final(venv)@ == venv_multiple(old(venv)@, rename_entries(renv.renames.entries@)),
{
    let ghost lists = rename_entries(renv.renames.entries@);
    let entries = renv.iter();
    proof {
        lemma_assoc_dom(idmap_entries(renv.renames.entries@));
        assert(lists.take(0) =~= Seq::<(Seq<char>, Seq<Seq<char>>)>::empty());
    }
    for i in 0..entries.len()
        invariant
            *entries == renv.renames.entries,
            lists == rename_entries(renv.renames.entries@),
            venv.wf(),
            venv@ == venv_multiple(old(venv)@, lists.take(i as int)),
            old(venv)@.dom().subset_of(venv@.dom()),
            forall|k: Seq<char>| #[trigger] renv.renames@.contains_key(k) ==> old(venv)@.contains_key(k),
            forall|k: Seq<char>| #[trigger] renv.renames@.contains_key(k)
                <==> exists|j: int| 0 <= j < idmap_entries(renv.renames.entries@).len() && idmap_entries(renv.renames.entries@)[j].0 == k,
    {
        let id = &entries[i].0;
        let names = &entries[i].1;
        proof {
            assert(idmap_entries(renv.renames.entries@)[i as int].0 == id@);
            assert(renv.renames@.contains_key(id@));
            assert(lists.take(i + 1).drop_last() =~= lists.take(i as int));
            assert(lists.take(i + 1).last() == (id@, ids_names(names@)));
        }
        let dim = venv.get(id).unwrap().clone_dim();
        let ghost v1 = venv@;
        let ghost ns = ids_names(names@);
        proof {
            assert(ns.take(0) =~= Seq::<Seq<char>>::empty());
        }
        for j in 0..names.len()
            invariant
                *names == entries@[i as int].1,
                ns == ids_names(names@),
                venv.wf(),
                venv@ == insert_names(v1, ns.take(j as int), dim@),
        {
            proof {
                assert(ns.take(j + 1).drop_last() =~= ns.take(j as int));
                assert(ns.take(j + 1).last() == names@[j as int]@);
            }
            venv.insert(clone_id(&names[j]), dim.clone_dim());
        }
        proof {
            assert(ns.take(names@.len() as int) =~= ns);
            lemma_insert_names_dom(v1, ns, dim@);
        }
    }
    proof {
        assert(lists.take(entries@.len() as int) =~= lists);
    }
}

/// Binds every fresh variable of a partial rewriting.
pub fn update_venv_partial(venv: &mut VEnv, renv: &crate::algo::partial::RenameEnv)
    requires
        old(venv).wf(),
    ensures
        final(venv).wf(),
        final(venv)@ == venv_partial(old(venv)@, renv@),
{
    let ghost rs = renv@;
    proof {
        assert(rs.take(0) =~= Seq::<RenameV>::empty());
    }
    for i in 0..renv.renames.len()
        invariant
            rs == renv@,
            venv.wf(),
            venv@ == venv_partial(old(venv)@, rs.take(i as int)),
    {
        let rename = &renv.renames[i];
        let mut iters = rename.destination.iters.clone();
        let mut outer = rename.iter_ctx.iters();
        iters.append(&mut outer);
        proof {
            assert(rs.take(i + 1).drop_last() =~= rs.take(i as int));
            assert(rs.take(i + 1).last() == rename@);
        }
        venv.insert(clone_id(&rename.destination.id), Dim { typ: clone_typ(&rename.destination.typ), iters });
    }
    proof {
        assert(rs.take(renv.renames@.len() as int) =~= rs);
    }
}

// == Binding a list of patterns

/// The repeated binders of `b`, none renamed yet.
pub open spec fn empty_lists(b: Map<Seq<char>, BindingV>) -> Map<Seq<char>, Seq<Seq<char>>> {
    Map::new(|k: Seq<char>| b.contains_key(k) && b[k] is Multiple, |k: Seq<char>| Seq::<Seq<char>>::empty())
}

/// `b` holds the binders collected from `exps`, and `m` is the rename
/// environment that renaming their repeated occurrences leaves, with the
/// renamed patterns `es1` and the names then in use `frees1`.
pub open spec fn renamed_by(ctx: Context, exps: Seq<Exp>, b: BEnv, m: RenameEnv, es1: Seq<ExpV>, frees1: Set<Seq<char>>) -> bool {
    &&& b.wf()
    &&& coll_exps(ctx.venv@, exps) == Some(b@)
    &&& m.wf()
    &&& forall|k: Seq<char>| #[trigger] m.renames@.contains_key(k) <==> (b@.contains_key(k) && b@[k] is Multiple)
    &&& forall|k: Seq<char>| #[trigger] m.dimensions@.contains_key(k) ==> b@[k] == BindingV::Multiple(m.dimensions@[k])
    &&& ren_exps(empty_lists(b@), ctx.frees@, exps_view(exps)) == (names_of(m.renames@), frees1, es1)
}

/// The variables bound once the repeated binders are renamed.
pub open spec fn venv_renamed(b: BEnv, m: RenameEnv) -> Map<Seq<char>, DimV> {
    venv_multiple(b@.map_values(|x: BindingV| binding_dim(x)), rename_entries(m.renames.entries@))
}

/// The side conditions of the renamed binders under the iterations `ictx`.
pub open spec fn sides(m: RenameEnv, ictx: Seq<IterationV>) -> Seq<PremShape> {
    side_conditions(rename_entries(m.renames.entries@), m.dimensions@, levels_iters(ictx, ictx.len() as int))
}

/// The rewriting of partial patterns that follows the renaming.
pub open spec fn partial_of(ctx: Context, b: BEnv, m: RenameEnv, es1: Seq<ExpV>, frees1: Set<Seq<char>>) -> Result<(PState, Seq<ExpV>), AlgoErrorKind> {
    prn_exps(penv(ctx, venv_renamed(b, m).dom()), PState { frees: frees1, renames: Seq::empty(), ictx: Seq::empty() }, es1)
}

/// Binding the patterns `exps` under the iterations `ictx` gave the bound
/// variables `venv`, the rewritten patterns `es`, the premises `prems`, and
/// left `frees_after` in use: through the collected binders `b`, the
/// renaming `m` and the partial rewriting's renames `rp`.
pub open spec fn bind_result(
    ctx: Context,
    frees_after: Set<Seq<char>>,
    ictx: Seq<IterationV>,
    exps: Seq<Exp>,
    b: BEnv,
    m: RenameEnv,
    es1: Seq<ExpV>,
    frees1: Set<Seq<char>>,
    rp: crate::algo::partial::RenameEnv,
    venv: Map<Seq<char>, DimV>,
    es: Seq<ExpV>,
    prems: Seq<PremShape>,
) -> bool {
    &&& renamed_by(ctx, exps, b, m, es1, frees1)
    &&& partial_of(ctx, b, m, es1, frees1) == Ok::<(PState, Seq<ExpV>), AlgoErrorKind>(
            (PState { frees: frees_after, renames: rp@, ictx: Seq::empty() }, es))
    &&& renames_prems(ctx.tdenv@, ctx.tdenv.entries@.len(), rp.renames@, ictx) matches Ok(gp) && prems == gp + sides(m, ictx)
    &&& venv == venv_partial(venv_renamed(b, m), rp@)
}

/// Binding the patterns failed with `k` after the binders were collected:
/// in the partial rewriting, or in the premises of its renames `rp`.
pub open spec fn bind_failure(
    ctx: Context,
    ictx: Seq<IterationV>,
    exps: Seq<Exp>,
    b: BEnv,
    m: RenameEnv,
    es1: Seq<ExpV>,
    frees1: Set<Seq<char>>,
    rp: crate::algo::partial::RenameEnv,
    k: AlgoErrorKind,
) -> bool {
    &&& renamed_by(ctx, exps, b, m, es1, frees1)
    &&& (partial_of(ctx, b, m, es1, frees1) == Err::<(PState, Seq<ExpV>), AlgoErrorKind>(k)
        || (partial_of(ctx, b, m, es1, frees1) matches Ok((st, _)) && st.renames == rp@
            && renames_prems(ctx.tdenv@, ctx.tdenv.entries@.len(), rp.renames@, ictx) == Err::<Seq<PremShape>, AlgoErrorKind>(k)))
}

/// Binds the variables of a list of patterns under the iterations
/// `iter_ctx`: collects the binders, renames their repeated occurrences,
/// rewrites partial patterns into fresh variables, and returns the bound
/// variables, the rewritten patterns, and the premises the rewriting needs
/// followed by the side conditions of the renaming.
pub fn analyze_exps_as_bind(ctx: &mut Context, iter_ctx: &ICtx, exps_il: &Vec<Exp>) -> (r: Result<(VEnv, Vec<Exp>, Vec<Prem>), AlgoError>)
    requires
        old(ctx).wf(),
    ensures
        ctx_kept(*old(ctx), *final(ctx)),
        r matches Ok(x) ==> x.1@.len() == exps_il@.len(),
        match r {
            Ok((venv, es, prems)) => venv.wf() && exists|b: BEnv, m: RenameEnv, es1: Seq<ExpV>, frees1: Set<Seq<char>>, rp: crate::algo::partial::RenameEnv|
                #[trigger] bind_result(*old(ctx), final(ctx).frees@, iter_ctx@, exps_il@, b, m, es1, frees1, rp, venv@, exps_view(es@), prems_view(prems@)),
            Err(e) => (coll_exps(old(ctx).venv@, exps_il@) is None && collection_exps(old(ctx).venv@, exps_il@) == Err::<Seq<(Id, BindingV)>, AlgoError>(e))
                || exists|b: BEnv, m: RenameEnv, es1: Seq<ExpV>, frees1: Set<Seq<char>>, rp: crate::algo::partial::RenameEnv|
                    #[trigger] bind_failure(*old(ctx), iter_ctx@, exps_il@, b, m, es1, frees1, rp, e.kind),
        },
{
    let ghost ctx0 = *ctx;
    let benv = match collect_exps(ctx, exps_il) {
        Ok(b) => b,
        Err(e) => {
            proof {
                assert(coll_exps(ctx0.venv@, exps_il@) is None && collection_exps(ctx0.venv@, exps_il@) == Err::<Seq<(Id, BindingV)>, AlgoError>(e));
            }
            return Err(e);
        },
    };
    let mut venv = benv.flatten();
    let mut renv_m = RenameEnv::from_bindings(&benv);
    proof {
        assert(names_of(renv_m.renames@) =~= empty_lists(benv@)) by {
            assert forall|k: Seq<char>| #[trigger] names_of(renv_m.renames@).contains_key(k) implies
                names_of(renv_m.renames@)[k] == empty_lists(benv@)[k] by {
                assert(renv_m.renames@[k].len() == 0);
                assert(ids_names(renv_m.renames@[k]) =~= Seq::<Seq<char>>::empty());
            }
        }
    }
    let exps_al = crate::algo::multiple::rename_exps(ctx, &mut renv_m, exps_il);
    let ghost ctx1 = *ctx;
    let ghost es1 = exps_view(exps_al@);
    proof {
        assert(renamed_by(ctx0, exps_il@, benv, renv_m, es1, ctx1.frees@));
        assert forall|k: Seq<char>| #[trigger] renv_m.renames@.contains_key(k) implies venv@.contains_key(k) by {
            assert(benv@.contains_key(k));
        }
    }
    update_venv_multiple(&mut venv, &renv_m);
    let mut side = generate_side_conditions(iter_ctx, &renv_m);
    let mut renv_p = crate::algo::partial::RenameEnv::new();
    let mut ictx = ICtx::new();
    let binds = venv.domain();
    proof {
        assert(venv@ == venv_renamed(benv, renv_m));
        assert(penv(ctx1, binds@) == penv(ctx0, venv_renamed(benv, renv_m).dom()));
    }
    let exps_al = match crate::algo::partial::rename_exps(ctx, &binds, &mut renv_p, &mut ictx, &exps_al) {
        Ok(x) => x,
        Err(e) => {
            proof {
                assert(bind_failure(ctx0, iter_ctx@, exps_il@, benv, renv_m, es1, ctx1.frees@, renv_p, e.kind));
            }
            return Err(e);
        },
    };
    proof {
        assert(ictx@ =~= Seq::<IterationV>::empty());
    }
    update_venv_partial(&mut venv, &renv_p);
    let mut prems = match gen_prems(ctx, iter_ctx, &renv_p) {
        Ok(p) => p,
        Err(e) => {
            proof {
                assert(bind_failure(ctx0, iter_ctx@, exps_il@, benv, renv_m, es1, ctx1.frees@, renv_p, e.kind));
            }
            return Err(e);
        },
    };
    let ghost gp = prems_view(prems@);
    let ghost sv = prems_view(side@);
    prems.append(&mut side);
    proof {
        assert(prems_view(prems@) =~= gp + sv);
    }
    let r = (venv, exps_al, prems);
    proof {
        assert(bind_result(ctx0, ctx.frees@, iter_ctx@, exps_il@, benv, renv_m, es1, ctx1.frees@, renv_p, r.0@,
            exps_view(r.1@), prems_view(r.2@)));
    }
    Ok(r)
}

// == Let premises

/// `renamed_by` for the one pattern `exp` whose binders are `b`.
pub open spec fn renamed_exp_by(ctx: Context, exp: Exp, b: BEnv, m: RenameEnv, e1: ExpV, frees1: Set<Seq<char>>) -> bool {
    &&& b.wf()
    &&& m.wf()
    &&& forall|k: Seq<char>| #[trigger] m.renames@.contains_key(k) <==> (b@.contains_key(k) && b@[k] is Multiple)
    &&& forall|k: Seq<char>| #[trigger] m.dimensions@.contains_key(k) ==> b@[k] == BindingV::Multiple(m.dimensions@[k])
    &&& ren(empty_lists(b@), ctx.frees@, exp_view(exp)) == (names_of(m.renames@), frees1, e1)
}

/// The rewriting of the partial patterns of one renamed pattern.
pub open spec fn partial_of_exp(ctx: Context, b: BEnv, m: RenameEnv, e1: ExpV, frees1: Set<Seq<char>>) -> Result<(PState, ExpV), AlgoErrorKind> {
    prn(penv(ctx, venv_renamed(b, m).dom()), PState { frees: frees1, renames: Seq::empty(), ictx: Seq::empty() }, e1)
}

/// The enclosing iterations of a let premise binding `el` from `er`: each
/// level ranges only over the variables that `er` reads at a dimension
/// covered by theirs, and binds the variables of `el`.
pub open spec fn let_levels(ictx: Seq<IterationV>, el: Exp, er: Exp) -> Seq<IterationV> {
    let vr = inf(Map::empty(), er, Seq::empty());
    let c1 = Seq::new(ictx.len(), |l: int| with_bound_only(ictx[l], keep_vars(ictx[l].vars_bound, dims_keep(vr))));
    Seq::new(c1.len(), |l: int| with_bind(c1[l], env_vars(inf_entries(el), levels_iters(c1, l))))
}

/// Every level ranges over some variable.
pub open spec fn levels_valid(c: Seq<IterationV>) -> bool {
    forall|l: int| 0 <= l < c.len() ==> (#[trigger] c[l]).vars_bound.len() > 0
}

/// The error for the first level that ranges over nothing, at `span`.
pub open spec fn level_error(c: Seq<IterationV>, span: Span, e: AlgoError) -> bool {
    e.span == span && exists|l: int| 0 <= l < c.len()
        && (#[trigger] c[l]).vars_bound.len() == 0
        && (forall|m: int| 0 <= m < l ==> (#[trigger] c[m]).vars_bound.len() > 0)
        && e.kind == (if c[l].vars_bind.len() == 0 {
            AlgoErrorKind::EmptyIteration
        } else {
            AlgoErrorKind::UndeterminedBindingDimension
        })
}

/// Analysing the let premise that binds `exp_l`, whose binders are `b`,
/// from `exp_r` under the iterations `ictx` gave the bound variables
/// `venv`, the premise `prem` and the premises `prems` it needs; `el` is
/// the rewritten left side.
pub open spec fn let_result(
    ctx: Context,
    frees_after: Set<Seq<char>>,
    ictx: Seq<IterationV>,
    exp_l: Exp,
    b: BEnv,
    exp_r: Exp,
    m: RenameEnv,
    e1: ExpV,
    frees1: Set<Seq<char>>,
    rp: crate::algo::partial::RenameEnv,
    el: Exp,
    venv: Map<Seq<char>, DimV>,
    prem: PremShape,
    prems: Seq<PremShape>,
) -> bool {
    &&& renamed_exp_by(ctx, exp_l, b, m, e1, frees1)
    &&& partial_of_exp(ctx, b, m, e1, frees1) matches Ok((st, x)) && st.frees == frees_after && st.renames == rp@
        && x == exp_view(el)
    &&& renames_prems(ctx.tdenv@, ctx.tdenv.entries@.len(), rp.renames@, ictx) matches Ok(gp) && prems == gp + sides(m, ictx)
    &&& venv == venv_partial(venv_renamed(b, m), rp@)
    &&& levels_valid(let_levels(ictx, el, exp_r))
    &&& prem == iterate_shape(PremShape::Let(exp_view(el), exp_view(exp_r)), let_levels(ictx, el, exp_r), ictx.len() as int)
}

/// Analysing the let premise failed with `e`: in the partial rewriting, in
/// the premises of its renames, or at a level that ranges over nothing.
pub open spec fn let_failure(
    ctx: Context,
    ictx: Seq<IterationV>,
    span: Span,
    exp_l: Exp,
    b: BEnv,
    exp_r: Exp,
    m: RenameEnv,
    e1: ExpV,
    frees1: Set<Seq<char>>,
    rp: crate::algo::partial::RenameEnv,
    el: Exp,
    e: AlgoError,
) -> bool {
    &&& renamed_exp_by(ctx, exp_l, b, m, e1, frees1)
    &&& (partial_of_exp(ctx, b, m, e1, frees1) == Err::<(PState, ExpV), AlgoErrorKind>(e.kind)
        || (partial_of_exp(ctx, b, m, e1, frees1) matches Ok((st, x)) && st.renames == rp@ && x == exp_view(el) && (
            renames_prems(ctx.tdenv@, ctx.tdenv.entries@.len(), rp.renames@, ictx) == Err::<Seq<PremShape>, AlgoErrorKind>(e.kind)
            || (renames_prems(ctx.tdenv@, ctx.tdenv.entries@.len(), rp.renames@, ictx) is Ok
                && level_error(let_levels(ictx, el, exp_r), span, e)))))
}

/// Analyses the premise that binds the variables `benv_l` of `exp_l` by
/// matching `exp_r`, under the iterations `iter_ctx`: renames and rewrites
/// the pattern as `analyze_exps_as_bind` does, then iterates the let premise
/// over the enclosing levels, each ranging over what `exp_r` reads and
/// binding what the pattern binds.
pub fn analyze_let_prem(ctx: &mut Context, span: Span, iter_ctx: ICtx, exp_l: &Exp, benv_l: &BEnv, exp_r: &Exp) -> (r: Result<(VEnv, Prem, Vec<Prem>), AlgoError>)
    requires
        old(ctx).wf(),
        benv_l.wf(),
    ensures
        ctx_kept(*old(ctx), *final(ctx)),
        r matches Ok((_, prem, _)) ==> wrapped_at(prem, iter_ctx@.len() as nat, span),
        match r {
            Ok((venv, prem, prems)) => venv.wf() && exists|m: RenameEnv, e1: ExpV, frees1: Set<Seq<char>>, rp: crate::algo::partial::RenameEnv, el: Exp|
                #[trigger] let_result(*old(ctx), final(ctx).frees@, iter_ctx@, *exp_l, *benv_l, *exp_r, m, e1, frees1, rp, el, venv@, prem@, prems_view(prems@)),
            Err(e) => exists|m: RenameEnv, e1: ExpV, frees1: Set<Seq<char>>, rp: crate::algo::partial::RenameEnv, el: Exp|
                #[trigger] let_failure(*old(ctx), iter_ctx@, span, *exp_l, *benv_l, *exp_r, m, e1, frees1, rp, el, e),
        },
{
    let ghost ctx0 = *ctx;
    let ghost ictx0 = iter_ctx@;
    let mut venv = benv_l.flatten();
    let mut renv_m = RenameEnv::from_bindings(benv_l);
    proof {
        assert(names_of(renv_m.renames@) =~= empty_lists(benv_l@)) by {
            assert forall|k: Seq<char>| #[trigger] names_of(renv_m.renames@).contains_key(k) implies
                names_of(renv_m.renames@)[k] == empty_lists(benv_l@)[k] by {
                assert(renv_m.renames@[k].len() == 0);
                assert(ids_names(renv_m.renames@[k]) =~= Seq::<Seq<char>>::empty());
            }
        }
    }
    let exp_l_al = crate::algo::multiple::rename_exp(ctx, &mut renv_m, exp_l);
    let ghost ctx1 = *ctx;
    let ghost e1 = exp_view(exp_l_al);
    proof {
        assert(renamed_exp_by(ctx0, *exp_l, *benv_l, renv_m, e1, ctx1.frees@));
        assert forall|k: Seq<char>| #[trigger] renv_m.renames@.contains_key(k) implies venv@.contains_key(k) by {
            assert(benv_l@.contains_key(k));
        }
    }
    update_venv_multiple(&mut venv, &renv_m);
    let mut side = generate_side_conditions(&iter_ctx, &renv_m);
    let mut renv_p = crate::algo::partial::RenameEnv::new();
    let mut ictx_exp = ICtx::new();
    let binds = venv.domain();
    proof {
        assert(venv@ == venv_renamed(*benv_l, renv_m));
        assert(penv(ctx1, binds@) == penv(ctx0, venv_renamed(*benv_l, renv_m).dom()));
    }
    let exp_l_al = match crate::algo::partial::rename_exp(ctx, &binds, &mut renv_p, &mut ictx_exp, &exp_l_al) {
        Ok(x) => x,
        Err(e) => {
            proof {
                assert(let_failure(ctx0, ictx0, span, *exp_l, *benv_l, *exp_r, renv_m, e1, ctx1.frees@, renv_p, *exp_l, e));
            }
            return Err(e);
        },
    };
    proof {
        assert(ictx_exp@ =~= Seq::<IterationV>::empty());
    }
    update_venv_partial(&mut venv, &renv_p);
    let mut prems = match gen_prems(ctx, &iter_ctx, &renv_p) {
        Ok(p) => p,
        Err(e) => {
            proof {
                assert(let_failure(ctx0, ictx0, span, *exp_l, *benv_l, *exp_r, renv_m, e1, ctx1.frees@, renv_p, exp_l_al, e));
            }
            return Err(e);
        },
    };
    let ghost gp = prems_view(prems@);
    let ghost sv = prems_view(side@);
    prems.append(&mut side);
    proof {
        assert(prems_view(prems@) =~= gp + sv);
    }
    let venv_l = infer_exp(&exp_l_al);
    let venv_r = infer_exp(exp_r);
    let mut levels = iter_ctx;
    levels.filter_bound(&venv_r, &IdSet::new(), true);
    let ghost c1 = levels@;
    levels.add_vars_bind(&venv_l);
    proof {
        let vr = inf(Map::empty(), *exp_r, Seq::empty());
        assert(c1 =~= Seq::new(ictx0.len(), |l: int| with_bound_only(ictx0[l], keep_vars(ictx0[l].vars_bound, dims_keep(vr)))));
        assert(levels@ =~= let_levels(ictx0, exp_l_al, *exp_r));
    }
    match levels.validate(span) {
        Ok(()) => {},
        Err(e) => {
            proof {
                assert(let_failure(ctx0, ictx0, span, *exp_l, *benv_l, *exp_r, renv_m, e1, ctx1.frees@, renv_p, exp_l_al, e));
            }
            return Err(e);
        },
    }
    let ghost el = exp_l_al;
    let prem = Prem { node: PremKind::Let(LetPrem { exp_l: exp_l_al, exp_r: clone_exp(exp_r) }), span };
    let prem = levels.iterate_prem(prem);
    let r = (venv, prem, prems);
    proof {
        assert(let_result(ctx0, ctx.frees@, ictx0, *exp_l, *benv_l, *exp_r, renv_m, e1, ctx1.frees@, renv_p, el,
            r.0@, r.1@, prems_view(r.2@)));
    }
    Ok(r)
}

// == Conditional premises

/// `b` holds the binders collected from `exp`.
pub open spec fn collected_as(ctx: Context, exp: Exp, b: BEnv) -> bool {
    b.wf() && coll(ctx.venv@, exp) == Some(b@)
}

/// The let premise binding `pat` from `src` succeeded with the results
/// `venv`, `prem` and `prems`, for the binders `b` of `pat`.
pub open spec fn eq_let_result(
    ctx: Context,
    frees_after: Set<Seq<char>>,
    ictx: Seq<IterationV>,
    pat: Exp,
    src: Exp,
    b: BEnv,
    m: RenameEnv,
    e1: ExpV,
    frees1: Set<Seq<char>>,
    rp: crate::algo::partial::RenameEnv,
    el: Exp,
    venv: Map<Seq<char>, DimV>,
    prem: PremShape,
    prems: Seq<PremShape>,
) -> bool {
    collected_as(ctx, pat, b) && let_result(ctx, frees_after, ictx, pat, b, src, m, e1, frees1, rp, el, venv, prem, prems)
}

/// The let premise binding `pat` from `src` failed with `e`, for the
/// binders `b` of `pat`.
pub open spec fn eq_let_failure(
    ctx: Context,
    ictx: Seq<IterationV>,
    span: Span,
    pat: Exp,
    src: Exp,
    b: BEnv,
    m: RenameEnv,
    e1: ExpV,
    frees1: Set<Seq<char>>,
    rp: crate::algo::partial::RenameEnv,
    el: Exp,
    e: AlgoError,
) -> bool {
    collected_as(ctx, pat, b) && let_failure(ctx, ictx, span, pat, b, src, m, e1, frees1, rp, el, e)
}

/// What analysing the let premise binding `pat` from `src` returns.
pub open spec fn let_outcome(
    ctx: Context,
    frees_after: Set<Seq<char>>,
    ictx: Seq<IterationV>,
    span: Span,
    pat: Exp,
    src: Exp,
    r: Result<(VEnv, Prem, Vec<Prem>), AlgoError>,
) -> bool {
    match r {
        Ok((venv, prem, prems)) => venv.wf() && exists|b: BEnv, m: RenameEnv, e1: ExpV, frees1: Set<Seq<char>>, rp: crate::algo::partial::RenameEnv, el: Exp|
            #[trigger] eq_let_result(ctx, frees_after, ictx, pat, src, b, m, e1, frees1, rp, el, venv@, prem@, prems_view(prems@)),
        Err(e) => exists|b: BEnv, m: RenameEnv, e1: ExpV, frees1: Set<Seq<char>>, rp: crate::algo::partial::RenameEnv, el: Exp|
            #[trigger] eq_let_failure(ctx, ictx, span, pat, src, b, m, e1, frees1, rp, el, e),
    }
}

/// A premise that binds nothing: the premise `p` iterated over `ictx`.
pub open spec fn plain_outcome(ictx: Seq<IterationV>, p: PremShape, r: Result<(VEnv, Prem, Vec<Prem>), AlgoError>) -> bool {
    r matches Ok((venv, prem, prems)) && venv.wf() && venv@ == Map::<Seq<char>, DimV>::empty()
        && prem@ == iterate_shape(p, ictx, ictx.len() as int) && prems@.len() == 0
}

/// What analysing the condition `exp`, the equality of `l` and `r`,
/// returns: a condition when neither side binds, a let premise when one
/// side does, an error when both do or when collection fails.
pub open spec fn if_eq_outcome(
    ctx: Context,
    ctx_after: Context,
    ictx: Seq<IterationV>,
    span: Span,
    exp: Exp,
    l: Exp,
    r: Exp,
    res: Result<(VEnv, Prem, Vec<Prem>), AlgoError>,
) -> bool {
    match coll(ctx.venv@, l) {
        None => res matches Err(e) && collection(ctx.venv@, l) == Err::<Seq<(Id, BindingV)>, AlgoError>(e) && ctx_after == ctx,
        Some(bl) => match coll(ctx.venv@, r) {
            None => res matches Err(e) && collection(ctx.venv@, r) == Err::<Seq<(Id, BindingV)>, AlgoError>(e) && ctx_after == ctx,
            Some(br) => {
                let none = Map::<Seq<char>, BindingV>::empty();
                if bl == none && br == none {
                    plain_outcome(ictx, PremShape::If(exp_view(exp)), res) && ctx_after == ctx
                } else if bl != none && br == none {
                    let_outcome(ctx, ctx_after.frees@, ictx, span, l, r, res)
                } else if bl == none && br != none {
                    let_outcome(ctx, ctx_after.frees@, ictx, span, r, l, res)
                } else {
                    res == Err::<(VEnv, Prem, Vec<Prem>), AlgoError>(AlgoError::new_spec(AlgoErrorKind::BindingOnBothEqualitySides, exp.span))
                        && ctx_after == ctx
                }
            },
        },
    }
}

/// A premise that binds nothing, iterated over the enclosing levels.
fn plain_prem(iter_ctx: &ICtx, node: PremKind, span: Span) -> (r: Result<(VEnv, Prem, Vec<Prem>), AlgoError>)
    ensures
        plain_outcome(iter_ctx@, Prem { node, span }@, r),
        r matches Ok((_, prem, _)) ==> wrapped_at(prem, iter_ctx@.len() as nat, span),
{
    let prem = iter_ctx.iterate_prem(Prem { node, span });
    let prems: Vec<Prem> = Vec::new();
    Ok((VEnv::new(), prem, prems))
}

/// Analyses the condition `exp`, the equality of `exp_l` and `exp_r`: a
/// side that binds variables becomes the pattern of a let premise.
pub fn analyze_if_eq_prem(ctx: &mut Context, iter_ctx: ICtx, span: Span, exp: &Exp, exp_l: &Exp, exp_r: &Exp) -> (r: Result<(VEnv, Prem, Vec<Prem>), AlgoError>)
    requires
        old(ctx).wf(),
    ensures
        ctx_kept(*old(ctx), *final(ctx)),
        if_eq_outcome(*old(ctx), *final(ctx), iter_ctx@, span, *exp, *exp_l, *exp_r, r),
        r matches Ok((_, prem, _)) ==> wrapped_at(prem, iter_ctx@.len() as nat, span),
{
    let ghost ctx0 = *ctx;
    let ghost ictx0 = iter_ctx@;
    let benv_l = match collect_exp(ctx, exp_l) {
        Ok(b) => b,
        Err(e) => return Err(e),
    };
    let benv_r = match collect_exp(ctx, exp_r) {
        Ok(b) => b,
        Err(e) => return Err(e),
    };
    let empty_l = benv_l.is_empty();
    let empty_r = benv_r.is_empty();
    if empty_l && empty_r {
        plain_prem(&iter_ctx, PremKind::If(IfPrem { exp: clone_exp(exp) }), span)
    } else if !empty_l && empty_r {
        let r = analyze_let_prem(ctx, span, iter_ctx, exp_l, &benv_l, exp_r);
        let ghost rg = r;
        proof {
            match rg {
                Ok((venv, prem, prems)) => {
                    let (m, e1, f1, rp, el) = choose|m: RenameEnv, e1: ExpV, frees1: Set<Seq<char>>, rp: crate::algo::partial::RenameEnv, el: Exp|
                        #[trigger] let_result(ctx0, ctx.frees@, ictx0, *exp_l, benv_l, *exp_r, m, e1, frees1, rp, el, venv@, prem@, prems_view(prems@));
                    assert(eq_let_result(ctx0, ctx.frees@, ictx0, *exp_l, *exp_r, benv_l, m, e1, f1, rp, el, venv@, prem@, prems_view(prems@)));
                },
                Err(e) => {
                    let (m, e1, f1, rp, el) = choose|m: RenameEnv, e1: ExpV, frees1: Set<Seq<char>>, rp: crate::algo::partial::RenameEnv, el: Exp|
                        #[trigger] let_failure(ctx0, ictx0, span, *exp_l, benv_l, *exp_r, m, e1, frees1, rp, el, e);
                    assert(eq_let_failure(ctx0, ictx0, span, *exp_l, *exp_r, benv_l, m, e1, f1, rp, el, e));
                },
            }
        }
        r
    } else if empty_l && !empty_r {
        let r = analyze_let_prem(ctx, span, iter_ctx, exp_r, &benv_r, exp_l);
        let ghost rg = r;
        proof {
            match rg {
                Ok((venv, prem, prems)) => {
                    let (m, e1, f1, rp, el) = choose|m: RenameEnv, e1: ExpV, frees1: Set<Seq<char>>, rp: crate::algo::partial::RenameEnv, el: Exp|
                        #[trigger] let_result(ctx0, ctx.frees@, ictx0, *exp_r, benv_r, *exp_l, m, e1, frees1, rp, el, venv@, prem@, prems_view(prems@));
                    assert(eq_let_result(ctx0, ctx.frees@, ictx0, *exp_r, *exp_l, benv_r, m, e1, f1, rp, el, venv@, prem@, prems_view(prems@)));
                },
                Err(e) => {
                    let (m, e1, f1, rp, el) = choose|m: RenameEnv, e1: ExpV, frees1: Set<Seq<char>>, rp: crate::algo::partial::RenameEnv, el: Exp|
                        #[trigger] let_failure(ctx0, ictx0, span, *exp_r, benv_r, *exp_l, m, e1, frees1, rp, el, e);
                    assert(eq_let_failure(ctx0, ictx0, span, *exp_r, *exp_l, benv_r, m, e1, f1, rp, el, e));
                },
            }
        }
        r
    } else {
        Err(AlgoError::new(AlgoErrorKind::BindingOnBothEqualitySides, exp.span))
    }
}

/// Analyses a condition: an equality may bind the variables of one side;
/// any other condition must bind nothing.
pub fn analyze_if_prem(ctx: &mut Context, iter_ctx: ICtx, span: Span, if_prem: &IfPrem) -> (r: Result<(VEnv, Prem, Vec<Prem>), AlgoError>)
    requires
        old(ctx).wf(),
    ensures
        ctx_kept(*old(ctx), *final(ctx)),
        r matches Ok((_, prem, _)) ==> wrapped_at(prem, iter_ctx@.len() as nat, span),
        match if_prem.exp.node {
            ExpKind::Cmp(CmpOp::Eq, _, l, rhs) => if_eq_outcome(*old(ctx), *final(ctx), iter_ctx@, span, if_prem.exp, *l, *rhs, r),
            _ => *final(ctx) == *old(ctx) && if bound_ok(old(ctx).venv@, if_prem.exp) {
                plain_outcome(iter_ctx@, PremShape::If(exp_view(if_prem.exp)), r)
            } else {
                r matches Err(e) && bound_err(old(ctx).venv@, if_prem.exp, e)
            },
        },
{
    match &if_prem.exp.node {
        ExpKind::Cmp(CmpOp::Eq, _, l, rhs) => analyze_if_eq_prem(ctx, iter_ctx, span, &if_prem.exp, l, rhs),
        _ => {
            match analyze_exp_as_bound(ctx, &if_prem.exp) {
                Ok(()) => {},
                Err(e) => return Err(e),
            }
            plain_prem(&iter_ctx, PremKind::If(IfPrem { exp: clone_exp(&if_prem.exp) }), span)
        },
    }
}

/// Analyses a premise that a relation holds, or does not: its arguments
/// must bind nothing.
fn analyze_hold_prem(ctx: &Context, iter_ctx: ICtx, span: Span, rule: &RulePrem, holds: bool) -> (r: Result<(VEnv, Prem, Vec<Prem>), AlgoError>)
    requires
        ctx.wf(),
    ensures
        (forall|i: int| 0 <= i < rule.not_exp.args@.len() ==> #[trigger] bound_ok(ctx.venv@, rule.not_exp.args@[i]))
            ==> plain_outcome(iter_ctx@, if holds {
                PremShape::IfHold(rule.id@, mixop_view(rule.not_exp.mixop), exps_view(rule.not_exp.args@))
            } else {
                PremShape::IfNotHold(rule.id@, mixop_view(rule.not_exp.mixop), exps_view(rule.not_exp.args@))
            }, r),
        !(forall|i: int| 0 <= i < rule.not_exp.args@.len() ==> #[trigger] bound_ok(ctx.venv@, rule.not_exp.args@[i]))
            ==> (r matches Err(e) && first_bound_err(ctx.venv@, rule.not_exp.args@, e)),
        r matches Ok((_, prem, _)) ==> wrapped_at(prem, iter_ctx@.len() as nat, span),
{
    match analyze_exps_as_bound(ctx, &rule.not_exp.args) {
        Ok(()) => {},
        Err(e) => return Err(e),
    }
    let copy = clone_rule_prem(rule);
    let node = if holds { PremKind::IfHold(copy) } else { PremKind::IfNotHold(copy) };
    plain_prem(&iter_ctx, node, span)
}

/// Analyses a premise that a relation holds.
pub fn analyze_if_hold_prem(ctx: &Context, iter_ctx: ICtx, span: Span, rule: &RulePrem) -> (r: Result<(VEnv, Prem, Vec<Prem>), AlgoError>)
    requires
        ctx.wf(),
    ensures
        (forall|i: int| 0 <= i < rule.not_exp.args@.len() ==> #[trigger] bound_ok(ctx.venv@, rule.not_exp.args@[i]))
            ==> plain_outcome(iter_ctx@, PremShape::IfHold(rule.id@, mixop_view(rule.not_exp.mixop), exps_view(rule.not_exp.args@)), r),
        !(forall|i: int| 0 <= i < rule.not_exp.args@.len() ==> #[trigger] bound_ok(ctx.venv@, rule.not_exp.args@[i]))
            ==> (r matches Err(e) && first_bound_err(ctx.venv@, rule.not_exp.args@, e)),
        r matches Ok((_, prem, _)) ==> wrapped_at(prem, iter_ctx@.len() as nat, span),
{
    analyze_hold_prem(ctx, iter_ctx, span, rule, true)
}

/// Analyses a premise that a relation does not hold.
pub fn analyze_if_not_hold_prem(ctx: &Context, iter_ctx: ICtx, span: Span, rule: &RulePrem) -> (r: Result<(VEnv, Prem, Vec<Prem>), AlgoError>)
    requires
        ctx.wf(),
    ensures
        (forall|i: int| 0 <= i < rule.not_exp.args@.len() ==> #[trigger] bound_ok(ctx.venv@, rule.not_exp.args@[i]))
            ==> plain_outcome(iter_ctx@, PremShape::IfNotHold(rule.id@, mixop_view(rule.not_exp.mixop), exps_view(rule.not_exp.args@)), r),
        !(forall|i: int| 0 <= i < rule.not_exp.args@.len() ==> #[trigger] bound_ok(ctx.venv@, rule.not_exp.args@[i]))
            ==> (r matches Err(e) && first_bound_err(ctx.venv@, rule.not_exp.args@, e)),
        r matches Ok((_, prem, _)) ==> wrapped_at(prem, iter_ctx@.len() as nat, span),
{
    analyze_hold_prem(ctx, iter_ctx, span, rule, false)
}

/// Analyses a debugging premise: its expression must bind nothing.
pub fn analyze_debug_prem(ctx: &Context, iter_ctx: ICtx, span: Span, debug: &IfPrem) -> (r: Result<(VEnv, Prem, Vec<Prem>), AlgoError>)
    requires
        ctx.wf(),
    ensures
        bound_ok(ctx.venv@, debug.exp) ==> plain_outcome(iter_ctx@, PremShape::Debug(exp_view(debug.exp)), r),
        !bound_ok(ctx.venv@, debug.exp) ==> (r matches Err(e) && bound_err(ctx.venv@, debug.exp, e)),
        r matches Ok((_, prem, _)) ==> wrapped_at(prem, iter_ctx@.len() as nat, span),
{
    match analyze_exp_as_bound(ctx, &debug.exp) {
        Ok(()) => {},
        Err(e) => return Err(e),
    }
    plain_prem(&iter_ctx, PremKind::Debug(IfPrem { exp: clone_exp(&debug.exp) }), span)
}

// == Binding a list of arguments

/// `renamed_by` for the arguments `args`.
pub open spec fn renamed_args_by(ctx: Context, args: Seq<Arg>, b: BEnv, m: RenameEnv, as1: Seq<ArgV>, frees1: Set<Seq<char>>) -> bool {
    &&& b.wf()
    &&& coll_args(ctx.venv@, args) == Some(b@)
    &&& m.wf()
    &&& forall|k: Seq<char>| #[trigger] m.renames@.contains_key(k) <==> (b@.contains_key(k) && b@[k] is Multiple)
    &&& forall|k: Seq<char>| #[trigger] m.dimensions@.contains_key(k) ==> b@[k] == BindingV::Multiple(m.dimensions@[k])
    &&& ren_args(empty_lists(b@), ctx.frees@, args_view(args)) == (names_of(m.renames@), frees1, as1)
}

/// The rewriting of partial patterns among renamed arguments.
pub open spec fn partial_of_args(ctx: Context, b: BEnv, m: RenameEnv, as1: Seq<ArgV>, frees1: Set<Seq<char>>) -> Result<(PState, Seq<ArgV>), AlgoErrorKind> {
    prn_args(penv(ctx, venv_renamed(b, m).dom()), PState { frees: frees1, renames: Seq::empty(), ictx: Seq::empty() }, as1)
}

/// `bind_result` for arguments, outside any iteration; the side conditions
/// of the renaming follow the premises.
pub open spec fn bind_args_result(
    ctx: Context,
    frees_after: Set<Seq<char>>,
    args: Seq<Arg>,
    b: BEnv,
    m: RenameEnv,
    as1: Seq<ArgV>,
    frees1: Set<Seq<char>>,
    rp: crate::algo::partial::RenameEnv,
    venv: Map<Seq<char>, DimV>,
    out: Seq<ArgV>,
    prems: Seq<PremShape>,
) -> bool {
    &&& renamed_args_by(ctx, args, b, m, as1, frees1)
    &&& partial_of_args(ctx, b, m, as1, frees1) matches Ok((st, xs)) && st.frees == frees_after && st.renames == rp@ && xs == out
    &&& renames_prems(ctx.tdenv@, ctx.tdenv.entries@.len(), rp.renames@, Seq::empty()) matches Ok(gp)
        && prems == gp + sides(m, Seq::empty())
    &&& venv == venv_partial(venv_renamed(b, m), rp@)
}

/// `bind_failure` for arguments, outside any iteration.
pub open spec fn bind_args_failure(
    ctx: Context,
    args: Seq<Arg>,
    b: BEnv,
    m: RenameEnv,
    as1: Seq<ArgV>,
    frees1: Set<Seq<char>>,
    rp: crate::algo::partial::RenameEnv,
    k: AlgoErrorKind,
) -> bool {
    &&& renamed_args_by(ctx, args, b, m, as1, frees1)
    &&& (partial_of_args(ctx, b, m, as1, frees1) == Err::<(PState, Seq<ArgV>), AlgoErrorKind>(k)
        || (partial_of_args(ctx, b, m, as1, frees1) matches Ok((st, _)) && st.renames == rp@
            && renames_prems(ctx.tdenv@, ctx.tdenv.entries@.len(), rp.renames@, Seq::empty()) == Err::<Seq<PremShape>, AlgoErrorKind>(k)))
}

/// Binds the variables of a list of arguments: collects the binders, renames
/// their repeated occurrences, rewrites partial patterns into fresh
/// variables, and returns the bound variables, the rewritten arguments, and
/// the premises the rewriting needs followed by the side conditions of the
/// renaming.
pub fn analyze_args_as_bind(ctx: &mut Context, args_il: &Vec<Arg>) -> (r: Result<(VEnv, Vec<Arg>, Vec<Prem>), AlgoError>)
    requires
        old(ctx).wf(),
    ensures
        ctx_kept(*old(ctx), *final(ctx)),
        match r {
            Ok((venv, out, prems)) => venv.wf() && exists|b: BEnv, m: RenameEnv, as1: Seq<ArgV>, frees1: Set<Seq<char>>, rp: crate::algo::partial::RenameEnv|
                #[trigger] bind_args_result(*old(ctx), final(ctx).frees@, args_il@, b, m, as1, frees1, rp, venv@, args_view(out@), prems_view(prems@)),
            Err(e) => (coll_args(old(ctx).venv@, args_il@) is None && collection_args(old(ctx).venv@, args_il@) == Err::<Seq<(Id, BindingV)>, AlgoError>(e))
                || exists|b: BEnv, m: RenameEnv, as1: Seq<ArgV>, frees1: Set<Seq<char>>, rp: crate::algo::partial::RenameEnv|
                    #[trigger] bind_args_failure(*old(ctx), args_il@, b, m, as1, frees1, rp, e.kind),
        },
{
    let ghost ctx0 = *ctx;
    let benv = match collect_args(ctx, args_il) {
        Ok(b) => b,
        Err(e) => {
            proof {
                assert(coll_args(ctx0.venv@, args_il@) is None && collection_args(ctx0.venv@, args_il@) == Err::<Seq<(Id, BindingV)>, AlgoError>(e));
            }
            return Err(e);
        },
    };
    let mut venv = benv.flatten();
    let mut renv_m = RenameEnv::from_bindings(&benv);
    proof {
        assert(names_of(renv_m.renames@) =~= empty_lists(benv@)) by {
            assert forall|k: Seq<char>| #[trigger] names_of(renv_m.renames@).contains_key(k) implies
                names_of(renv_m.renames@)[k] == empty_lists(benv@)[k] by {
                assert(renv_m.renames@[k].len() == 0);
                assert(ids_names(renv_m.renames@[k]) =~= Seq::<Seq<char>>::empty());
            }
        }
    }
    let args_al = crate::algo::multiple::rename_args(ctx, &mut renv_m, args_il);
    let ghost ctx1 = *ctx;
    let ghost as1 = args_view(args_al@);
    proof {
        assert(renamed_args_by(ctx0, args_il@, benv, renv_m, as1, ctx1.frees@));
        assert forall|k: Seq<char>| #[trigger] renv_m.renames@.contains_key(k) implies venv@.contains_key(k) by {
            assert(benv@.contains_key(k));
        }
    }
    update_venv_multiple(&mut venv, &renv_m);
    let outside = ICtx::new();
    let mut side = generate_side_conditions(&outside, &renv_m);
    let mut renv_p = crate::algo::partial::RenameEnv::new();
    let mut ictx = ICtx::new();
    let binds = venv.domain();
    proof {
        assert(venv@ == venv_renamed(benv, renv_m));
        assert(penv(ctx1, binds@) == penv(ctx0, venv_renamed(benv, renv_m).dom()));
    }
    let args_al = match crate::algo::partial::rename_args(ctx, &binds, &mut renv_p, &mut ictx, &args_al) {
        Ok(x) => x,
        Err(e) => {
            proof {
                assert(bind_args_failure(ctx0, args_il@, benv, renv_m, as1, ctx1.frees@, renv_p, e.kind));
            }
            return Err(e);
        },
    };
    update_venv_partial(&mut venv, &renv_p);
    let mut prems = match gen_prems(ctx, &outside, &renv_p) {
        Ok(p) => p,
        Err(e) => {
            proof {
                assert(bind_args_failure(ctx0, args_il@, benv, renv_m, as1, ctx1.frees@, renv_p, e.kind));
            }
            return Err(e);
        },
    };
    let ghost gp = prems_view(prems@);
    let ghost sv = prems_view(side@);
    prems.append(&mut side);
    proof {
        assert(prems_view(prems@) =~= gp + sv);
    }
    let r = (venv, args_al, prems);
    proof {
        assert(bind_args_result(ctx0, ctx.frees@, args_il@, benv, renv_m, as1, ctx1.frees@, renv_p, r.0@,
            args_view(r.1@), prems_view(r.2@)));
    }
    Ok(r)
}

/// The location of the first argument, else `span`.
pub open spec fn first_span(args: Seq<Arg>, span: Span) -> Span {
    if args.len() > 0 { args[0].span } else { span }
}

/// Binding shallow arguments failed with `e` after their binders were
/// collected: the renaming left side conditions, or a later step failed.
pub open spec fn bind_shallow_failure(
    ctx: Context,
    args: Seq<Arg>,
    span: Span,
    b: BEnv,
    m: RenameEnv,
    as1: Seq<ArgV>,
    frees1: Set<Seq<char>>,
    rp: crate::algo::partial::RenameEnv,
    e: AlgoError,
) -> bool {
    &&& renamed_args_by(ctx, args, b, m, as1, frees1)
    &&& if sides(m, Seq::empty()).len() > 0 {
            e == AlgoError::new_spec(AlgoErrorKind::ShallowSideConditions, first_span(args, span))
        } else {
            bind_args_failure(ctx, args, b, m, as1, frees1, rp, e.kind)
        }
}

/// Binds the variables of table arguments, which must be shallow and bind
/// each variable once: `analyze_args_as_bind` for arguments in the shallow
/// pattern language whose renaming needs no side condition. The errors are
/// located at the first argument, or at `span` when there is none.
pub fn analyze_args_as_bind_shallow(ctx: &mut Context, args_il: &Vec<Arg>, span: Span) -> (r: Result<(VEnv, Vec<Arg>, Vec<Prem>), AlgoError>)
    requires
        old(ctx).wf(),
    ensures
        ctx_kept(*old(ctx), *final(ctx)),
        !(forall|i: int| 0 <= i < args_il@.len() ==> #[trigger] shallow_arg(args_il@[i]))
            ==> r == Err::<(VEnv, Vec<Arg>, Vec<Prem>), AlgoError>(
                AlgoError::new_spec(AlgoErrorKind::BindingsNotShallow, first_span(args_il@, span))),
        (forall|i: int| 0 <= i < args_il@.len() ==> #[trigger] shallow_arg(args_il@[i])) ==> match r {
            Ok((venv, out, prems)) => venv.wf() && exists|b: BEnv, m: RenameEnv, as1: Seq<ArgV>, frees1: Set<Seq<char>>, rp: crate::algo::partial::RenameEnv|
                #[trigger] bind_args_result(*old(ctx), final(ctx).frees@, args_il@, b, m, as1, frees1, rp, venv@, args_view(out@), prems_view(prems@))
                && sides(m, Seq::empty()).len() == 0,
            Err(e) => (coll_args(old(ctx).venv@, args_il@) is None && collection_args(old(ctx).venv@, args_il@) == Err::<Seq<(Id, BindingV)>, AlgoError>(e))
                || exists|b: BEnv, m: RenameEnv, as1: Seq<ArgV>, frees1: Set<Seq<char>>, rp: crate::algo::partial::RenameEnv|
                    #[trigger] bind_shallow_failure(*old(ctx), args_il@, span, b, m, as1, frees1, rp, e),
        },
{
    let ghost ctx0 = *ctx;
    for i in 0..args_il.len()
        invariant
            forall|j: int| 0 <= j < i ==> #[trigger] shallow_arg(args_il@[j]),
    {
        if !check_arg(&args_il[i]) {
            return Err(AlgoError::new(AlgoErrorKind::BindingsNotShallow, args_il[0].span));
        }
    }
    let benv = match collect_args(ctx, args_il) {
        Ok(b) => b,
        Err(e) => {
            proof {
                assert(coll_args(ctx0.venv@, args_il@) is None && collection_args(ctx0.venv@, args_il@) == Err::<Seq<(Id, BindingV)>, AlgoError>(e));
            }
            return Err(e);
        },
    };
    let mut venv = benv.flatten();
    let mut renv_m = RenameEnv::from_bindings(&benv);
    proof {
        assert(names_of(renv_m.renames@) =~= empty_lists(benv@)) by {
            assert forall|k: Seq<char>| #[trigger] names_of(renv_m.renames@).contains_key(k) implies
                names_of(renv_m.renames@)[k] == empty_lists(benv@)[k] by {
                assert(renv_m.renames@[k].len() == 0);
                assert(ids_names(renv_m.renames@[k]) =~= Seq::<Seq<char>>::empty());
            }
        }
    }
    let args_al = crate::algo::multiple::rename_args(ctx, &mut renv_m, args_il);
    let ghost ctx1 = *ctx;
    let ghost as1 = args_view(args_al@);
    proof {
        assert(renamed_args_by(ctx0, args_il@, benv, renv_m, as1, ctx1.frees@));
        assert forall|k: Seq<char>| #[trigger] renv_m.renames@.contains_key(k) implies venv@.contains_key(k) by {
            assert(benv@.contains_key(k));
        }
    }
    update_venv_multiple(&mut venv, &renv_m);
    let outside = ICtx::new();
    let side = generate_side_conditions(&outside, &renv_m);
    let mut renv_p = crate::algo::partial::RenameEnv::new();
    if side.len() > 0 {
        let at = if args_al.len() > 0 { args_al[0].span } else { span };
        let e = AlgoError::new(AlgoErrorKind::ShallowSideConditions, at);
        proof {
            assert(sides(renv_m, Seq::empty()).len() > 0);
            assert(bind_shallow_failure(ctx0, args_il@, span, benv, renv_m, as1, ctx1.frees@, renv_p, e));
        }
        return Err(e);
    }
    let mut ictx = ICtx::new();
    let binds = venv.domain();
    proof {
        assert(venv@ == venv_renamed(benv, renv_m));
        assert(penv(ctx1, binds@) == penv(ctx0, venv_renamed(benv, renv_m).dom()));
    }
    let args_al = match crate::algo::partial::rename_args(ctx, &binds, &mut renv_p, &mut ictx, &args_al) {
        Ok(x) => x,
        Err(e) => {
            proof {
                assert(bind_shallow_failure(ctx0, args_il@, span, benv, renv_m, as1, ctx1.frees@, renv_p, e));
            }
            return Err(e);
        },
    };
    update_venv_partial(&mut venv, &renv_p);
    let prems = match gen_prems(ctx, &outside, &renv_p) {
        Ok(p) => p,
        Err(e) => {
            proof {
                assert(bind_shallow_failure(ctx0, args_il@, span, benv, renv_m, as1, ctx1.frees@, renv_p, e));
            }
            return Err(e);
        },
    };
    proof {
        assert(prems_view(prems@) =~= prems_view(prems@) + sides(renv_m, Seq::empty()));
    }
    let r = (venv, args_al, prems);
    proof {
        assert(bind_args_result(ctx0, ctx.frees@, args_il@, benv, renv_m, as1, ctx1.frees@, renv_p, r.0@,
            args_view(r.1@), prems_view(r.2@)));
    }
    Ok(r)
}

// == Expressions that bind nothing

/// An expression binds nothing: every variable in it is bound already.
pub open spec fn bound_ok(venv: Map<Seq<char>, DimV>, e: Exp) -> bool {
    coll(venv, e) == Some(Map::<Seq<char>, BindingV>::empty())
}

/// The error for an expression that binds something, or whose binders
/// cannot be collected.
pub open spec fn bound_err(venv: Map<Seq<char>, DimV>, x: Exp, e: AlgoError) -> bool {
    match coll(venv, x) {
        None => collection(venv, x) == Err::<Seq<(Id, BindingV)>, AlgoError>(e),
        Some(b) => b != Map::<Seq<char>, BindingV>::empty() && e == AlgoError::new_spec(AlgoErrorKind::FreeBindings, x.span),
    }
}

/// Checks that an expression binds nothing.
pub fn analyze_exp_as_bound(ctx: &Context, exp: &Exp) -> (r: Result<(), AlgoError>)
    requires
        ctx.wf(),
    ensures
        r is Ok <==> bound_ok(ctx.venv@, *exp),
        r matches Err(e) ==> bound_err(ctx.venv@, *exp, e),
{
    let benv = match collect_exp(ctx, exp) {
        Ok(b) => b,
        Err(e) => return Err(e),
    };
    if benv.is_empty() {
        Ok(())
    } else {
        Err(AlgoError::new(AlgoErrorKind::FreeBindings, exp.span))
    }
}

/// The error of the first of `exps` that binds something.
pub open spec fn first_bound_err(venv: Map<Seq<char>, DimV>, exps: Seq<Exp>, e: AlgoError) -> bool {
    exists|i: int| 0 <= i < exps.len()
        && (forall|j: int| 0 <= j < i ==> #[trigger] bound_ok(venv, exps[j]))
        && bound_err(venv, #[trigger] exps[i], e)
}

/// Checks that expressions bind nothing, failing at the first that does.
pub fn analyze_exps_as_bound(ctx: &Context, exps: &Vec<Exp>) -> (r: Result<(), AlgoError>)
    requires
        ctx.wf(),
    ensures
        r is Ok <==> forall|i: int| 0 <= i < exps@.len() ==> #[trigger] bound_ok(ctx.venv@, exps@[i]),
        r matches Err(e) ==> first_bound_err(ctx.venv@, exps@, e),
{
    for i in 0..exps.len()
        invariant
            ctx.wf(),
            forall|j: int| 0 <= j < i ==> #[trigger] bound_ok(ctx.venv@, exps@[j]),
    {
        match analyze_exp_as_bound(ctx, &exps[i]) {
            Ok(()) => {},
            Err(e) => return Err(e),
        }
    }
    Ok(())
}

/// A shallow argument that binds nothing.
pub open spec fn arg_bound_ok(venv: Map<Seq<char>, DimV>, a: Arg) -> bool {
    shallow_arg(a) && coll_arg(venv, a) == Some(Map::<Seq<char>, BindingV>::empty())
}

/// The error for an argument that is not shallow, binds something, or whose
/// binders cannot be collected.
pub open spec fn arg_bound_err(venv: Map<Seq<char>, DimV>, a: Arg, e: AlgoError) -> bool {
    if !shallow_arg(a) {
        e == AlgoError::new_spec(AlgoErrorKind::BindingsNotShallow, a.span)
    } else {
        match coll_arg(venv, a) {
            None => collection_arg(venv, a) == Err::<Seq<(Id, BindingV)>, AlgoError>(e),
            Some(b) => b != Map::<Seq<char>, BindingV>::empty() && e == AlgoError::new_spec(AlgoErrorKind::FreeBindings, a.span),
        }
    }
}

/// Checks that arguments are shallow and bind nothing, failing at the first
/// that is not or does.
pub fn analyze_args_as_bound_shallow(ctx: &Context, args: &Vec<Arg>) -> (r: Result<(), AlgoError>)
    requires
        ctx.wf(),
    ensures
        r is Ok <==> forall|i: int| 0 <= i < args@.len() ==> #[trigger] arg_bound_ok(ctx.venv@, args@[i]),
        r matches Err(e) ==> exists|i: int| 0 <= i < args@.len()
            && (forall|j: int| 0 <= j < i ==> #[trigger] arg_bound_ok(ctx.venv@, args@[j]))
            && arg_bound_err(ctx.venv@, #[trigger] args@[i], e),
{
    for i in 0..args.len()
        invariant
            ctx.wf(),
            forall|j: int| 0 <= j < i ==> #[trigger] arg_bound_ok(ctx.venv@, args@[j]),
    {
        let arg = &args[i];
        if !check_arg(arg) {
            let e = AlgoError::new(AlgoErrorKind::BindingsNotShallow, arg.span);
            proof {
                assert(!arg_bound_ok(ctx.venv@, args@[i as int]));
                assert(arg_bound_err(ctx.venv@, args@[i as int], e));
            }
            return Err(e);
        }
        let benv = match collect_arg(ctx, arg) {
            Ok(b) => b,
            Err(e) => {
                proof {
                    assert(!arg_bound_ok(ctx.venv@, args@[i as int]));
                    assert(arg_bound_err(ctx.venv@, args@[i as int], e));
                }
                return Err(e);
            },
        };
        if !benv.is_empty() {
            let e = AlgoError::new(AlgoErrorKind::FreeBindings, arg.span);
            proof {
                assert(!arg_bound_ok(ctx.venv@, args@[i as int]));
                assert(arg_bound_err(ctx.venv@, args@[i as int], e));
            }
            return Err(e);
        }
        proof {
            assert(arg_bound_ok(ctx.venv@, args@[i as int]));
        }
    }
    Ok(())
}

// == Pattern sets of types and patterns

/// The cases of the variant type named by `t`. An undefined name is
/// reported at the name, a type that names no variant at `span`.
pub open spec fn typ_cover(tdenv: Map<Seq<char>, TypeDefV>, t: TypKind, span: Span) -> Result<Set<NotTypV>, AlgoError> {
    match t {
        TypKind::Var(id, _) => if !tdenv.contains_key(id@) {
            Err(AlgoError::new_spec(AlgoErrorKind::UndefinedType, id.span))
        } else {
            match tdenv[id@] {
                TypeDefV::Defined(_, DefTypV::Variant(cases)) => Ok(cases.to_set()),
                _ => Err(AlgoError::new_spec(AlgoErrorKind::NonVariantPatternType, span)),
            }
        },
        _ => Err(AlgoError::new_spec(AlgoErrorKind::NonVariantPatternType, span)),
    }
}

/// The notation type of a case pattern: its operator over the types of
/// its arguments.
pub open spec fn case_not_typ(ne: NotExp) -> NotTypV {
    NotTypV { mixop: mixop_view(ne.mixop), typs: Seq::new(ne.args@.len(), |i: int| typ_kind_view(ne.args@[i].note)) }
}

/// The alternatives a table pattern matches: all cases of its variant type
/// for a variable, possibly upcast, and the one case of an upcast case.
pub open spec fn exp_cover(tdenv: Map<Seq<char>, TypeDefV>, e: Exp) -> Result<Set<NotTypV>, AlgoError> {
    match e.node {
        ExpKind::Var(_) => typ_cover(tdenv, e.note, e.span),
        ExpKind::UpCast(_, inner) => match inner.node {
            ExpKind::Var(_) => typ_cover(tdenv, inner.note, inner.span),
            ExpKind::Case(ne) => Ok(set![case_not_typ(ne)]),
            _ => Err(AlgoError::new_spec(AlgoErrorKind::InvalidTablePattern, e.span)),
        },
        _ => Err(AlgoError::new_spec(AlgoErrorKind::InvalidTablePattern, e.span)),
    }
}

/// The pattern set of the variant type `typ` names.
pub fn pattern_set_covered_by_typ(ctx: &Context, typ: &Typ) -> (r: Result<PatternSet, AlgoError>)
    requires
        ctx.wf(),
    ensures
        match r {
            Ok(p) => p.wf() && typ_cover(ctx.tdenv@, typ.node, typ.span) == Ok::<Set<NotTypV>, AlgoError>(p@),
            Err(e) => typ_cover(ctx.tdenv@, typ.node, typ.span) == Err::<Set<NotTypV>, AlgoError>(e),
        },
{
    let span = typ.span;
    let id = match &typ.node {
        TypKind::Var(id, _) => id,
        _ => return Err(AlgoError::new(AlgoErrorKind::NonVariantPatternType, span)),
    };
    let def = match ctx.find_typdef(id) {
        Ok(d) => d,
        Err(e) => return Err(e),
    };
    match def {
        TypeDef::Defined(_, def_typ) => match &def_typ.node {
            DefTypKind::Variant(cases) => {
                let p = PatternSet::from_not_typs(cases);
                proof {
                    let cv = Seq::new(cases@.len(), |i: int| not_typ_view(cases@[i]));
                    assert(def_typ_view(**def_typ) == DefTypV::Variant(cv));
                    assert(p@ =~= cv.to_set()) by {
                        assert forall|x: NotTypV| p@.contains(x) implies cv.contains(x) by {
                            let i = choose|i: int| 0 <= i < cases@.len() && not_typ_view(cases@[i]) == x;
                            assert(cv[i] == x);
                        }
                        assert forall|x: NotTypV| cv.contains(x) implies p@.contains(x) by {
                            let i = choose|i: int| 0 <= i < cv.len() && cv[i] == x;
                            assert(not_typ_view(cases@[i]) == x);
                        }
                    }
                }
                Ok(p)
            },
            _ => Err(AlgoError::new(AlgoErrorKind::NonVariantPatternType, span)),
        },
        TypeDef::Extern | TypeDef::Parameter => Err(AlgoError::new(AlgoErrorKind::NonVariantPatternType, span)),
    }
}

/// The notation type of a case pattern, located at the pattern.
fn case_pattern_typ(ne: &NotExp, span: Span) -> (n: NotTyp)
    ensures
        not_typ_view(n) == case_not_typ(*ne),
{
    let mut typs: Vec<Typ> = Vec::new();
    for i in 0..ne.args.len()
        invariant
            typs@.len() == i,
            forall|j: int| 0 <= j < i ==> typ_kind_view((#[trigger] typs@[j]).node) == typ_kind_view(ne.args@[j].note),
    {
        typs.push(Typ { node: clone_typ_kind(&ne.args[i].note), span: ne.args[i].span });
    }
    proof {
        lemma_typs_view(typs@);
        assert(typs_view(typs@) =~= case_not_typ(*ne).typs);
    }
    NotTyp { mixop: clone_mixop(&ne.mixop), typs, span }
}

/// The pattern set a table pattern matches.
pub fn pattern_set_covered_by_exp(ctx: &Context, exp: &Exp) -> (r: Result<PatternSet, AlgoError>)
    requires
        ctx.wf(),
    ensures
        match r {
            Ok(p) => p.wf() && exp_cover(ctx.tdenv@, *exp) == Ok::<Set<NotTypV>, AlgoError>(p@),
            Err(e) => exp_cover(ctx.tdenv@, *exp) == Err::<Set<NotTypV>, AlgoError>(e),
        },
{
    match &exp.node {
        ExpKind::Var(_) => {
            let typ = Typ { node: clone_typ_kind(&exp.note), span: exp.span };
            pattern_set_covered_by_typ(ctx, &typ)
        },
        ExpKind::UpCast(_, inner) => match &inner.node {
            ExpKind::Var(_) => {
                let typ = Typ { node: clone_typ_kind(&inner.note), span: inner.span };
                pattern_set_covered_by_typ(ctx, &typ)
            },
            ExpKind::Case(ne) => {
                let n = case_pattern_typ(ne, inner.span);
                let v = vec![n];
                let p = PatternSet::from_not_typs(&v);
                proof {
                    assert(p@ =~= set![case_not_typ(*ne)]) by {
                        assert(v@[0] == n);
                        assert forall|x: NotTypV| p@.contains(x) implies x == case_not_typ(*ne) by {
                            let i = choose|i: int| 0 <= i < v@.len() && not_typ_view(v@[i]) == x;
                        }
                        assert(p@.contains(not_typ_view(v@[0])));
                    }
                }
                Ok(p)
            },
            _ => Err(AlgoError::new(AlgoErrorKind::InvalidTablePattern, exp.span)),
        },
        _ => Err(AlgoError::new(AlgoErrorKind::InvalidTablePattern, exp.span)),
    }
}

// == Table validity, stated over pattern sets

/// A wildcard pattern: a variable whose name begins with an underscore.
pub open spec fn is_wildcard_exp(e: Exp) -> bool {
    e.node is Var && is_wildcard(e.node->Var_0@)
}

/// The last row closes the table: all its patterns are wildcards.
pub open spec fn has_closer(rows: Seq<TableRow>) -> bool {
    rows.len() > 0 && forall|i: int| 0 <= i < rows.last().exps_signature@.len()
        ==> is_wildcard_exp(#[trigger] rows.last().exps_signature@[i])
}

/// The rows whose patterns are checked: all but a closing row.
pub open spec fn pattern_rows(rows: Seq<TableRow>) -> Seq<TableRow> {
    if has_closer(rows) { rows.drop_last() } else { rows }
}

/// The pattern sets of a row's patterns, or the error of the first pattern
/// that has none.
pub open spec fn row_cover(tdenv: Map<Seq<char>, TypeDefV>, sig: Seq<Exp>) -> Result<Seq<Set<NotTypV>>, AlgoError>
    decreases sig.len(),
{
    if sig.len() == 0 {
        Ok(Seq::empty())
    } else {
        match row_cover(tdenv, sig.drop_last()) {
            Err(e) => Err(e),
            Ok(r) => match exp_cover(tdenv, sig.last()) {
                Err(e) => Err(e),
                Ok(p) => Ok(r.push(p)),
            },
        }
    }
}

/// The pattern sets of all rows, or the first error, row by row.
pub open spec fn rows_cover(tdenv: Map<Seq<char>, TypeDefV>, rows: Seq<TableRow>) -> Result<Seq<Seq<Set<NotTypV>>>, AlgoError>
    decreases rows.len(),
{
    if rows.len() == 0 {
        Ok(Seq::empty())
    } else {
        match rows_cover(tdenv, rows.drop_last()) {
            Err(e) => Err(e),
            Ok(g) => match row_cover(tdenv, rows.last().exps_signature@) {
                Err(e) => Err(e),
                Ok(r) => Ok(g.push(r)),
            },
        }
    }
}

/// The pattern sets of the parameter types, or the first error.
pub open spec fn typs_cover(tdenv: Map<Seq<char>, TypeDefV>, typs: Seq<Typ>) -> Result<Seq<Set<NotTypV>>, AlgoError>
    decreases typs.len(),
{
    if typs.len() == 0 {
        Ok(Seq::empty())
    } else {
        match typs_cover(tdenv, typs.drop_last()) {
            Err(e) => Err(e),
            Ok(r) => match typ_cover(tdenv, typs.last().node, typs.last().span) {
                Err(e) => Err(e),
                Ok(p) => Ok(r.push(p)),
            },
        }
    }
}

/// All rows are as wide as the first.
pub open spec fn same_width(g: Seq<Seq<Set<NotTypV>>>) -> bool {
    forall|j: int| 0 <= j < g.len() ==> (#[trigger] g[j]).len() == g[0].len()
}

/// Two rows match a common tuple of cases.
pub open spec fn some_overlap(g: Seq<Seq<Set<NotTypV>>>) -> bool {
    exists|i: int, j: int| 0 <= i < j < g.len() && sets_overlap(#[trigger] g[i], #[trigger] g[j])
}

/// A tuple of parameter cases that no row matches.
pub open spec fn missing_tuple(total: Seq<Set<NotTypV>>, g: Seq<Seq<Set<NotTypV>>>) -> bool {
    exists|t: Seq<NotTypV>| #[trigger] prod_contains(total, t) && forall|k: int| 0 <= k < g.len() ==> !prod_contains(#[trigger] g[k], t)
}

/// No tuple of cases matches two rows.
pub open spec fn exclusive(g: Seq<Seq<Set<NotTypV>>>) -> bool {
    forall|i: int, j: int, t: Seq<NotTypV>|
        0 <= i < j < g.len() && #[trigger] prod_contains(g[i], t) ==> !#[trigger] prod_contains(g[j], t)
}

/// Every tuple of the parameter cases matches some row.
pub open spec fn exhaustive(total: Seq<Set<NotTypV>>, g: Seq<Seq<Set<NotTypV>>>) -> bool {
    forall|t: Seq<NotTypV>| #[trigger] prod_contains(total, t) ==> exists|k: int| 0 <= k < g.len() && #[trigger] prod_contains(g[k], t)
}

proof fn lemma_exclusive(g: Seq<Seq<Set<NotTypV>>>)
    requires
        same_width(g),
        !some_overlap(g),
    ensures
        exclusive(g),
{
    assert forall|i: int, j: int, t: Seq<NotTypV>|
        0 <= i < j < g.len() && #[trigger] prod_contains(g[i], t) implies !#[trigger] prod_contains(g[j], t) by {
        assert(g[i].len() == g[0].len() && g[j].len() == g[0].len());
        lemma_overlap_product(g[i], g[j]);
        assert(!sets_overlap(g[i], g[j]));
    }
}

proof fn lemma_row_cover_err(tdenv: Map<Seq<char>, TypeDefV>, sig: Seq<Exp>, k: int)
    requires
        0 <= k <= sig.len(),
        row_cover(tdenv, sig.take(k)) is Err,
    ensures
        row_cover(tdenv, sig) == row_cover(tdenv, sig.take(k)),
    decreases sig.len() - k,
{
    if k < sig.len() {
        assert(sig.take(k + 1).drop_last() =~= sig.take(k));
        lemma_row_cover_err(tdenv, sig, k + 1);
    } else {
        assert(sig.take(k) =~= sig);
    }
}

proof fn lemma_rows_cover_err(tdenv: Map<Seq<char>, TypeDefV>, rows: Seq<TableRow>, k: int)
    requires
        0 <= k <= rows.len(),
        rows_cover(tdenv, rows.take(k)) is Err,
    ensures
        rows_cover(tdenv, rows) == rows_cover(tdenv, rows.take(k)),
    decreases rows.len() - k,
{
    if k < rows.len() {
        assert(rows.take(k + 1).drop_last() =~= rows.take(k));
        lemma_rows_cover_err(tdenv, rows, k + 1);
    } else {
        assert(rows.take(k) =~= rows);
    }
}

proof fn lemma_typs_cover_err(tdenv: Map<Seq<char>, TypeDefV>, typs: Seq<Typ>, k: int)
    requires
        0 <= k <= typs.len(),
        typs_cover(tdenv, typs.take(k)) is Err,
    ensures
        typs_cover(tdenv, typs) == typs_cover(tdenv, typs.take(k)),
    decreases typs.len() - k,
{
    if k < typs.len() {
        assert(typs.take(k + 1).drop_last() =~= typs.take(k));
        lemma_typs_cover_err(tdenv, typs, k + 1);
    } else {
        assert(typs.take(k) =~= typs);
    }
}

// == Table validity

/// Whether the last row closes the table.
fn closes_table(rows: &Vec<TableRow>) -> (b: bool)
    ensures
        b == has_closer(rows@),
{
    let n = rows.len();
    if n == 0 {
        return false;
    }
    let sig = &rows[n - 1].exps_signature;
    let mut all = true;
    for i in 0..sig.len()
        invariant
            n == rows@.len(),
            n > 0,
            *sig == rows@.last().exps_signature,
            all == forall|j: int| 0 <= j < i ==> is_wildcard_exp(#[trigger] sig@[j]),
    {
        let w = match &sig[i].node {
            ExpKind::Var(id) => starts_with_underscore(id),
            _ => false,
        };
        proof {
            if !w {
                assert(!is_wildcard_exp(sig@[i as int]));
            }
        }
        all = all && w;
    }
    all
}

/// The pattern sets of one row's patterns.
fn row_pattern_sets(ctx: &Context, sig: &Vec<Exp>) -> (r: Result<PatternSets, AlgoError>)
    requires
        ctx.wf(),
    ensures
        match r {
            Ok(p) => p.wf() && row_cover(ctx.tdenv@, sig@) == Ok::<Seq<Set<NotTypV>>, AlgoError>(p@),
            Err(e) => row_cover(ctx.tdenv@, sig@) == Err::<Seq<Set<NotTypV>>, AlgoError>(e),
        },
{
    let mut sets: Vec<PatternSet> = Vec::new();
    proof {
        assert(sig@.take(0) =~= Seq::<Exp>::empty());
        assert(Seq::new(sets@.len(), |k: int| sets@[k]@) =~= Seq::<Set<NotTypV>>::empty());
    }
    for i in 0..sig.len()
        invariant
            ctx.wf(),
            forall|k: int| 0 <= k < sets@.len() ==> (#[trigger] sets@[k]).wf(),
            row_cover(ctx.tdenv@, sig@.take(i as int)) == Ok::<Seq<Set<NotTypV>>, AlgoError>(
                Seq::new(sets@.len(), |k: int| sets@[k]@)),
    {
        proof {
            assert(sig@.take(i + 1).drop_last() =~= sig@.take(i as int));
            assert(sig@.take(i + 1).last() == sig@[i as int]);
        }
        match pattern_set_covered_by_exp(ctx, &sig[i]) {
            Err(e) => {
                proof {
                    lemma_row_cover_err(ctx.tdenv@, sig@, i + 1);
                }
                return Err(e);
            },
            Ok(p) => {
                let ghost before = Seq::new(sets@.len(), |k: int| sets@[k]@);
                sets.push(p);
                proof {
                    assert(Seq::new(sets@.len(), |k: int| sets@[k]@) =~= before.push(p@));
                }
            },
        }
    }
    proof {
        assert(sig@.take(sig@.len() as int) =~= sig@);
    }
    let r = PatternSets::from_sets(sets);
    Ok(r)
}

/// The pattern sets of the parameter types.
fn typs_pattern_sets(ctx: &Context, typs: &Vec<Typ>) -> (r: Result<PatternSets, AlgoError>)
    requires
        ctx.wf(),
    ensures
        match r {
            Ok(p) => p.wf() && typs_cover(ctx.tdenv@, typs@) == Ok::<Seq<Set<NotTypV>>, AlgoError>(p@),
            Err(e) => typs_cover(ctx.tdenv@, typs@) == Err::<Seq<Set<NotTypV>>, AlgoError>(e),
        },
{
    let mut sets: Vec<PatternSet> = Vec::new();
    proof {
        assert(typs@.take(0) =~= Seq::<Typ>::empty());
        assert(Seq::new(sets@.len(), |k: int| sets@[k]@) =~= Seq::<Set<NotTypV>>::empty());
    }
    for i in 0..typs.len()
        invariant
            ctx.wf(),
            forall|k: int| 0 <= k < sets@.len() ==> (#[trigger] sets@[k]).wf(),
            typs_cover(ctx.tdenv@, typs@.take(i as int)) == Ok::<Seq<Set<NotTypV>>, AlgoError>(
                Seq::new(sets@.len(), |k: int| sets@[k]@)),
    {
        proof {
            assert(typs@.take(i + 1).drop_last() =~= typs@.take(i as int));
            assert(typs@.take(i + 1).last() == typs@[i as int]);
        }
        match pattern_set_covered_by_typ(ctx, &typs[i]) {
            Err(e) => {
                proof {
                    lemma_typs_cover_err(ctx.tdenv@, typs@, i + 1);
                }
                return Err(e);
            },
            Ok(p) => {
                let ghost before = Seq::new(sets@.len(), |k: int| sets@[k]@);
                sets.push(p);
                proof {
                    assert(Seq::new(sets@.len(), |k: int| sets@[k]@) =~= before.push(p@));
                }
            },
        }
    }
    proof {
        assert(typs@.take(typs@.len() as int) =~= typs@);
    }
    Ok(PatternSets::from_sets(sets))
}

proof fn lemma_missing_rows(total: Seq<Set<NotTypV>>, ms: Seq<PatternSets>, group: Seq<PatternSets>)
    requires
        forall|k: int| 0 <= k < ms.len() ==> (#[trigger] ms[k])@.len() == total.len(),
        all_nonempty(total) ==> forall|k: int| 0 <= k < ms.len() ==> all_nonempty(#[trigger] ms[k]@),
        !all_nonempty(total) ==> ms.len() == 1,
        forall|t: Seq<NotTypV>| #[trigger] group_contains(ms, t) <==> (prod_contains(total, t) && uncovered(group, t)),
    ensures
        ms.len() > 0 <==> (!all_nonempty(total) || missing_tuple(total, group_view(group))),
{
    let g = group_view(group);
    if all_nonempty(total) {
        if ms.len() > 0 {
            let row = ms[0]@;
            assert(all_nonempty(row));
            let t = Seq::new(row.len(), |i: int| choose|x: NotTypV| row[i].contains(x));
            assert forall|i: int| 0 <= i < t.len() implies #[trigger] row[i].contains(t[i]) by {
                assert(nonempty(row[i]));
            }
            assert(prod_contains(ms[0]@, t));
            assert(group_contains(ms, t));
            assert forall|k: int| 0 <= k < g.len() implies !prod_contains(#[trigger] g[k], t) by {
                assert(g[k] == group[k]@);
            }
            assert(missing_tuple(total, g));
        }
        if missing_tuple(total, g) {
            let t = choose|t: Seq<NotTypV>| #[trigger] prod_contains(total, t)
                && forall|k: int| 0 <= k < g.len() ==> !prod_contains(#[trigger] g[k], t);
            assert forall|k: int| 0 <= k < group.len() implies !#[trigger] prod_contains(group[k]@, t) by {
                assert(g[k] == group[k]@);
            }
            assert(uncovered(group, t));
            assert(group_contains(ms, t));
        }
    }
}

/// Where a table that misses cases is reported: at the end of its last
/// row, or at `span` when it has no rows.
pub open spec fn missing_span(rows: Seq<TableRow>, span: Span) -> Span {
    if rows.len() > 0 {
        Span { lo: rows.last().span.hi, hi: rows.last().span.hi }
    } else {
        span
    }
}

/// What checking the rows `rows` of a table against the parameter types
/// `typs` gives, in this order: the first parameter type without cases
/// (checked even when the last row closes the table); the first pattern
/// without cases; the first pair of checked rows, in order, that differ in
/// width (at `span`) or overlap (at the later row, naming the earlier);
/// rows narrower or wider than the parameters (at `span`); and, unless the
/// last row closes the table, a missing case, reported at the end of the
/// last row.
pub open spec fn table_check(tdenv: Map<Seq<char>, TypeDefV>, span: Span, typs: Seq<Typ>, rows: Seq<TableRow>, r: Result<(), AlgoError>) -> bool {
    let prows = pattern_rows(rows);
    match typs_cover(tdenv, typs) {
        Err(e) => r == Err::<(), AlgoError>(e),
        Ok(total) => match rows_cover(tdenv, prows) {
            Err(e) => r == Err::<(), AlgoError>(e),
            Ok(g) => if exists|i: int, j: int| first_stop(g, i, j) {
                let (i, j) = choose|i: int, j: int| first_stop(g, i, j);
                if g[i].len() != g[j].len() {
                    r == Err::<(), AlgoError>(arity_error(span, g[i].len() as usize, g[j].len() as usize))
                } else {
                    r == Err::<(), AlgoError>(AlgoError::new_spec(
                        AlgoErrorKind::OverlappingTablePatterns { earlier: prows[i].span }, prows[j].span))
                }
            } else if g.len() > 0 && g[0].len() != total.len() {
                r matches Err(e) && e.span == span && e.kind is PatternArityMismatch
            } else if !has_closer(rows) && (!all_nonempty(total) || missing_tuple(total, g)) {
                r == Err::<(), AlgoError>(AlgoError::new_spec(AlgoErrorKind::MissingTablePatterns, missing_span(rows, span)))
            } else {
                r == Ok::<(), AlgoError>(())
            },
        },
    }
}

/// Checks that the rows of a table are mutually exclusive and, unless the
/// last row closes the table with wildcards, exhaustive over the cases of
/// the parameter types `typs_match`.
pub fn check_valid_table_rows(ctx: &Context, span: &Span, typs_match: &Vec<Typ>, rows: &Vec<TableRow>) -> (r: Result<(), AlgoError>)
    requires
        ctx.wf(),
    ensures
        table_check(ctx.tdenv@, *span, typs_match@, rows@, r),
        r is Ok ==> (rows_cover(ctx.tdenv@, pattern_rows(rows@)) matches Ok(g) && exclusive(g)
            && (!has_closer(rows@) ==> (typs_cover(ctx.tdenv@, typs_match@) matches Ok(total) && exhaustive(total, g)))),
{
    let total = match typs_pattern_sets(ctx, typs_match) {
        Err(e) => return Err(e),
        Ok(t) => t,
    };
    proof {
        assert(total.sets@.len() == total@.len());
    }
    let closer = closes_table(rows);
    let n_pat = if closer { rows.len() - 1 } else { rows.len() };
    let ghost prows = pattern_rows(rows@);
    proof {
        assert(prows =~= rows@.take(n_pat as int));
        assert(prows.take(0) =~= Seq::<TableRow>::empty());
    }
    let mut group: Vec<PatternSets> = Vec::new();
    proof {
        assert(group_view(group@) =~= Seq::<Seq<Set<NotTypV>>>::empty());
    }
    for k in 0..n_pat
        invariant
            ctx.wf(),
            n_pat <= rows@.len(),
            prows == pattern_rows(rows@),
            prows == rows@.take(n_pat as int),
            typs_cover(ctx.tdenv@, typs_match@) == Ok::<Seq<Set<NotTypV>>, AlgoError>(total@),
            group@.len() == k,
            forall|j: int| 0 <= j < group@.len() ==> (#[trigger] group@[j]).wf(),
            rows_cover(ctx.tdenv@, prows.take(k as int)) == Ok::<Seq<Seq<Set<NotTypV>>>, AlgoError>(group_view(group@)),
    {
        proof {
            assert(prows.take(k + 1).drop_last() =~= prows.take(k as int));
            assert(prows.take(k + 1).last() == rows@[k as int]);
        }
        match row_pattern_sets(ctx, &rows[k].exps_signature) {
            Err(e) => {
                proof {
                    lemma_rows_cover_err(ctx.tdenv@, prows, k + 1);
                }
                return Err(e);
            },
            Ok(p) => {
                let ghost before = group_view(group@);
                let ghost pv = p@;
                group.push(p);
                proof {
                    assert(group_view(group@) =~= before.push(pv));
                }
            },
        }
    }
    let ghost g = group_view(group@);
    proof {
        assert(prows.take(n_pat as int) =~= prows);
        assert forall|j: int| 0 <= j < group@.len() implies (#[trigger] group@[j]).sets@.len() == g[j].len() by {}
    }
    match first_overlap(span, group.as_slice()) {
        Err(e) => {
            proof {
                let (i, j) = choose|i: int, j: int| #[trigger] first_stop(g, i, j)
                    && group@[i].sets@.len() != group@[j].sets@.len()
                    && e == arity_error(*span, group@[i].sets@.len() as usize, group@[j].sets@.len() as usize);
                let (a, b) = choose|a: int, b: int| first_stop(g, a, b);
                lemma_first_stop_unique(g, i, j, a, b);
            }
            return Err(e);
        },
        Ok(Some((i, j))) => {
            proof {
                let (a, b) = choose|a: int, b: int| first_stop(g, a, b);
                lemma_first_stop_unique(g, i as int, j as int, a, b);
                assert(prows[i as int] == rows@[i as int]);
                assert(prows[j as int] == rows@[j as int]);
            }
            return Err(AlgoError::new(AlgoErrorKind::OverlappingTablePatterns { earlier: rows[i].span }, rows[j].span));
        },
        Ok(None) => {},
    }
    proof {
        if exists|i: int, j: int| first_stop(g, i, j) {
            let (i, j) = choose|i: int, j: int| first_stop(g, i, j);
            assert(stops_at(g, i, j));
        }
        assert forall|j: int| 0 <= j < g.len() implies (#[trigger] g[j]).len() == g[0].len() by {
            if j > 0 {
                assert(!stops_at(g, 0, j));
            }
        }
        assert(same_width(g));
        if some_overlap(g) {
            let (i, j) = choose|i: int, j: int| 0 <= i < j < g.len() && sets_overlap(#[trigger] g[i], #[trigger] g[j]);
            assert(!stops_at(g, i, j));
        }
    }
    let missing = match find_missing(span, &total, group.as_slice()) {
        Err(e) => {
            proof {
                if !(g.len() > 0 && g[0].len() != total@.len()) {
                    assert forall|j: int| 0 <= j < group@.len() implies (#[trigger] group@[j]).sets@.len() == total.sets@.len() by {
                        assert(g[j].len() == g[0].len());
                    }
                }
            }
            return Err(e);
        },
        Ok(m) => m,
    };
    proof {
        if g.len() > 0 {
            assert(group@[0].sets@.len() == total.sets@.len());
        }
        lemma_missing_rows(total@, missing@, group@);
    }
    if !closer && missing.len() > 0 {
        let end = if rows.len() > 0 {
            let hi = rows[rows.len() - 1].span.hi;
            Span { lo: hi, hi }
        } else {
            *span
        };
        return Err(AlgoError::new(AlgoErrorKind::MissingTablePatterns, end));
    }
    proof {
        lemma_exclusive(g);
        if !closer {
            assert forall|t: Seq<NotTypV>| #[trigger] prod_contains(total@, t) implies
                exists|k: int| 0 <= k < g.len() && #[trigger] prod_contains(g[k], t) by {
                if !(exists|k: int| 0 <= k < g.len() && #[trigger] prod_contains(g[k], t)) {
                    assert(missing_tuple(total@, g));
                }
            }
        }
    }
    Ok(())
}

// == Laws of table patterns

/// Upcasting a variable pattern does not change what it covers: the
/// alternatives are those of the variable's own type, whatever type it is
/// cast to, and a failure is the one the variable alone gives.
pub proof fn lemma_upcast_var_cover(tdenv: Map<Seq<char>, TypeDefV>, e: Exp)
    requires
        e.node matches ExpKind::UpCast(_, inner) && inner.node is Var,
    ensures
        e.node matches ExpKind::UpCast(_, inner) && exp_cover(tdenv, e) == exp_cover(tdenv, *inner),
{
}

/// What an upcast variable pattern covers is never more than the cases of
/// the variable's own variant type.
pub proof fn lemma_upcast_var_cover_within(tdenv: Map<Seq<char>, TypeDefV>, e: Exp, id: crate::il::Id, targs: Vec<Typ>)
    requires
        e.node matches ExpKind::UpCast(_, inner) && inner.node is Var && inner.note == TypKind::Var(id, targs),
    ensures
        exp_cover(tdenv, e) matches Ok(s) ==> (tdenv.contains_key(id@)
            && (tdenv[id@] matches TypeDefV::Defined(_, DefTypV::Variant(cases)) && s == cases.to_set())),
{
}

} // verus!
