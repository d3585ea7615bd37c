//! Binding analysis of premises: which variables each premise binds, and
//! the algorithmic premise it becomes.
//!
//! A rule premise reads its inputs, which must be bound, and binds its
//! outputs; an iterated premise analyses its body one iteration deeper; a
//! list of premises is analysed in order, each seeing what the earlier ones
//! bound.

use vstd::prelude::*;
use crate::span::Span;
use crate::il::{Exp, ExpKind, ExpV, NotExp, RelPrem, CmpOp, exps_view, exp_view, mixop_view};
use crate::il;
use crate::il_typ::{clone_id, clone_mixop};
use crate::algo::error::{AlgoError, AlgoErrorKind};
use crate::algo::context::Context;
use crate::algo::dim::{DimV, VEnv};
use crate::algo::bind::BEnv;
use crate::algo::multiple::{RenameEnv, ctx_kept};
use crate::algo::iteration::{ICtx, Iteration, IterationV, iterations_view, dims_keep, env_vars, iterate_shape, keep_vars, levels_iters, with_bind, with_bound_only};
use crate::algo::dimension::{inf_exps, inf_exps_entries, infer_exps};
use crate::algo::collect::{coll_exps, collection_exps};
use crate::algo::analyze::{
    analyze_debug_prem, analyze_if_hold_prem, analyze_if_not_hold_prem, analyze_if_prem, bound_err, if_eq_outcome, plain_outcome,
    analyze_exp_as_bound, analyze_exps_as_bind, bind_failure, bind_result, bound_ok, first_bound_err, level_error, levels_valid,
};
use crate::algo::input::{combine_inputs, hint_fits, inputs_before, inputs_of, interleave, lemma_parts_len, outputs_of, split_inputs};
use crate::al::{IfPrem, Prem, PremKind, PremShape, RulePrem, prems_view};
use crate::algo::bind::BindingV;
use crate::il::Id;
use crate::ids::IdSet;

verus! {

/// The levels of a rule premise under `ictx`: each ranges only over the
/// variables the inputs `ins` read, at no deeper dimension, and binds what
/// the rewritten outputs `outs` bind.
pub open spec fn rule_levels(ictx: Seq<IterationV>, ins: Seq<Exp>, outs: Seq<Exp>) -> Seq<IterationV> {
    let vr = inf_exps(Map::empty(), ins, Seq::empty());
    let c1 = Seq::new(ictx.len(), |l: int| with_bound_only(ictx[l], keep_vars(ictx[l].vars_bound, dims_keep(vr))));
    Seq::new(c1.len(), |l: int| with_bind(c1[l], env_vars(inf_exps_entries(outs), levels_iters(c1, l))))
}

/// Every input of the rule premise binds nothing.
pub open spec fn inputs_bound(ctx: Context, rp: RelPrem) -> bool {
    let ins = inputs_of(rp.input_hint.positions@, rp.not_exp.args@);
    forall|i: int| 0 <= i < ins.len() ==> #[trigger] bound_ok(ctx.venv@, ins[i])
}

/// Analysing the rule premise `rp` under the iterations `ictx` gave the
/// bound variables `venv`, the premise `prem` and the premises `prems` it
/// needs: its outputs were bound as `analyze_exps_as_bind` binds, into the
/// rewritten outputs `outs`.
pub open spec fn rule_result(
    ctx: Context,
    frees_after: Set<Seq<char>>,
    ictx: Seq<IterationV>,
    rp: RelPrem,
    b: BEnv,
    m: RenameEnv,
    es1: Seq<ExpV>,
    frees1: Set<Seq<char>>,
    rpr: crate::algo::partial::RenameEnv,
    outs: Seq<Exp>,
    venv: Map<Seq<char>, DimV>,
    prem: PremShape,
    prems: Seq<PremShape>,
) -> bool {
    let ps = rp.input_hint.positions@;
    let args = rp.not_exp.args@;
    let ins = inputs_of(ps, args);
    &&& hint_fits(ps, args.len() as int)
    &&& inputs_bound(ctx, rp)
    &&& bind_result(ctx, frees_after, ictx, outputs_of(ps, args), b, m, es1, frees1, rpr, venv, exps_view(outs), prems)
    &&& levels_valid(rule_levels(ictx, ins, outs))
    &&& prem == iterate_shape(
            PremShape::Rule(rp.id@, mixop_view(rp.not_exp.mixop), exps_view(interleave(ps, ins, outs, args.len() as int))),
            rule_levels(ictx, ins, outs),
            ictx.len() as int,
        )
}

/// Analysing the rule premise `rp` gave `venv`, `prem` and `prems`, as
/// `rule_result` relates them, for some collection and renaming.
pub open spec fn rule_analysed(
    ctx: Context,
    frees_after: Set<Seq<char>>,
    ictx: Seq<IterationV>,
    rp: RelPrem,
    venv: Map<Seq<char>, DimV>,
    prem: PremShape,
    prems: Seq<PremShape>,
) -> bool {
    exists|b: BEnv, m: RenameEnv, es1: Seq<ExpV>, frees1: Set<Seq<char>>, rpr: crate::algo::partial::RenameEnv, outs: Seq<Exp>|
        #[trigger] rule_result(ctx, frees_after, ictx, rp, b, m, es1, frees1, rpr, outs, venv, prem, prems)
}

/// Analysing the rule premise `rp`, at `span`, failed with `e`: its hint
/// names a position past its arguments; an input binds something; its
/// outputs cannot be bound; or a level ranges over nothing.
pub open spec fn rule_failure(ctx: Context, ictx: Seq<IterationV>, span: Span, rp: RelPrem, e: AlgoError) -> bool {
    let ps = rp.input_hint.positions@;
    let args = rp.not_exp.args@;
    let ins = inputs_of(ps, args);
    let outs0 = outputs_of(ps, args);
    if !hint_fits(ps, args.len() as int) {
        e == AlgoError::new_spec(AlgoErrorKind::InputHint, span)
    } else if !inputs_bound(ctx, rp) {
        first_bound_err(ctx.venv@, ins, e)
    } else {
        ||| coll_exps(ctx.venv@, outs0) is None
                && collection_exps(ctx.venv@, outs0) == Err::<Seq<(Id, BindingV)>, AlgoError>(e)
        ||| exists|b: BEnv, m: RenameEnv, es1: Seq<ExpV>, frees1: Set<Seq<char>>, rpr: crate::algo::partial::RenameEnv|
                #[trigger] bind_failure(ctx, ictx, outs0, b, m, es1, frees1, rpr, e.kind)
        ||| exists|fr: Set<Seq<char>>, b: BEnv, m: RenameEnv, es1: Seq<ExpV>, frees1: Set<Seq<char>>,
                rpr: crate::algo::partial::RenameEnv, outs: Seq<Exp>, venv: Map<Seq<char>, DimV>, prems: Seq<PremShape>|
                #[trigger] bind_result(ctx, fr, ictx, outs0, b, m, es1, frees1, rpr, venv, exps_view(outs), prems)
                && level_error(rule_levels(ictx, ins, outs), span, e)
    }
}

/// Analyses a rule premise under the iterations `iter_ctx`: its inputs, as
/// the relation's input hint names them, must be bound; its outputs bind,
/// as `analyze_exps_as_bind` binds; the premise then iterates over the
/// enclosing levels, each ranging over what the inputs read and binding
/// what the outputs bind.
#[verifier::rlimit(80)]
#[verifier::spinoff_prover]
pub fn analyze_rule_prem(ctx: &mut Context, iter_ctx: ICtx, span: Span, rule: RelPrem) -> (r: Result<(VEnv, Prem, Vec<Prem>), AlgoError>)
    requires
        old(ctx).wf(),
    ensures
        ctx_kept(*old(ctx), *final(ctx)),
        match r {
            Ok((venv, prem, prems)) => venv.wf() && rule_analysed(*old(ctx), final(ctx).frees@, iter_ctx@, rule, venv@, prem@, prems_view(prems@)),
            Err(e) => rule_failure(*old(ctx), iter_ctx@, span, rule, e),
        },
        r matches Ok((_, prem, _)) ==> crate::algo::iteration::wrapped_at(prem, iter_ctx@.len() as nat, span),
{
    let ghost ctx0 = *ctx;
    let ghost ictx0 = iter_ctx@;
    let ghost rp0 = rule;
    let ghost ps = rule.input_hint.positions@;
    let ghost args = rule.not_exp.args@;
    let RelPrem { id, not_exp, input_hint } = rule;
    let NotExp { mixop, args: exps } = not_exp;
    let n0 = exps.len();
    proof {
        assert(exps@ == args);
        assert(input_hint.positions@ == ps);
        assert(args.len() == n0);
    }
    let (ins, outs) = match split_inputs(&input_hint.positions, exps, span) {
        Ok(x) => x,
        Err(e) => return Err(e),
    };
    proof {
        lemma_parts_len(ps, args);
        assert(hint_fits(ps, args.len() as int));
        assert(args.len() <= usize::MAX);
    }
    // Inputs must be bound
    for i in 0..ins.len()
        invariant
            ctx.wf(),
            *ctx == ctx0,
            ins@ == inputs_of(ps, args),
            ps == rp0.input_hint.positions@,
            rp0 == rule,
            ictx0 == iter_ctx@,
            ctx0 == *old(ctx),
            args == rp0.not_exp.args@,
            hint_fits(ps, args.len() as int),
            forall|j: int| 0 <= j < i ==> #[trigger] bound_ok(ctx.venv@, ins@[j]),
    {
        match analyze_exp_as_bound(ctx, &ins[i]) {
            Ok(()) => {},
            Err(e) => {
                proof {
                    assert(!bound_ok(ctx0.venv@, ins@[i as int]));
                    assert(inputs_of(rp0.input_hint.positions@, rp0.not_exp.args@)[i as int] == ins@[i as int]);
                    assert(!inputs_bound(ctx0, rp0));
                    assert(crate::algo::analyze::bound_err(ctx0.venv@, ins@[i as int], e));
                    assert(first_bound_err(ctx0.venv@, ins@, e));
                    assert(rule_failure(ctx0, ictx0, span, rp0, e));
                }
                return Err(e);
            },
        }
    }
    proof {
        assert(inputs_bound(ctx0, rp0));
    }
    // Outputs bind
    let (venv, outs_al, prems) = match analyze_exps_as_bind(ctx, &iter_ctx, &outs) {
        Ok(x) => x,
        Err(e) => {
            proof {
                assert(outs@ == outputs_of(rp0.input_hint.positions@, rp0.not_exp.args@));
                assert(hint_fits(rp0.input_hint.positions@, rp0.not_exp.args@.len() as int));
                if !(coll_exps(ctx0.venv@, outs@) is None
                    && collection_exps(ctx0.venv@, outs@) == Err::<Seq<(Id, BindingV)>, AlgoError>(e)) {
                    let (b, m, es1, f1, rpr) = choose|b: BEnv, m: RenameEnv, es1: Seq<ExpV>, frees1: Set<Seq<char>>, rpr: crate::algo::partial::RenameEnv|
                        #[trigger] bind_failure(ctx0, ictx0, outs@, b, m, es1, frees1, rpr, e.kind);
                    assert(bind_failure(ctx0, ictx0, outs@, b, m, es1, f1, rpr, e.kind));
                }
                assert(rule_failure(ctx0, ictx0, span, rp0, e));
            }
            return Err(e);
        },
    };
    let ghost outs_v = outs_al@;
    let venv_bound = infer_exps(&ins);
    let venv_bind = infer_exps(&outs_al);
    let mut levels = iter_ctx;
    levels.filter_bound(&venv_bound, &IdSet::new(), true);
    let ghost c1 = levels@;
    levels.add_vars_bind(&venv_bind);
    proof {
        let vr = inf_exps(Map::empty(), ins@, Seq::empty());
        assert(c1 =~= Seq::new(ictx0.len(), |l: int| with_bound_only(ictx0[l], keep_vars(ictx0[l].vars_bound, dims_keep(vr)))));
        assert(levels@ =~= rule_levels(ictx0, ins@, outs_v));
    }
    match levels.validate(span) {
        Ok(()) => {},
        Err(e) => {
            proof {
                let (b, m, es1, f1, rpr) = choose|b: BEnv, m: RenameEnv, es1: Seq<ExpV>, frees1: Set<Seq<char>>, rpr: crate::algo::partial::RenameEnv|
                    #[trigger] bind_result(ctx0, ctx.frees@, ictx0, outs@, b, m, es1, frees1, rpr, venv@, exps_view(outs_v), prems_view(prems@));
                assert(bind_result(ctx0, ctx.frees@, ictx0, outs@, b, m, es1, f1, rpr, venv@, exps_view(outs_v), prems_view(prems@)));
                assert(level_error(rule_levels(ictx0, ins@, outs_v), span, e));
            }
            return Err(e);
        },
    }
    let ghost ins_v = ins@;
    let args_al = combine_inputs(&input_hint.positions, ins, outs_al);
    let prem = Prem { node: PremKind::Rule(RulePrem { id, not_exp: NotExp { mixop, args: args_al } }), span };
    let prem = levels.iterate_prem(prem);
    proof {
        assert(levels@ == rule_levels(ictx0, ins_v, outs_v));
        assert(args_al@ == interleave(ps, ins_v, outs_v, args.len() as int));
        assert(ins_v == inputs_of(rp0.input_hint.positions@, rp0.not_exp.args@));
        let (b, m, es1, f1, rpr) = choose|b: BEnv, m: RenameEnv, es1: Seq<ExpV>, frees1: Set<Seq<char>>, rpr: crate::algo::partial::RenameEnv|
            #[trigger] bind_result(ctx0, ctx.frees@, ictx0, outs@, b, m, es1, frees1, rpr, venv@, exps_view(outs_v), prems_view(prems@));
        assert(bind_result(ctx0, ctx.frees@, ictx0, outputs_of(ps, args), b, m, es1, f1, rpr, venv@, exps_view(outs_v), prems_view(prems@)));
        assert(levels_valid(rule_levels(ictx0, ins_v, outs_v)));
        assert(rule_result(ctx0, ctx.frees@, ictx0, rp0, b, m, es1, f1, rpr, outs_v, venv@, prem@, prems_view(prems@)));
        assert(rule_analysed(*old(ctx), ctx.frees@, iter_ctx@, rule, venv@, prem@, prems_view(prems@)));
    }
    Ok((venv, prem, prems))
}

/// The iteration an iterated premise opens, binding nothing yet.
pub open spec fn opened(pi: il::PremIter) -> IterationV {
    IterationV { iter: pi.iter, vars_bound: crate::il::vars_view(pi.vars_bound@), vars_bind: Seq::empty() }
}

/// The arguments of a premise on a relation bind nothing.
pub open spec fn args_bound(ctx: Context, rp: il::RulePrem) -> bool {
    forall|i: int| 0 <= i < rp.not_exp.args@.len() ==> #[trigger] bound_ok(ctx.venv@, rp.not_exp.args@[i])
}

/// The outcome of analysing a premise that a relation holds, or not, whose
/// analysed form is `shape`.
pub open spec fn hold_outcome(ctx: Context, ictx: Seq<IterationV>, rp: il::RulePrem, shape: PremShape, r: Result<(VEnv, Prem, Vec<Prem>), AlgoError>) -> bool {
    if args_bound(ctx, rp) {
        plain_outcome(ictx, shape, r)
    } else {
        r matches Err(e) && first_bound_err(ctx.venv@, rp.not_exp.args@, e)
    }
}

/// What analysing the premise `p` under the iterations `ictx` gives, the
/// context going from `ctx` to `ctx_after`: each kind of premise as its own
/// analysis says; an iterated premise that already binds variables is
/// rejected at its span, any other is its body analysed one iteration
/// deeper.
pub open spec fn prem_outcome(ctx: Context, ctx_after: Context, ictx: Seq<IterationV>, p: il::Prem, r: Result<(VEnv, Prem, Vec<Prem>), AlgoError>) -> bool
    decreases p,
{
    match p.node {
        il::PremKind::Rule(rp) => match r {
            Ok((venv, prem, prems)) => venv.wf() && rule_analysed(ctx, ctx_after.frees@, ictx, rp, venv@, prem@, prems_view(prems@)),
            Err(e) => rule_failure(ctx, ictx, p.span, rp, e),
        },
        il::PremKind::If(ip) => match ip.exp.node {
            ExpKind::Cmp(CmpOp::Eq, _, l, rhs) => if_eq_outcome(ctx, ctx_after, ictx, p.span, ip.exp, *l, *rhs, r),
            _ => ctx_after == ctx && if bound_ok(ctx.venv@, ip.exp) {
                plain_outcome(ictx, PremShape::If(exp_view(ip.exp)), r)
            } else {
                r matches Err(e) && bound_err(ctx.venv@, ip.exp, e)
            },
        },
        il::PremKind::IfHold(rp) => ctx_after == ctx
            && hold_outcome(ctx, ictx, rp, PremShape::IfHold(rp.id@, mixop_view(rp.not_exp.mixop), exps_view(rp.not_exp.args@)), r),
        il::PremKind::IfNotHold(rp) => ctx_after == ctx
            && hold_outcome(ctx, ictx, rp, PremShape::IfNotHold(rp.id@, mixop_view(rp.not_exp.mixop), exps_view(rp.not_exp.args@)), r),
        il::PremKind::Debug(ip) => ctx_after == ctx && if bound_ok(ctx.venv@, ip.exp) {
            plain_outcome(ictx, PremShape::Debug(exp_view(ip.exp)), r)
        } else {
            r matches Err(e) && bound_err(ctx.venv@, ip.exp, e)
        },
        il::PremKind::Iter(ip) => if ip.prem_iter.vars_bind@.len() > 0 {
            ctx_after == ctx && r == Err::<(VEnv, Prem, Vec<Prem>), AlgoError>(
                AlgoError::new_spec(AlgoErrorKind::UnexpectedIterationBindings, p.span))
        } else {
            prem_outcome(ctx, ctx_after, seq![opened(ip.prem_iter)] + ictx, *ip.prem, r)
        },
    }
}

/// Analyses a premise under the iterations `iter_ctx`, by its kind; an
/// iterated premise analyses its body under one more iteration.
pub fn analyze_prem(ctx: &mut Context, iter_ctx: ICtx, prem: il::Prem) -> (r: Result<(VEnv, Prem, Vec<Prem>), AlgoError>)
    requires
        old(ctx).wf(),
    ensures
        ctx_kept(*old(ctx), *final(ctx)),
        prem_outcome(*old(ctx), *final(ctx), iter_ctx@, prem, r),
        r matches Ok((venv, _, _)) ==> venv.wf(),
    decreases prem,
{
    let ghost p0 = prem;
    let il::Prem { node, span } = prem;
    match node {
        il::PremKind::Rule(rp) => analyze_rule_prem(ctx, iter_ctx, span, rp),
        il::PremKind::If(ip) => analyze_if_prem(ctx, iter_ctx, span, &IfPrem { exp: ip.exp }),
        il::PremKind::IfHold(rp) => analyze_if_hold_prem(ctx, iter_ctx, span, &RulePrem { id: rp.id, not_exp: rp.not_exp }),
        il::PremKind::IfNotHold(rp) => analyze_if_not_hold_prem(ctx, iter_ctx, span, &RulePrem { id: rp.id, not_exp: rp.not_exp }),
        il::PremKind::Debug(ip) => analyze_debug_prem(ctx, iter_ctx, span, &IfPrem { exp: ip.exp }),
        il::PremKind::Iter(ip) => {
            let ghost pi = ip.prem_iter;
            let il::IterPrem { prem: inner, prem_iter } = ip;
            let il::PremIter { iter, vars_bound, vars_bind } = prem_iter;
            if vars_bind.len() > 0 {
                return Err(AlgoError::new(AlgoErrorKind::UnexpectedIterationBindings, span));
            }
            let mut iterations = iter_ctx.iterations;
            let ghost c0 = iterations@;
            let it = Iteration { iter, vars_bound, vars_bind: Vec::new() };
            proof {
                assert(vars_bind@ =~= Seq::<il::Var>::empty());
                assert(crate::il::vars_view(vars_bind@) =~= Seq::<crate::il::VarV>::empty());
                assert(it@ == opened(pi));
            }
            iterations.insert(0, it);
            let deeper = ICtx::from_iterations(iterations);
            proof {
                assert(deeper@ =~= seq![opened(pi)] + iterations_view(c0));
            }
            analyze_prem(ctx, deeper, *inner)
        },
    }
}

/// `c2` is `c` once the variables of `v` are recorded as bound, the first
/// dimension seen kept.
pub open spec fn bounds_added(c: Context, v: Map<Seq<char>, DimV>, c2: Context) -> bool {
    &&& c2.wf()
    &&& c2.venv@ == v.union_prefer_right(c.venv@)
    &&& c2.frees == c.frees
    &&& c2.tdenv == c.tdenv
    &&& c2.menv == c.menv
}

/// `pre` put before the premises of a result, or its failure.
pub open spec fn prepend(pre: Seq<PremShape>, r: Result<Seq<PremShape>, AlgoError>) -> Result<Seq<PremShape>, AlgoError> {
    match r {
        Ok(t) => Ok(pre + t),
        Err(e) => Err(e),
    }
}

/// What analysing the premises `ps` in order gives, the context going from
/// `ctx` to `ctx_after`: the first premise is analysed outside any
/// iteration; its failure is the result; else the variables it binds are
/// recorded as bound for the rest, and the result is the premise, then the
/// premises it needs, then those of the rest.
pub open spec fn prems_outcome(ctx: Context, ps: Seq<il::Prem>, ctx_after: Context, r: Result<Seq<PremShape>, AlgoError>) -> bool
    decreases ps.len(),
{
    if ps.len() == 0 {
        ctx_after == ctx && r == Ok::<Seq<PremShape>, AlgoError>(Seq::empty())
    } else {
        exists|c1: Context, r1: Result<(VEnv, Prem, Vec<Prem>), AlgoError>|
            #[trigger] prem_outcome(ctx, c1, Seq::empty(), ps[0], r1) && ctx_kept(ctx, c1) && match r1 {
                Err(e) => ctx_after == c1 && r == Err::<Seq<PremShape>, AlgoError>(e),
                Ok((v, p, side)) => exists|c2: Context, rr: Result<Seq<PremShape>, AlgoError>|
                    #![trigger bounds_added(c1, v@, c2), prepend(seq![p@] + prems_view(side@), rr)]
                    bounds_added(c1, v@, c2) && prems_outcome(c2, ps.drop_first(), ctx_after, rr)
                        && r == prepend(seq![p@] + prems_view(side@), rr),
            }
    }
}

/// A first premise analysed into `venv`, `p` and `side`, then the rest
/// from the context with its variables bound, gives the whole list.
proof fn lemma_prems_step(
    ctx: Context,
    ps: Seq<il::Prem>,
    c1: Context,
    venv: VEnv,
    p: Prem,
    side: Vec<Prem>,
    c2: Context,
    ctx_after: Context,
    rr: Result<Seq<PremShape>, AlgoError>,
)
    requires
        ps.len() > 0,
        prem_outcome(ctx, c1, Seq::empty(), ps[0], Ok((venv, p, side))),
        ctx_kept(ctx, c1),
        bounds_added(c1, venv@, c2),
        prems_outcome(c2, ps.drop_first(), ctx_after, rr),
    ensures
        prems_outcome(ctx, ps, ctx_after, prepend(seq![p@] + prems_view(side@), rr)),
{
    let r1 = Ok::<(VEnv, Prem, Vec<Prem>), AlgoError>((venv, p, side));
    let r = prepend(seq![p@] + prems_view(side@), rr);
    assert(prem_outcome(ctx, c1, Seq::empty(), ps[0], r1));
    assert(exists|c1: Context, r1: Result<(VEnv, Prem, Vec<Prem>), AlgoError>|
        #[trigger] prem_outcome(ctx, c1, Seq::empty(), ps[0], r1) && ctx_kept(ctx, c1) && match r1 {
            Err(e) => ctx_after == c1 && r == Err::<Seq<PremShape>, AlgoError>(e),
            Ok((v, p, side)) => exists|c2: Context, rr: Result<Seq<PremShape>, AlgoError>|
                bounds_added(c1, v@, c2) && #[trigger] prems_outcome(c2, ps.drop_first(), ctx_after, rr)
                    && r == prepend(seq![p@] + prems_view(side@), rr),
        });
}

/// The analysed premises of a result, or its failure.
pub open spec fn prems_result(r: Result<Vec<Prem>, AlgoError>) -> Result<Seq<PremShape>, AlgoError> {
    match r {
        Ok(out) => Ok(prems_view(out@)),
        Err(e) => Err(e),
    }
}

/// Analyses premises in order, the variables each binds bound for the
/// next: each premise is followed by the premises it needs.
pub fn analyze_prems(ctx: &mut Context, prems: Vec<il::Prem>) -> (r: Result<Vec<Prem>, AlgoError>)
    requires
        old(ctx).wf(),
    ensures
        final(ctx).wf(),
        final(ctx).tdenv == old(ctx).tdenv,
        final(ctx).menv == old(ctx).menv,
        prems_outcome(*old(ctx), prems@, *final(ctx), prems_result(r)),
    decreases prems@.len(),
{
    let ghost ctx0 = *ctx;
    let ghost ps = prems@;
    if prems.len() == 0 {
        proof {
            assert(prems_view(Seq::<Prem>::empty()) =~= Seq::<PremShape>::empty());
        }
        return Ok(Vec::new());
    }
    let mut rest = prems;
    let prem = rest.remove(0);
    proof {
        assert(rest@ =~= ps.drop_first());
    }
    match analyze_prem(ctx, ICtx::new(), prem) {
        Err(e) => {
            proof {
                let r1 = Err::<(VEnv, Prem, Vec<Prem>), AlgoError>(e);
                assert(prem_outcome(ctx0, *ctx, Seq::empty(), ps[0], r1));
            }
            Err(e)
        },
        Ok((venv, p, side)) => {
            let ghost c1 = *ctx;
            let ghost r1 = Ok::<(VEnv, Prem, Vec<Prem>), AlgoError>((venv, p, side));
            let ghost x = seq![p@] + prems_view(side@);
            proof {
                assert(prem_outcome(ctx0, c1, Seq::empty(), ps[0], r1));
            }
            ctx.add_bounds(&venv);
            let ghost c2 = *ctx;
            proof {
                assert(bounds_added(c1, venv@, c2));
            }
            let res = analyze_prems(ctx, rest);
            let ghost rr = prems_result(res);
            proof {
                assert(prems_outcome(c2, ps.drop_first(), *ctx, rr));
                assert(ctx_kept(ctx0, c1));
                lemma_prems_step(ctx0, ps, c1, venv, p, side, c2, *ctx, rr);
            }
            match res {
                Err(e) => Err(e),
                Ok(tail) => {
                    let mut out: Vec<Prem> = Vec::new();
                    out.push(p);
                    let mut side = side;
                    out.append(&mut side);
                    let mut tail = tail;
                    let ghost t = prems_view(tail@);
                    out.append(&mut tail);
                    proof {
                        assert(prems_view(out@) =~= x + t);
                    }
                    Ok(out)
                },
            }
        },
    }
}

} // verus!
