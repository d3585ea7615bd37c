//! Rewriting of partially bound patterns.
//!
//! Bound values inside a binder become fresh variables plus equality
//! premises: `let PATTERN (a, 1 + 2) = …` becomes
//! `let PATTERN (a, int) = …, if int = 1 + 2`.
//!
//! Variant and subtype injections become guards followed by simpler
//! bindings: `let PATTERN (a, int) = pat` becomes
//! `if pat matches PATTERN, let PATTERN (a, b) = pat`, and
//! `let ((typ) child) = parent` becomes
//! `if parent <: child, let child = parent as child`.
//!
//! Generated premises keep the iteration context of the source pattern.

use vstd::prelude::*;
use crate::span::Span;
use crate::il::{
    Exp, ExpIter, ExpKind, ExpField, ExpV, ExpKindV, Id, Iter, ListPattern, NotExp, OptPattern, Pattern, PatternV,
    Typ, TypKind, TypV, Var, VarV, CmpOp, OpTyp, Arg, ArgKind, ArgV,
    exp_view, exps_view, fields_view, fields_atoms, pattern_view, typ_view, typ_kind_view, var_view, vars_view,
    args_view, arg_view, mixop_view,
};
use crate::il_typ::{clone_id, clone_typ, clone_typ_kind, clone_mixop, clone_var, clone_vars, subst, subst_typ, ids_view};
use crate::il_exp::{clone_exp, clone_pattern, clone_arg};
use crate::il_def::{DefTypKind, DefTypV, TypeDef, TypeDefV};
use crate::il_free::{free, expv_free, lemma_free_view};
use crate::il_var::{as_exp, var_exp, var_exp_at, var_from_typ, fresh_var};
use crate::ids::IdSet;
use crate::idmap::idmap_entries;
use crate::al::{IfPrem, LetPrem, Prem, PremKind, PremShape, prems_view};
use crate::algo::error::{AlgoError, AlgoErrorKind};
use crate::algo::context::Context;
use crate::algo::dim::DimV;
use crate::algo::dimension::{inf, inf_entries};
use crate::algo::multiple::ctx_kept;
use crate::algo::iteration::{
    ICtx, Iteration, IterationV, with_bound, with_bound_only, with_bind, keep_vars, not_in_keep, dims_keep,
    var_v, levels_iters, env_vars, iterate_shape,
};

verus! {

// == Singleton variants

/// Whether values of type `t` are those of a variant with a single case,
/// following up to `fuel` plain aliases; a longer chain of aliases is a cycle.
pub open spec fn singleton_case(defs: Map<Seq<char>, TypeDefV>, t: TypV, fuel: nat) -> Result<bool, AlgoErrorKind>
    decreases fuel,
{
    match t {
        TypV::Var(id, targs) => if !defs.contains_key(id) {
            Err(AlgoErrorKind::UndefinedType)
        } else {
            match defs[id] {
                TypeDefV::Extern | TypeDefV::Parameter => Ok(false),
                TypeDefV::Defined(tparams, dt) => match dt {
                    DefTypV::Plain(inner) => if tparams.len() != targs.len() {
                        Err(AlgoErrorKind::TypeArgumentArityMismatch { expected: tparams.len() as usize, actual: targs.len() as usize })
                    } else if fuel == 0 {
                        Err(AlgoErrorKind::Type)
                    } else {
                        singleton_case(defs, subst(tparams, targs, inner), (fuel - 1) as nat)
                    },
                    DefTypV::Struct(_, _) => Ok(false),
                    DefTypV::Variant(cs) => Ok(cs.len() == 1),
                },
            }
        },
        _ => Ok(false),
    }
}

fn is_singleton_case_fuel(ctx: &Context, typ: &Typ, fuel: usize) -> (r: Result<bool, AlgoError>)
    requires
        ctx.wf(),
    ensures
        match r {
            Ok(b) => singleton_case(ctx.tdenv@, typ_view(*typ), fuel as nat) == Ok::<bool, AlgoErrorKind>(b),
            Err(e) => singleton_case(ctx.tdenv@, typ_view(*typ), fuel as nat) == Err::<bool, AlgoErrorKind>(e.kind),
        },
    decreases fuel,
{
    match &typ.node {
        TypKind::Var(id, targs) => {
            let d = match ctx.find_typdef(id) {
                Ok(d) => d,
                Err(e) => return Err(e),
            };
            match d {
                TypeDef::Extern | TypeDef::Parameter => Ok(false),
                TypeDef::Defined(tparams, def_typ) => match &def_typ.node {
                    DefTypKind::Plain(inner) => {
                        proof {
                            crate::il_typ::lemma_typs_view(targs@);
                        }
                        if tparams.len() != targs.len() {
                            return Err(AlgoError::new(
                                AlgoErrorKind::TypeArgumentArityMismatch { expected: tparams.len(), actual: targs.len() },
                                typ.span,
                            ));
                        }
                        if fuel == 0 {
                            return Err(AlgoError::new(AlgoErrorKind::Type, typ.span));
                        }
                        let inner2 = subst_typ(tparams, targs, inner);
                        proof {
                            assert(ids_view(tparams@) =~= Seq::new(tparams@.len(), |i: int| tparams@[i]@));
                        }
                        is_singleton_case_fuel(ctx, &inner2, fuel - 1)
                    },
                    DefTypKind::Struct(_) => Ok(false),
                    DefTypKind::Variant(cases) => Ok(cases.len() == 1),
                },
            }
        },
        _ => Ok(false),
    }
}

/// Whether values of type `typ` are those of a single-case variant.
fn is_singleton_case(ctx: &Context, typ: &Typ) -> (r: Result<bool, AlgoError>)
    requires
        ctx.wf(),
    ensures
        match r {
            Ok(b) => singleton_case(ctx.tdenv@, typ_view(*typ), ctx.tdenv.entries@.len()) == Ok::<bool, AlgoErrorKind>(b),
            Err(e) => singleton_case(ctx.tdenv@, typ_view(*typ), ctx.tdenv.entries@.len()) == Err::<bool, AlgoErrorKind>(e.kind),
        },
{
    is_singleton_case_fuel(ctx, typ, ctx.tdenv.entries.len())
}

// == Rename environment

/// Where the value of a fresh variable comes from.
pub enum Source {
    /// A value computed from bound variables.
    Bound { exp_from: Exp },
    /// A value that matches `pattern` and binds the variables of `exp_from`.
    BindMatch { pattern: Pattern, exp_from: Exp },
    /// A value of subtype `typ_sub`, bound to `exp_sub` once cast down.
    BindSub { typ_sub: Typ, exp_sub: Exp, exp_from: Exp },
}

/// Sources without locations.
pub enum SourceV {
    Bound(ExpV),
    BindMatch(PatternV, ExpV),
    BindSub(TypV, ExpV, ExpV),
}

impl View for Source {
    type V = SourceV;

    open spec fn view(&self) -> SourceV {
        match self {
            Source::Bound { exp_from } => SourceV::Bound(exp_view(*exp_from)),
            Source::BindMatch { pattern, exp_from } => SourceV::BindMatch(pattern_view(*pattern), exp_view(*exp_from)),
            Source::BindSub { typ_sub, exp_sub, exp_from } => SourceV::BindSub(
                typ_view(*typ_sub),
                exp_view(*exp_sub),
                exp_view(*exp_from),
            ),
        }
    }
}

/// A fresh variable, where its value comes from, and the iterations around
/// the pattern it replaced.
pub struct Rename {
    pub destination: Var,
    pub source: Source,
    pub iter_ctx: ICtx,
}

/// Renames without locations.
pub struct RenameV {
    pub destination: VarV,
    pub source: SourceV,
    pub iter_ctx: Seq<IterationV>,
}

impl View for Rename {
    type V = RenameV;

    open spec fn view(&self) -> RenameV {
        RenameV { destination: self.destination@, source: self.source@, iter_ctx: self.iter_ctx@ }
    }
}

/// The renames made while rewriting a pattern, in premise order.
pub struct RenameEnv {
    pub renames: Vec<Rename>,
}

impl View for RenameEnv {
    type V = Seq<RenameV>;

    open spec fn view(&self) -> Seq<RenameV> {
        Seq::new(self.renames@.len(), |i: int| self.renames@[i]@)
    }
}

impl RenameEnv {
    pub fn new() -> (r: RenameEnv)
        ensures
            r@ == Seq::<RenameV>::empty(),
    {
        let r = RenameEnv { renames: Vec::new() };
        assert(r@ =~= Seq::<RenameV>::empty());
        r
    }
}

// == The rewriting, stated over views

/// What rewriting reads and does not change: the identifiers that the
/// pattern binds, the meta-variables, the type definitions, and the bound on
/// alias chains.
pub struct PEnv {
    pub binds: Set<Seq<char>>,
    pub menv: Seq<(Seq<char>, TypV)>,
    pub defs: Map<Seq<char>, TypeDefV>,
    pub fuel: nat,
}

/// What rewriting changes: the names in use, the renames made so far, and
/// the enclosing iterations.
pub struct PState {
    pub frees: Set<Seq<char>>,
    pub renames: Seq<RenameV>,
    pub ictx: Seq<IterationV>,
}

/// The enclosing iterations with the variables in `ids` no longer ranged over.
pub open spec fn ictx_without(c: Seq<IterationV>, ids: Set<Seq<char>>) -> Seq<IterationV> {
    Seq::new(c.len(), |l: int| with_bound_only(c[l], keep_vars(c[l].vars_bound, not_in_keep(ids))))
}

/// The enclosing iterations also ranging over `v`, one level deeper at each
/// enclosing level.
pub open spec fn ictx_with(c: Seq<IterationV>, v: VarV) -> Seq<IterationV> {
    Seq::new(c.len(), |l: int| with_bound(c[l], seq![var_v(v.id, v.typ, v.iters + levels_iters(c, l))]))
}

/// Replaces `exp_from` by a fresh variable of its type whose value comes from
/// `source`; the variable ranges over the enclosing iterations in place of
/// the variables of `exp_from`.
pub open spec fn introduce(menv: Seq<(Seq<char>, TypV)>, st: PState, source: SourceV, exp_from: ExpV) -> (PState, ExpV) {
    let dest = fresh_var(menv, st.frees, exp_from.note);
    (
        PState {
            frees: st.frees.insert(dest.id),
            renames: seq![RenameV { destination: dest, source, iter_ctx: st.ictx }] + st.renames,
            ictx: ictx_with(ictx_without(st.ictx, expv_free(exp_from)), dest),
        },
        var_exp(dest),
    )
}

/// An upcast of a nullary case.
pub open spec fn upcast_terminal(e: ExpV) -> bool {
    e.node matches ExpKindV::UpCast(_, x) && x.node matches ExpKindV::Case(_, args) && args.len() == 0
}

/// Whether `e` mentions an identifier that the pattern binds.
pub open spec fn has_binding(binds: Set<Seq<char>>, e: ExpV) -> bool {
    exists|id: Seq<char>| binds.contains(id) && #[trigger] expv_free(e).contains(id)
}

/// The list pattern of a list of `n` elements.
pub open spec fn list_pattern(n: nat) -> PatternV {
    if n == 0 { PatternV::List(ListPattern::Nil) } else { PatternV::List(ListPattern::Fixed(n as u64)) }
}

/// Rewrites a pattern: an expression without binders becomes a fresh
/// variable, and injections become fresh variables guarded by a match or a
/// subtype check.
pub open spec fn prn(env: PEnv, st: PState, e: ExpV) -> Result<(PState, ExpV), AlgoErrorKind>
    decreases e,
{
    if !has_binding(env.binds, e) && !upcast_terminal(e) {
        Ok(introduce(env.menv, st, SourceV::Bound(e), e))
    } else {
        match e.node {
            ExpKindV::UpCast(t, x) => match prn(env, st, *x) {
                Err(k) => Err(k),
                Ok((st1, x1)) => {
                    let from = ExpV { node: ExpKindV::UpCast(t, Box::new(x1)), note: e.note };
                    Ok(introduce(env.menv, st1, SourceV::BindSub(x1.note, x1, from), from))
                },
            },
            ExpKindV::Tuple(es) => match prn_exps(env, st, es) {
                Err(k) => Err(k),
                Ok((st1, es1)) => Ok((st1, ExpV { node: ExpKindV::Tuple(es1), note: e.note })),
            },
            ExpKindV::Case(m, args) => match prn_exps(env, st, args) {
                Err(k) => Err(k),
                Ok((st1, args1)) => {
                    let from = ExpV { node: ExpKindV::Case(m, args1), note: e.note };
                    match singleton_case(env.defs, e.note, env.fuel) {
                        Err(k) => Err(k),
                        Ok(single) => if single {
                            Ok((st1, from))
                        } else {
                            Ok(introduce(env.menv, st1, SourceV::BindMatch(PatternV::Case(m), from), from))
                        },
                    }
                },
            },
            ExpKindV::Str(atoms, es) => match prn_exps(env, st, es) {
                Err(k) => Err(k),
                Ok((st1, es1)) => Ok((st1, ExpV { node: ExpKindV::Str(atoms, es1), note: e.note })),
            },
            ExpKindV::Opt(o) => match o {
                Some(x) => match prn(env, st, *x) {
                    Err(k) => Err(k),
                    Ok((st1, x1)) => {
                        let from = ExpV { node: ExpKindV::Opt(Some(Box::new(x1))), note: e.note };
                        Ok(introduce(env.menv, st1, SourceV::BindMatch(PatternV::Opt(OptPattern::IsSome), from), from))
                    },
                },
                None => Ok(introduce(env.menv, st, SourceV::BindMatch(PatternV::Opt(OptPattern::IsNone), e), e)),
            },
            ExpKindV::List(es) => match prn_exps(env, st, es) {
                Err(k) => Err(k),
                Ok((st1, es1)) => {
                    let from = ExpV { node: ExpKindV::List(es1), note: e.note };
                    Ok(introduce(env.menv, st1, SourceV::BindMatch(list_pattern(es1.len()), from), from))
                },
            },
            ExpKindV::Cons(h, t) => match prn(env, st, *h) {
                Err(k) => Err(k),
                Ok((st1, h1)) => match prn(env, st1, *t) {
                    Err(k) => Err(k),
                    Ok((st2, t1)) => {
                        let from = ExpV { node: ExpKindV::Cons(Box::new(h1), Box::new(t1)), note: e.note };
                        Ok(introduce(env.menv, st2, SourceV::BindMatch(PatternV::List(ListPattern::Cons), from), from))
                    },
                },
            },
            ExpKindV::Iter(x, it, vars) => {
                let level = IterationV { iter: it, vars_bound: vars, vars_bind: Seq::empty() };
                match prn(env, PState { ictx: seq![level] + st.ictx, ..st }, *x) {
                    Err(k) => Err(k),
                    Ok((st1, x1)) => Ok((
                        PState { ictx: st1.ictx.drop_first(), ..st1 },
                        ExpV { node: ExpKindV::Iter(Box::new(x1), st1.ictx[0].iter, st1.ictx[0].vars_bound), note: e.note },
                    )),
                }
            },
            _ => Ok((st, e)),
        }
    }
}

/// Rewrites a list of patterns left to right; the renames of each pattern
/// follow those of the patterns before it.
pub open spec fn prn_exps(env: PEnv, st: PState, es: Seq<ExpV>) -> Result<(PState, Seq<ExpV>), AlgoErrorKind>
    decreases es,
{
    if es.len() == 0 {
        Ok((st, es))
    } else {
        match prn_exps(env, st, es.drop_last()) {
            Err(k) => Err(k),
            Ok((st1, rs)) => match prn(env, PState { renames: Seq::empty(), ..st1 }, es.last()) {
                Err(k) => Err(k),
                Ok((st2, r)) => Ok((PState { renames: st1.renames + st2.renames, ..st2 }, rs.push(r))),
            },
        }
    }
}

/// Rewrites an argument: an expression argument as a pattern, whose renames
/// follow those made before.
pub open spec fn prn_arg(env: PEnv, st: PState, a: ArgV) -> Result<(PState, ArgV), AlgoErrorKind> {
    match a {
        ArgV::Exp(e) => match prn(env, PState { renames: Seq::empty(), ..st }, *e) {
            Err(k) => Err(k),
            Ok((st1, e1)) => Ok((PState { renames: st.renames + st1.renames, ..st1 }, ArgV::Exp(Box::new(e1)))),
        },
        ArgV::Def(_) => Ok((st, a)),
    }
}

pub open spec fn prn_args(env: PEnv, st: PState, args: Seq<ArgV>) -> Result<(PState, Seq<ArgV>), AlgoErrorKind>
    decreases args.len(),
{
    if args.len() == 0 {
        Ok((st, args))
    } else {
        match prn_args(env, st, args.drop_last()) {
            Err(k) => Err(k),
            Ok((st1, rs)) => match prn_arg(env, st1, args.last()) {
                Err(k) => Err(k),
                Ok((st2, r)) => Ok((st2, rs.push(r))),
            },
        }
    }
}

/// The environment a rewrite reads from the context and the binders.
pub open spec fn penv(ctx: Context, binds: Set<Seq<char>>) -> PEnv {
    PEnv { binds, menv: idmap_entries(ctx.menv.entries@), defs: ctx.tdenv@, fuel: ctx.tdenv.entries@.len() }
}

/// The state a rewrite reads.
pub open spec fn pstate(ctx: Context, renv: RenameEnv, ictx: ICtx) -> PState {
    PState { frees: ctx.frees@, renames: renv@, ictx: ictx@ }
}

// == Expression rewriting

/// Replaces `exp_from` by a fresh variable whose value comes from `source`.
fn introduce_var(ctx: &mut Context, renv: &mut RenameEnv, iter_ctx: &mut ICtx, source: Source, exp_from: &Exp) -> (r: Exp)
    requires
        old(ctx).wf(),
    ensures
        ctx_kept(*old(ctx), *final(ctx)),
        (pstate(*final(ctx), *final(renv), *final(iter_ctx)), exp_view(r))
            == introduce(idmap_entries(old(ctx).menv.entries@), pstate(*old(ctx), *old(renv), *old(iter_ctx)), source@, exp_view(*exp_from)),
        r.span == exp_from.span,
{
    let ghost st = pstate(*ctx, *renv, *iter_ctx);
    let ghost menv = idmap_entries(ctx.menv.entries@);
    let ghost src = source@;
    let typ = Typ { node: clone_typ_kind(&exp_from.note), span: exp_from.span };
    proof {
        assert(typ_view(typ) == exp_view(*exp_from).note);
    }
    let dest = var_from_typ(&ctx.menv, &ctx.frees, exp_from.span, &typ);
    ctx.add_free(clone_id(&dest.id));
    let ghost r0 = renv@;
    renv.renames.insert(0, Rename { destination: clone_var(&dest), source, iter_ctx: iter_ctx.clone_ctx() });
    proof {
        assert(renv@ =~= seq![RenameV { destination: dest@, source: src, iter_ctx: st.ictx }] + r0);
    }
    let bounds = free(exp_from);
    proof {
        lemma_free_view(*exp_from);
    }
    iter_ctx.filter_bound_not_in(&bounds);
    let ghost c1 = iter_ctx@;
    proof {
        assert(c1 =~= ictx_without(st.ictx, expv_free(exp_view(*exp_from))));
    }
    iter_ctx.add_var_bound(clone_id(&dest.id), clone_typ(&dest.typ), dest.iters.clone());
    proof {
        assert(iter_ctx@ =~= ictx_with(c1, dest@));
    }
    let r = as_exp(&dest);
    r
}

/// An upcast of a nullary case.
fn is_upcast_terminal(exp: &Exp) -> (b: bool)
    ensures
        b == upcast_terminal(exp_view(*exp)),
{
    match &exp.node {
        ExpKind::UpCast(t, x) => {
            proof {
                assert(exp_view(*exp).node == ExpKindV::UpCast(typ_view(*t), Box::new(exp_view(**x))));
            }
            match &x.node {
                ExpKind::Case(n) => {
                    proof {
                        crate::il_exp::lemma_exps_view(n.args@);
                        assert(exp_view(**x).node == ExpKindV::Case(mixop_view(n.mixop), exps_view(n.args@)));
                    }
                    n.args.len() == 0
                },
                _ => {
                    proof {
                        assert(!(exp_view(**x).node is Case));
                    }
                    false
                },
            }
        },
        _ => {
            proof {
                assert(!(exp_view(*exp).node is UpCast));
            }
            false
        },
    }
}

/// Whether `exp` mentions one of `binds`.
fn mentions_binding(binds: &IdSet, exp: &Exp) -> (b: bool)
    ensures
        b == has_binding(binds@, exp_view(*exp)),
{
    let frees = free(exp);
    proof {
        lemma_free_view(*exp);
    }
    let mut i: usize = 0;
    while i < binds.ids.len()
        invariant
            i <= binds.ids@.len(),
            frees@ == expv_free(exp_view(*exp)),
            forall|j: int| 0 <= j < i ==> !frees@.contains(#[trigger] binds.ids@[j]@),
        decreases binds.ids@.len() - i,
    {
        if frees.contains(&binds.ids[i]) {
            proof {
                assert(binds@.contains(binds.ids@[i as int]@));
            }
            return true;
        }
        i = i + 1;
    }
    proof {
        assert forall|id: Seq<char>| binds@.contains(id) implies !(#[trigger] expv_free(exp_view(*exp)).contains(id)) by {
            let j = choose|j: int| 0 <= j < binds.ids@.len() && binds.ids@[j]@ == id;
            assert(!frees@.contains(binds.ids@[j]@));
        }
    }
    false
}

/// Rewrites a pattern whose variables are partly bound.
pub fn rename_exp(ctx: &mut Context, binds: &IdSet, renv: &mut RenameEnv, iter_ctx: &mut ICtx, exp: &Exp) -> (r: Result<Exp, AlgoError>)
    requires
        old(ctx).wf(),
    ensures
        ctx_kept(*old(ctx), *final(ctx)),
        match r {
            Ok(e) => prn(penv(*old(ctx), binds@), pstate(*old(ctx), *old(renv), *old(iter_ctx)), exp_view(*exp))
                == Ok::<(PState, ExpV), AlgoErrorKind>((pstate(*final(ctx), *final(renv), *final(iter_ctx)), exp_view(e))),
            Err(err) => prn(penv(*old(ctx), binds@), pstate(*old(ctx), *old(renv), *old(iter_ctx)), exp_view(*exp))
                == Err::<(PState, ExpV), AlgoErrorKind>(err.kind),
        },
        r is Ok ==> final(iter_ctx)@.len() == old(iter_ctx)@.len(),
        r matches Ok(e) ==> e.span == exp.span,
    decreases exp, 1nat,
{
    if !mentions_binding(binds, exp) && !is_upcast_terminal(exp) {
        let source = Source::Bound { exp_from: clone_exp(exp) };
        let r = introduce_var(ctx, renv, iter_ctx, source, exp);
        return Ok(r);
    }
    rename_exp_bind(ctx, binds, renv, iter_ctx, exp)
}

#[verifier::rlimit(60)]
fn rename_exp_bind(ctx: &mut Context, binds: &IdSet, renv: &mut RenameEnv, iter_ctx: &mut ICtx, exp: &Exp) -> (r: Result<Exp, AlgoError>)
    requires
        old(ctx).wf(),
        has_binding(binds@, exp_view(*exp)) || upcast_terminal(exp_view(*exp)),
    ensures
        ctx_kept(*old(ctx), *final(ctx)),
        match r {
            Ok(e) => prn(penv(*old(ctx), binds@), pstate(*old(ctx), *old(renv), *old(iter_ctx)), exp_view(*exp))
                == Ok::<(PState, ExpV), AlgoErrorKind>((pstate(*final(ctx), *final(renv), *final(iter_ctx)), exp_view(e))),
            Err(err) => prn(penv(*old(ctx), binds@), pstate(*old(ctx), *old(renv), *old(iter_ctx)), exp_view(*exp))
                == Err::<(PState, ExpV), AlgoErrorKind>(err.kind),
        },
        r is Ok ==> final(iter_ctx)@.len() == old(iter_ctx)@.len(),
        r matches Ok(e) ==> e.span == exp.span,
    decreases exp, 0nat,
{
    let span = exp.span;
    match &exp.node {
        ExpKind::UpCast(t, x) => {
            let x2 = match rename_exp(ctx, binds, renv, iter_ctx, x) {
                Ok(x2) => x2,
                Err(e) => return Err(e),
            };
            let typ_sub = Typ { node: clone_typ_kind(&x2.note), span };
            let exp_from = Exp { node: ExpKind::UpCast(clone_typ(t), Box::new(clone_exp(&x2))), note: clone_typ_kind(&exp.note), span };
            let source = Source::BindSub { typ_sub, exp_sub: x2, exp_from: clone_exp(&exp_from) };
            Ok(introduce_var(ctx, renv, iter_ctx, source, &exp_from))
        },
        ExpKind::Tuple(es) => match rename_exps(ctx, binds, renv, iter_ctx, es) {
            Ok(es2) => Ok(Exp { node: ExpKind::Tuple(es2), note: clone_typ_kind(&exp.note), span }),
            Err(e) => Err(e),
        },
        ExpKind::Case(n) => {
            let args2 = match rename_exps(ctx, binds, renv, iter_ctx, &n.args) {
                Ok(a) => a,
                Err(e) => return Err(e),
            };
            let exp_from = Exp {
                node: ExpKind::Case(NotExp { mixop: clone_mixop(&n.mixop), args: args2 }),
                note: clone_typ_kind(&exp.note),
                span,
            };
            let typ = Typ { node: clone_typ_kind(&exp.note), span };
            match is_singleton_case(ctx, &typ) {
                Err(e) => Err(e),
                Ok(single) => if single {
                    Ok(exp_from)
                } else {
                    let source = Source::BindMatch { pattern: Pattern::Case(clone_mixop(&n.mixop)), exp_from: clone_exp(&exp_from) };
                    Ok(introduce_var(ctx, renv, iter_ctx, source, &exp_from))
                },
            }
        },
        ExpKind::Str(fs) => match rename_fields(ctx, binds, renv, iter_ctx, fs) {
            Ok(fs2) => Ok(Exp { node: ExpKind::Str(fs2), note: clone_typ_kind(&exp.note), span }),
            Err(e) => Err(e),
        },
        ExpKind::Opt(o) => match o {
            Some(x) => {
                let x2 = match rename_exp(ctx, binds, renv, iter_ctx, x) {
                    Ok(x2) => x2,
                    Err(e) => return Err(e),
                };
                let exp_from = Exp { node: ExpKind::Opt(Some(Box::new(x2))), note: clone_typ_kind(&exp.note), span };
                let source = Source::BindMatch { pattern: Pattern::Opt(OptPattern::IsSome), exp_from: clone_exp(&exp_from) };
                Ok(introduce_var(ctx, renv, iter_ctx, source, &exp_from))
            },
            None => {
                let source = Source::BindMatch { pattern: Pattern::Opt(OptPattern::IsNone), exp_from: clone_exp(exp) };
                Ok(introduce_var(ctx, renv, iter_ctx, source, exp))
            },
        },
        ExpKind::List(es) => {
            let es2 = match rename_exps(ctx, binds, renv, iter_ctx, es) {
                Ok(es2) => es2,
                Err(e) => return Err(e),
            };
            let n = es2.len();
            proof {
                crate::il_exp::lemma_exps_view(es2@);
            }
            let pattern = if n == 0 { ListPattern::Nil } else { ListPattern::Fixed(n as u64) };
            let exp_from = Exp { node: ExpKind::List(es2), note: clone_typ_kind(&exp.note), span };
            let source = Source::BindMatch { pattern: Pattern::List(pattern), exp_from: clone_exp(&exp_from) };
            Ok(introduce_var(ctx, renv, iter_ctx, source, &exp_from))
        },
        ExpKind::Cons(h, t) => {
            let h2 = match rename_exp(ctx, binds, renv, iter_ctx, h) {
                Ok(h2) => h2,
                Err(e) => return Err(e),
            };
            let t2 = match rename_exp(ctx, binds, renv, iter_ctx, t) {
                Ok(t2) => t2,
                Err(e) => return Err(e),
            };
            let exp_from = Exp { node: ExpKind::Cons(Box::new(h2), Box::new(t2)), note: clone_typ_kind(&exp.note), span };
            let source = Source::BindMatch { pattern: Pattern::List(ListPattern::Cons), exp_from: clone_exp(&exp_from) };
            Ok(introduce_var(ctx, renv, iter_ctx, source, &exp_from))
        },
        ExpKind::Iter(x, it) => {
            let iteration = Iteration { iter: it.iter, vars_bound: clone_vars(&it.vars), vars_bind: Vec::new() };
            proof {
                assert(vars_view(Seq::<Var>::empty()) =~= Seq::<VarV>::empty());
            }
            let scope = iter_ctx.scope(iteration);
            match rename_exp(ctx, binds, renv, iter_ctx, x) {
                Err(e) => {
                    scope.rollback(iter_ctx);
                    Err(e)
                },
                Ok(x2) => {
                    let level = scope.finish(iter_ctx);
                    Ok(Exp {
                        node: ExpKind::Iter(Box::new(x2), ExpIter { iter: level.iter, vars: level.vars_bound }),
                        note: clone_typ_kind(&exp.note),
                        span,
                    })
                },
            }
        },
        _ => Ok(clone_exp(exp)),
    }
}

/// Once a prefix of the patterns fails, the whole list fails.
proof fn lemma_prn_exps_err(env: PEnv, st: PState, es: Seq<ExpV>, n: int, k: AlgoErrorKind)
    requires
        0 <= n <= es.len(),
        prn_exps(env, st, es.take(n)) == Err::<(PState, Seq<ExpV>), AlgoErrorKind>(k),
    ensures
        prn_exps(env, st, es) == Err::<(PState, Seq<ExpV>), AlgoErrorKind>(k),
    decreases es.len() - n,
{
    if n < es.len() {
        assert(es.take(n + 1).drop_last() =~= es.take(n));
        lemma_prn_exps_err(env, st, es, n + 1, k);
    } else {
        assert(es.take(n) =~= es);
    }
}

/// Rewrites a list of patterns left to right.
pub fn rename_exps(ctx: &mut Context, binds: &IdSet, renv: &mut RenameEnv, iter_ctx: &mut ICtx, exps: &Vec<Exp>) -> (r: Result<Vec<Exp>, AlgoError>)
    requires
        old(ctx).wf(),
    ensures
        ctx_kept(*old(ctx), *final(ctx)),
        match r {
            Ok(es) => prn_exps(penv(*old(ctx), binds@), pstate(*old(ctx), *old(renv), *old(iter_ctx)), exps_view(exps@))
                == Ok::<(PState, Seq<ExpV>), AlgoErrorKind>((pstate(*final(ctx), *final(renv), *final(iter_ctx)), exps_view(es@))),
            Err(err) => prn_exps(penv(*old(ctx), binds@), pstate(*old(ctx), *old(renv), *old(iter_ctx)), exps_view(exps@))
                == Err::<(PState, Seq<ExpV>), AlgoErrorKind>(err.kind),
        },
        r is Ok ==> final(iter_ctx)@.len() == old(iter_ctx)@.len(),
        r matches Ok(es) ==> es@.len() == exps@.len() && forall|j: int| 0 <= j < es@.len() ==> (#[trigger] es@[j]).span == exps@[j].span,
    decreases exps, 2nat,
{
    let ghost env = penv(*ctx, binds@);
    let ghost st0 = pstate(*ctx, *renv, *iter_ctx);
    let ghost xs = exps_view(exps@);
    let mut out: Vec<Exp> = Vec::new();
    proof {
        crate::il_exp::lemma_exps_view(exps@);
        assert(xs.take(0) =~= Seq::<ExpV>::empty());
        assert(exps_view(out@) =~= Seq::<ExpV>::empty());
    }
    let mut i: usize = 0;
    while i < exps.len()
        invariant
            i <= exps@.len(),
            old(ctx).wf(),
            ctx_kept(*old(ctx), *ctx),
            env == penv(*old(ctx), binds@),
            st0 == pstate(*old(ctx), *old(renv), *old(iter_ctx)),
            xs == exps_view(exps@),
            xs.len() == exps@.len(),
            forall|j: int| 0 <= j < exps@.len() ==> #[trigger] xs[j] == exp_view(exps@[j]),
            prn_exps(env, st0, xs.take(i as int)) == Ok::<(PState, Seq<ExpV>), AlgoErrorKind>((pstate(*ctx, *renv, *iter_ctx), exps_view(out@))),
            iter_ctx@.len() == old(iter_ctx)@.len(),
            out@.len() == i,
            forall|j: int| 0 <= j < i ==> (#[trigger] out@[j]).span == exps@[j].span,
        decreases exps@.len() - i,
    {
        proof {
            assert(decreases_to!(exps => exps@[i as int]));
            assert(xs.take(i + 1).drop_last() =~= xs.take(i as int));
            assert(xs.take(i + 1).last() == exp_view(exps@[i as int]));
        }
        let ghost st1 = pstate(*ctx, *renv, *iter_ctx);
        let ghost out0 = out@;
        let mut renv_post = RenameEnv::new();
        match rename_exp(ctx, binds, &mut renv_post, iter_ctx, &exps[i]) {
            Err(e) => {
                proof {
                    lemma_prn_exps_err(env, st0, xs, i + 1, e.kind);
                }
                return Err(e);
            },
            Ok(e2) => {
                let ghost post = renv_post@;
                let ghost r0 = renv@;
                renv.renames.append(&mut renv_post.renames);
                proof {
                    assert(renv@ =~= r0 + post);
                    crate::il_exp::lemma_exps_view_push(out0, e2);
                }
                out.push(e2);
            },
        }
        i = i + 1;
    }
    proof {
        assert(xs.take(exps@.len() as int) =~= xs);
    }
    Ok(out)
}

/// Rewrites the field patterns of a record left to right.
fn rename_fields(ctx: &mut Context, binds: &IdSet, renv: &mut RenameEnv, iter_ctx: &mut ICtx, fields: &Vec<ExpField>) -> (r: Result<Vec<ExpField>, AlgoError>)
    requires
        old(ctx).wf(),
    ensures
        ctx_kept(*old(ctx), *final(ctx)),
        match r {
            Ok(fs) => prn_exps(penv(*old(ctx), binds@), pstate(*old(ctx), *old(renv), *old(iter_ctx)), fields_view(fields@))
                == Ok::<(PState, Seq<ExpV>), AlgoErrorKind>((pstate(*final(ctx), *final(renv), *final(iter_ctx)), fields_view(fs@)))
                && fields_atoms(fs@) == fields_atoms(fields@),
            Err(err) => prn_exps(penv(*old(ctx), binds@), pstate(*old(ctx), *old(renv), *old(iter_ctx)), fields_view(fields@))
                == Err::<(PState, Seq<ExpV>), AlgoErrorKind>(err.kind),
        },
        r is Ok ==> final(iter_ctx)@.len() == old(iter_ctx)@.len(),
        r matches Ok(fs) ==> fs@.len() == fields@.len() && forall|j: int| 0 <= j < fs@.len() ==> (#[trigger] fs@[j]).exp.span == fields@[j].exp.span,
    decreases fields, 2nat,
{
    let ghost env = penv(*ctx, binds@);
    let ghost st0 = pstate(*ctx, *renv, *iter_ctx);
    let ghost xs = fields_view(fields@);
    let mut out: Vec<ExpField> = Vec::new();
    proof {
        crate::il_exp::lemma_fields_view(fields@);
        assert(xs.take(0) =~= Seq::<ExpV>::empty());
        assert(fields_view(out@) =~= Seq::<ExpV>::empty());
        assert(fields_atoms(out@) =~= fields_atoms(fields@.take(0)));
    }
    let mut i: usize = 0;
    while i < fields.len()
        invariant
            i <= fields@.len(),
            old(ctx).wf(),
            ctx_kept(*old(ctx), *ctx),
            env == penv(*old(ctx), binds@),
            st0 == pstate(*old(ctx), *old(renv), *old(iter_ctx)),
            xs == fields_view(fields@),
            xs.len() == fields@.len(),
            forall|j: int| 0 <= j < fields@.len() ==> #[trigger] xs[j] == exp_view(fields@[j].exp),
            prn_exps(env, st0, xs.take(i as int)) == Ok::<(PState, Seq<ExpV>), AlgoErrorKind>((pstate(*ctx, *renv, *iter_ctx), fields_view(out@))),
            fields_atoms(out@) == fields_atoms(fields@.take(i as int)),
            iter_ctx@.len() == old(iter_ctx)@.len(),
            out@.len() == i,
            forall|j: int| 0 <= j < i ==> (#[trigger] out@[j]).exp.span == fields@[j].exp.span,
        decreases fields@.len() - i,
    {
        proof {
            assert(decreases_to!(fields => fields@[i as int]));
            assert(decreases_to!(fields@[i as int] => fields@[i as int].exp));
            assert(xs.take(i + 1).drop_last() =~= xs.take(i as int));
            assert(xs.take(i + 1).last() == exp_view(fields@[i as int].exp));
        }
        let ghost out0 = out@;
        let f = &fields[i];
        let mut renv_post = RenameEnv::new();
        match rename_exp(ctx, binds, &mut renv_post, iter_ctx, &f.exp) {
            Err(e) => {
                proof {
                    lemma_prn_exps_err(env, st0, xs, i + 1, e.kind);
                }
                return Err(e);
            },
            Ok(e2) => {
                let ghost post = renv_post@;
                let ghost r0 = renv@;
                renv.renames.append(&mut renv_post.renames);
                let f2 = ExpField { atom: f.atom.clone(), exp: e2 };
                proof {
                    assert(renv@ =~= r0 + post);
                    assert(out0.push(f2).drop_last() =~= out0);
                }
                out.push(f2);
                proof {
                    assert(fields_atoms(out0).len() == i);
                    assert forall|j: int| 0 <= j < i + 1 implies #[trigger] fields_atoms(out@)[j] == fields_atoms(fields@.take(i + 1))[j] by {
                        if j < i {
                            assert(fields_atoms(out0)[j] == fields_atoms(fields@.take(i as int))[j]);
                        }
                    }
                    assert(fields_atoms(out@) =~= fields_atoms(fields@.take(i + 1)));
                }
            },
        }
        i = i + 1;
    }
    proof {
        assert(xs.take(fields@.len() as int) =~= xs);
        assert(fields@.take(fields@.len() as int) =~= fields@);
    }
    Ok(out)
}

// == Argument rewriting

fn rename_arg(ctx: &mut Context, binds: &IdSet, renv: &mut RenameEnv, iter_ctx: &mut ICtx, arg: &Arg) -> (r: Result<Arg, AlgoError>)
    requires
        old(ctx).wf(),
    ensures
        ctx_kept(*old(ctx), *final(ctx)),
        match r {
            Ok(a) => prn_arg(penv(*old(ctx), binds@), pstate(*old(ctx), *old(renv), *old(iter_ctx)), arg_view(*arg))
                == Ok::<(PState, ArgV), AlgoErrorKind>((pstate(*final(ctx), *final(renv), *final(iter_ctx)), arg_view(a))),
            Err(err) => prn_arg(penv(*old(ctx), binds@), pstate(*old(ctx), *old(renv), *old(iter_ctx)), arg_view(*arg))
                == Err::<(PState, ArgV), AlgoErrorKind>(err.kind),
        },
        r is Ok ==> final(iter_ctx)@.len() == old(iter_ctx)@.len(),
        r matches Ok(a) ==> a.span == arg.span && (arg.node matches ArgKind::Exp(x) ==> a.node matches ArgKind::Exp(y) && y.span == x.span),
{
    match &arg.node {
        ArgKind::Exp(e) => {
            let mut renv_post = RenameEnv::new();
            match rename_exp(ctx, binds, &mut renv_post, iter_ctx, e) {
                Err(err) => Err(err),
                Ok(e2) => {
                    let ghost post = renv_post@;
                    let ghost r0 = renv@;
                    renv.renames.append(&mut renv_post.renames);
                    proof {
                        assert(renv@ =~= r0 + post);
                    }
                    Ok(Arg { node: ArgKind::Exp(Box::new(e2)), span: arg.span })
                },
            }
        },
        ArgKind::Def(_) => Ok(clone_arg(arg)),
    }
}

proof fn lemma_prn_args_err(env: PEnv, st: PState, args: Seq<ArgV>, n: int, k: AlgoErrorKind)
    requires
        0 <= n <= args.len(),
        prn_args(env, st, args.take(n)) == Err::<(PState, Seq<ArgV>), AlgoErrorKind>(k),
    ensures
        prn_args(env, st, args) == Err::<(PState, Seq<ArgV>), AlgoErrorKind>(k),
    decreases args.len() - n,
{
    if n < args.len() {
        assert(args.take(n + 1).drop_last() =~= args.take(n));
        lemma_prn_args_err(env, st, args, n + 1, k);
    } else {
        assert(args.take(n) =~= args);
    }
}

/// Rewrites the expression arguments of a relation left to right.
pub fn rename_args(ctx: &mut Context, binds: &IdSet, renv: &mut RenameEnv, iter_ctx: &mut ICtx, args: &Vec<Arg>) -> (r: Result<Vec<Arg>, AlgoError>)
    requires
        old(ctx).wf(),
    ensures
        ctx_kept(*old(ctx), *final(ctx)),
        match r {
            Ok(v) => prn_args(penv(*old(ctx), binds@), pstate(*old(ctx), *old(renv), *old(iter_ctx)), args_view(args@))
                == Ok::<(PState, Seq<ArgV>), AlgoErrorKind>((pstate(*final(ctx), *final(renv), *final(iter_ctx)), args_view(v@))),
            Err(err) => prn_args(penv(*old(ctx), binds@), pstate(*old(ctx), *old(renv), *old(iter_ctx)), args_view(args@))
                == Err::<(PState, Seq<ArgV>), AlgoErrorKind>(err.kind),
        },
        r matches Ok(v) ==> v@.len() == args@.len() && forall|j: int| 0 <= j < v@.len() ==> (#[trigger] v@[j]).span == args@[j].span,
{
    let ghost env = penv(*ctx, binds@);
    let ghost st0 = pstate(*ctx, *renv, *iter_ctx);
    let ghost xs = args_view(args@);
    let mut out: Vec<Arg> = Vec::new();
    proof {
        crate::il_exp::lemma_args_view(args@);
        assert(xs.take(0) =~= Seq::<ArgV>::empty());
        assert(args_view(out@) =~= Seq::<ArgV>::empty());
    }
    let mut i: usize = 0;
    while i < args.len()
        invariant
            i <= args@.len(),
            old(ctx).wf(),
            ctx_kept(*old(ctx), *ctx),
            env == penv(*old(ctx), binds@),
            st0 == pstate(*old(ctx), *old(renv), *old(iter_ctx)),
            xs == args_view(args@),
            xs.len() == args@.len(),
            forall|j: int| 0 <= j < args@.len() ==> #[trigger] xs[j] == arg_view(args@[j]),
            prn_args(env, st0, xs.take(i as int)) == Ok::<(PState, Seq<ArgV>), AlgoErrorKind>((pstate(*ctx, *renv, *iter_ctx), args_view(out@))),
            out@.len() == i,
            forall|j: int| 0 <= j < i ==> (#[trigger] out@[j]).span == args@[j].span,
        decreases args@.len() - i,
    {
        proof {
            assert(xs.take(i + 1).drop_last() =~= xs.take(i as int));
            assert(xs.take(i + 1).last() == arg_view(args@[i as int]));
        }
        let ghost out0 = out@;
        match rename_arg(ctx, binds, renv, iter_ctx, &args[i]) {
            Err(e) => {
                proof {
                    lemma_prn_args_err(env, st0, xs, i + 1, e.kind);
                }
                return Err(e);
            },
            Ok(a2) => {
                proof {
                    assert(out0.push(a2).drop_last() =~= out0);
                }
                out.push(a2);
            },
        }
        i = i + 1;
    }
    proof {
        assert(xs.take(args@.len() as int) =~= xs);
    }
    Ok(out)
}

// == Premise generation, stated over views

/// The iterations of `c` ranging over and binding nothing.
pub open spec fn skeleton(c: Seq<IterationV>) -> Seq<IterationV> {
    Seq::new(c.len(), |l: int| IterationV { iter: c[l].iter, vars_bound: Seq::empty(), vars_bind: Seq::empty() })
}

/// The iterations of `c` also binding the entries `es`, one level deeper at
/// each enclosing level.
pub open spec fn ictx_bind(c: Seq<IterationV>, es: Seq<(Seq<char>, DimV)>) -> Seq<IterationV> {
    Seq::new(c.len(), |l: int| with_bind(c[l], env_vars(es, levels_iters(c, l))))
}

/// The iterations of `c` ranging only over the variables whose dimension in
/// `m` is no deeper than theirs.
pub open spec fn ictx_dims(c: Seq<IterationV>, m: Map<Seq<char>, DimV>) -> Seq<IterationV> {
    Seq::new(c.len(), |l: int| with_bound_only(c[l], keep_vars(c[l].vars_bound, dims_keep(m))))
}

/// A boolean expression.
pub open spec fn bool_exp(k: ExpKindV) -> ExpV {
    ExpV { node: k, note: TypV::Bool }
}

/// The condition that a fresh variable `dest` holds the value `ef`: a match
/// against a nullary case (of a variant with more than one case), an option
/// or the empty list, else an equality.
pub open spec fn bound_cond(defs: Map<Seq<char>, TypeDefV>, fuel: nat, dest: VarV, ef: ExpV) -> Result<ExpV, AlgoErrorKind> {
    let el = Box::new(var_exp(dest));
    let eq = Ok(bool_exp(ExpKindV::Cmp(CmpOp::Eq, OpTyp::Bool, el, Box::new(ef))));
    match ef.node {
        ExpKindV::Case(m, args) => if args.len() == 0 {
            match singleton_case(defs, ef.note, fuel) {
                Err(k) => Err(k),
                Ok(single) => if single { eq } else { Ok(bool_exp(ExpKindV::Match(el, PatternV::Case(m)))) },
            }
        } else {
            eq
        },
        ExpKindV::Opt(o) => match o {
            Some(_) => Ok(bool_exp(ExpKindV::Match(el, PatternV::Opt(OptPattern::IsSome)))),
            None => Ok(bool_exp(ExpKindV::Match(el, PatternV::Opt(OptPattern::IsNone)))),
        },
        ExpKindV::List(es) => if es.len() == 0 { Ok(bool_exp(ExpKindV::Match(el, PatternV::List(ListPattern::Nil)))) } else { eq },
        _ => eq,
    }
}

/// The premises of one rename under the iterations `outer` of the premise:
/// a condition on a bound value; or a guard then a binding.
pub open spec fn rename_prems(defs: Map<Seq<char>, TypeDefV>, fuel: nat, r: Rename, outer: Seq<IterationV>) -> Result<Seq<PremShape>, AlgoErrorKind> {
    let c = r.iter_ctx@ + outer;
    let dest = r.destination@;
    let to = var_exp(dest);
    match r.source {
        Source::Bound { exp_from } => match bound_cond(defs, fuel, dest, exp_view(exp_from)) {
            Err(k) => Err(k),
            Ok(cond) => {
                let c1 = ictx_with(ictx_dims(c, inf(Map::empty(), exp_from, Seq::empty())), dest);
                Ok(seq![iterate_shape(PremShape::If(cond), c1, c1.len() as int)])
            },
        },
        Source::BindMatch { pattern, exp_from } => Ok(seq![
            iterate_shape(
                PremShape::If(bool_exp(ExpKindV::Match(Box::new(to), pattern_view(pattern)))),
                ictx_with(skeleton(c), dest),
                c.len() as int,
            ),
            iterate_shape(
                PremShape::Let(exp_view(exp_from), to),
                ictx_with(ictx_bind(skeleton(c), inf_entries(exp_from)), dest),
                c.len() as int,
            ),
        ]),
        Source::BindSub { typ_sub, exp_sub, exp_from } => Ok(seq![
            iterate_shape(
                PremShape::If(bool_exp(ExpKindV::Sub(Box::new(to), typ_view(typ_sub)))),
                ictx_with(skeleton(c), dest),
                c.len() as int,
            ),
            iterate_shape(
                PremShape::Let(exp_view(exp_sub), ExpV { node: ExpKindV::DownCast(typ_view(typ_sub), Box::new(to)), note: typ_view(typ_sub) }),
                ictx_with(ictx_bind(skeleton(c), inf_entries(exp_from)), dest),
                c.len() as int,
            ),
        ]),
    }
}

/// The premises of a list of renames, in order.
pub open spec fn renames_prems(defs: Map<Seq<char>, TypeDefV>, fuel: nat, rs: Seq<Rename>, outer: Seq<IterationV>) -> Result<Seq<PremShape>, AlgoErrorKind>
    decreases rs.len(),
{
    if rs.len() == 0 {
        Ok(Seq::empty())
    } else {
        match renames_prems(defs, fuel, rs.drop_last(), outer) {
            Err(k) => Err(k),
            Ok(prev) => match rename_prems(defs, fuel, rs.last(), outer) {
                Err(k) => Err(k),
                Ok(cur) => Ok(prev + cur),
            },
        }
    }
}

// == Premise generation

fn clone_iteration(it: &Iteration) -> (r: Iteration)
    ensures
        r@ == it@,
{
    Iteration { iter: it.iter, vars_bound: clone_vars(&it.vars_bound), vars_bind: clone_vars(&it.vars_bind) }
}

/// The iterations of `a` inside those of `b`.
fn concat_ctx(a: &ICtx, b: &ICtx) -> (c: ICtx)
    ensures
        c@ == a@ + b@,
{
    let mut its: Vec<Iteration> = Vec::new();
    for i in 0..a.iterations.len()
        invariant
            its@.len() == i,
            forall|j: int| 0 <= j < i ==> (#[trigger] its@[j])@ == a@[j],
    {
        its.push(clone_iteration(&a.iterations[i]));
    }
    for i in 0..b.iterations.len()
        invariant
            its@.len() == a@.len() + i,
            forall|j: int| 0 <= j < its@.len() ==> (#[trigger] its@[j])@ == (a@ + b@)[j],
    {
        its.push(clone_iteration(&b.iterations[i]));
    }
    let c = ICtx::from_iterations(its);
    assert(c@ =~= a@ + b@);
    c
}

/// The iterations of `c`, ranging over and binding nothing.
fn skeleton_ctx(c: &ICtx) -> (r: ICtx)
    ensures
        r@ == skeleton(c@),
{
    let mut its: Vec<Iteration> = Vec::new();
    for i in 0..c.iterations.len()
        invariant
            its@.len() == i,
            forall|j: int| 0 <= j < i ==> (#[trigger] its@[j])@ == skeleton(c@)[j],
    {
        let it = Iteration { iter: c.iterations[i].iter, vars_bound: Vec::new(), vars_bind: Vec::new() };
        proof {
            assert(it@.vars_bound =~= Seq::<VarV>::empty());
            assert(it@.vars_bind =~= Seq::<VarV>::empty());
        }
        its.push(it);
    }
    let r = ICtx::from_iterations(its);
    assert(r@ =~= skeleton(c@));
    r
}

/// Adds `dest` as ranged over at every level.
fn add_destination(c: &mut ICtx, dest: &Var)
    ensures
        final(c)@ == ictx_with(old(c)@, dest@),
{
    c.add_var_bound(clone_id(&dest.id), clone_typ(&dest.typ), dest.iters.clone());
    assert(c@ =~= ictx_with(old(c)@, dest@));
}

fn gen_prem_bound(ctx: &Context, destination: &Var, exp_from: &Exp, iter_ctx: &ICtx) -> (r: Result<Prem, AlgoError>)
    requires
        ctx.wf(),
    ensures
        match r {
            Ok(p) => {
                &&& bound_cond(ctx.tdenv@, ctx.tdenv.entries@.len(), destination@, exp_view(*exp_from)) is Ok
                &&& {
                    let c1 = ictx_with(ictx_dims(iter_ctx@, inf(Map::empty(), *exp_from, Seq::empty())), destination@);
                    p@ == iterate_shape(
                        PremShape::If(bound_cond(ctx.tdenv@, ctx.tdenv.entries@.len(), destination@, exp_view(*exp_from))->Ok_0),
                        c1,
                        c1.len() as int,
                    )
                }
            },
            Err(e) => bound_cond(ctx.tdenv@, ctx.tdenv.entries@.len(), destination@, exp_view(*exp_from))
                == Err::<ExpV, AlgoErrorKind>(e.kind),
        },
{
    let exp_l = as_exp(destination);
    let ghost el = var_exp(destination@);
    let span = exp_from.span;
    let kind = match &exp_from.node {
        ExpKind::Case(n) => {
            proof {
                crate::il_exp::lemma_exps_view(n.args@);
            }
            if n.args.len() == 0 {
                let typ = Typ { node: clone_typ_kind(&exp_from.note), span };
                match is_singleton_case(ctx, &typ) {
                    Err(e) => return Err(e),
                    Ok(single) => if single {
                        ExpKind::Cmp(CmpOp::Eq, OpTyp::Bool, Box::new(exp_l), Box::new(clone_exp(exp_from)))
                    } else {
                        ExpKind::Match(Box::new(exp_l), Pattern::Case(clone_mixop(&n.mixop)))
                    },
                }
            } else {
                ExpKind::Cmp(CmpOp::Eq, OpTyp::Bool, Box::new(exp_l), Box::new(clone_exp(exp_from)))
            }
        },
        ExpKind::Opt(o) => match o {
            Some(_) => ExpKind::Match(Box::new(exp_l), Pattern::Opt(OptPattern::IsSome)),
            None => ExpKind::Match(Box::new(exp_l), Pattern::Opt(OptPattern::IsNone)),
        },
        ExpKind::List(es) => {
            proof {
                crate::il_exp::lemma_exps_view(es@);
            }
            if es.len() == 0 {
                ExpKind::Match(Box::new(exp_l), Pattern::List(ListPattern::Nil))
            } else {
                ExpKind::Cmp(CmpOp::Eq, OpTyp::Bool, Box::new(exp_l), Box::new(clone_exp(exp_from)))
            }
        },
        _ => ExpKind::Cmp(CmpOp::Eq, OpTyp::Bool, Box::new(exp_l), Box::new(clone_exp(exp_from))),
    };
    let exp_cond = Exp { node: kind, note: TypKind::Bool, span };
    proof {
        assert(typ_kind_view(TypKind::Bool) == TypV::Bool);
        assert(exp_view(exp_cond) == bound_cond(ctx.tdenv@, ctx.tdenv.entries@.len(), destination@, exp_view(*exp_from))->Ok_0);
    }
    let side_condition = Prem { node: PremKind::If(IfPrem { exp: exp_cond }), span };
    let mut c = iter_ctx.clone_ctx();
    let venv = crate::algo::dimension::infer_exp(exp_from);
    c.filter_bound_by_dims(&venv);
    proof {
        assert(c@ =~= ictx_dims(iter_ctx@, inf(Map::empty(), *exp_from, Seq::empty())));
    }
    add_destination(&mut c, destination);
    Ok(c.iterate_prem(side_condition))
}

/// The iterations for binding the variables of `exp_from` through `dest`.
fn bind_ctx(iter_ctx: &ICtx, exp_from: &Exp, destination: &Var) -> (c: ICtx)
    ensures
        c@ == ictx_with(ictx_bind(skeleton(iter_ctx@), inf_entries(*exp_from)), destination@),
{
    let mut c = skeleton_ctx(iter_ctx);
    let ghost c0 = c@;
    let venv = crate::algo::dimension::infer_exp(exp_from);
    c.add_vars_bind(&venv);
    proof {
        assert(c@ =~= ictx_bind(c0, inf_entries(*exp_from)));
    }
    add_destination(&mut c, destination);
    c
}

fn gen_prem_bind_match(destination: &Var, pattern: &Pattern, exp_from: &Exp, iter_ctx: &ICtx) -> (r: Vec<Prem>)
    ensures
        prems_view(r@) == seq![
            iterate_shape(
                PremShape::If(bool_exp(ExpKindV::Match(Box::new(var_exp(destination@)), pattern_view(*pattern)))),
                ictx_with(skeleton(iter_ctx@), destination@),
                iter_ctx@.len() as int,
            ),
            iterate_shape(
                PremShape::Let(exp_view(*exp_from), var_exp(destination@)),
                ictx_with(ictx_bind(skeleton(iter_ctx@), inf_entries(*exp_from)), destination@),
                iter_ctx@.len() as int,
            ),
        ],
{
    let span = exp_from.span;
    let exp_to = as_exp(destination);
    let exp_guard = Exp {
        node: ExpKind::Match(Box::new(clone_exp(&exp_to)), clone_pattern(pattern)),
        note: TypKind::Bool,
        span,
    };
    proof {
        assert(typ_kind_view(TypKind::Bool) == TypV::Bool);
    }
    let side_condition = Prem { node: PremKind::If(IfPrem { exp: exp_guard }), span };
    let mut c_match = skeleton_ctx(iter_ctx);
    add_destination(&mut c_match, destination);
    let prem_bind = Prem { node: PremKind::Let(LetPrem { exp_l: clone_exp(exp_from), exp_r: exp_to }), span };
    let c_bind = bind_ctx(iter_ctx, exp_from, destination);
    let prem_match = c_match.iterate_prem(side_condition);
    let prem_bind = c_bind.iterate_prem(prem_bind);
    let mut r: Vec<Prem> = Vec::new();
    r.push(prem_match);
    r.push(prem_bind);
    proof {
        assert(prems_view(r@) =~= seq![prem_match@, prem_bind@]);
    }
    r
}

fn gen_prem_bind_sub(destination: &Var, typ_sub: &Typ, exp_sub: &Exp, exp_from: &Exp, iter_ctx: &ICtx) -> (r: Vec<Prem>)
    ensures
        prems_view(r@) == seq![
            iterate_shape(
                PremShape::If(bool_exp(ExpKindV::Sub(Box::new(var_exp(destination@)), typ_view(*typ_sub)))),
                ictx_with(skeleton(iter_ctx@), destination@),
                iter_ctx@.len() as int,
            ),
            iterate_shape(
                PremShape::Let(
                    exp_view(*exp_sub),
                    ExpV { node: ExpKindV::DownCast(typ_view(*typ_sub), Box::new(var_exp(destination@))), note: typ_view(*typ_sub) },
                ),
                ictx_with(ictx_bind(skeleton(iter_ctx@), inf_entries(*exp_from)), destination@),
                iter_ctx@.len() as int,
            ),
        ],
{
    let span = exp_from.span;
    let exp_to = as_exp(destination);
    let exp_guard = Exp { node: ExpKind::Sub(Box::new(clone_exp(&exp_to)), clone_typ(typ_sub)), note: TypKind::Bool, span };
    proof {
        assert(typ_kind_view(TypKind::Bool) == TypV::Bool);
        assert(typ_kind_view(typ_sub.node) == typ_view(*typ_sub));
    }
    let side_condition = Prem { node: PremKind::If(IfPrem { exp: exp_guard }), span };
    let mut c_sub = skeleton_ctx(iter_ctx);
    add_destination(&mut c_sub, destination);
    let exp_downcast = Exp { node: ExpKind::DownCast(clone_typ(typ_sub), Box::new(exp_to)), note: clone_typ_kind(&typ_sub.node), span };
    let prem_bind = Prem { node: PremKind::Let(LetPrem { exp_l: clone_exp(exp_sub), exp_r: exp_downcast }), span };
    let c_bind = bind_ctx(iter_ctx, exp_from, destination);
    let prem_sub = c_sub.iterate_prem(side_condition);
    let prem_bind = c_bind.iterate_prem(prem_bind);
    let mut r: Vec<Prem> = Vec::new();
    r.push(prem_sub);
    r.push(prem_bind);
    proof {
        assert(prems_view(r@) =~= seq![prem_sub@, prem_bind@]);
    }
    r
}

fn gen_prem(ctx: &Context, rename: &Rename, iter_ctx_prem: &ICtx) -> (r: Result<Vec<Prem>, AlgoError>)
    requires
        ctx.wf(),
    ensures
        match r {
            Ok(v) => rename_prems(ctx.tdenv@, ctx.tdenv.entries@.len(), *rename, iter_ctx_prem@) == Ok::<Seq<PremShape>, AlgoErrorKind>(prems_view(v@)),
            Err(e) => rename_prems(ctx.tdenv@, ctx.tdenv.entries@.len(), *rename, iter_ctx_prem@) == Err::<Seq<PremShape>, AlgoErrorKind>(e.kind),
        },
{
    let iter_ctx = concat_ctx(&rename.iter_ctx, iter_ctx_prem);
    match &rename.source {
        Source::Bound { exp_from } => match gen_prem_bound(ctx, &rename.destination, exp_from, &iter_ctx) {
            Err(e) => Err(e),
            Ok(p) => {
                let mut v: Vec<Prem> = Vec::new();
                v.push(p);
                proof {
                    assert(prems_view(v@) =~= seq![p@]);
                }
                Ok(v)
            },
        },
        Source::BindMatch { pattern, exp_from } => Ok(gen_prem_bind_match(&rename.destination, pattern, exp_from, &iter_ctx)),
        Source::BindSub { typ_sub, exp_sub, exp_from } => Ok(gen_prem_bind_sub(&rename.destination, typ_sub, exp_sub, exp_from, &iter_ctx)),
    }
}

proof fn lemma_renames_prems_err(defs: Map<Seq<char>, TypeDefV>, fuel: nat, rs: Seq<Rename>, outer: Seq<IterationV>, n: int, k: AlgoErrorKind)
    requires
        0 <= n <= rs.len(),
        renames_prems(defs, fuel, rs.take(n), outer) == Err::<Seq<PremShape>, AlgoErrorKind>(k),
    ensures
        renames_prems(defs, fuel, rs, outer) == Err::<Seq<PremShape>, AlgoErrorKind>(k),
    decreases rs.len() - n,
{
    if n < rs.len() {
        assert(rs.take(n + 1).drop_last() =~= rs.take(n));
        lemma_renames_prems_err(defs, fuel, rs, outer, n + 1, k);
    } else {
        assert(rs.take(n) =~= rs);
    }
}

/// The premises of every rename, in order, under the premise's iterations.
pub fn gen_prems(ctx: &Context, iter_ctx_prem: &ICtx, renv: &RenameEnv) -> (r: Result<Vec<Prem>, AlgoError>)
    requires
        ctx.wf(),
    ensures
        match r {
            Ok(v) => renames_prems(ctx.tdenv@, ctx.tdenv.entries@.len(), renv.renames@, iter_ctx_prem@) == Ok::<Seq<PremShape>, AlgoErrorKind>(prems_view(v@)),
            Err(e) => renames_prems(ctx.tdenv@, ctx.tdenv.entries@.len(), renv.renames@, iter_ctx_prem@) == Err::<Seq<PremShape>, AlgoErrorKind>(e.kind),
        },
{
    let ghost defs = ctx.tdenv@;
    let ghost fuel = ctx.tdenv.entries@.len();
    let ghost rs = renv.renames@;
    let ghost outer = iter_ctx_prem@;
    let mut prems: Vec<Prem> = Vec::new();
    proof {
        assert(rs.take(0) =~= Seq::<Rename>::empty());
        assert(prems_view(prems@) =~= Seq::<PremShape>::empty());
    }
    let mut i: usize = 0;
    while i < renv.renames.len()
        invariant
            ctx.wf(),
            i <= rs.len(),
            defs == ctx.tdenv@,
            fuel == ctx.tdenv.entries@.len(),
            rs == renv.renames@,
            outer == iter_ctx_prem@,
            renames_prems(defs, fuel, rs.take(i as int), outer) == Ok::<Seq<PremShape>, AlgoErrorKind>(prems_view(prems@)),
        decreases rs.len() - i,
    {
        proof {
            assert(rs.take(i + 1).drop_last() =~= rs.take(i as int));
            assert(rs.take(i + 1).last() == rs[i as int]);
        }
        match gen_prem(ctx, &renv.renames[i], iter_ctx_prem) {
            Err(e) => {
                proof {
                    lemma_renames_prems_err(defs, fuel, rs, outer, i + 1, e.kind);
                }
                return Err(e);
            },
            Ok(mut v) => {
                let ghost p0 = prems_view(prems@);
                let ghost pv = prems_view(v@);
                prems.append(&mut v);
                proof {
                    assert(prems_view(prems@) =~= p0 + pv);
                }
            },
        }
        i = i + 1;
    }
    proof {
        assert(rs.take(rs.len() as int) =~= rs);
    }
    Ok(prems)
}

// == Laws

/// A binder pattern as rewriting leaves it: a variable, or a tuple, a case
/// of a single-case variant, a record or an iteration of binder patterns.
pub open spec fn simple_binder(env: PEnv, e: ExpV) -> bool
    decreases e,
{
    match e.node {
        ExpKindV::Var(_) => true,
        ExpKindV::Tuple(es) => simple_binders(env, es),
        ExpKindV::Case(_, es) => singleton_case(env.defs, e.note, env.fuel) == Ok::<bool, AlgoErrorKind>(true)
            && simple_binders(env, es),
        ExpKindV::Str(_, es) => simple_binders(env, es),
        ExpKindV::Iter(x, _, _) => simple_binder(env, *x),
        _ => false,
    }
}

pub open spec fn simple_binders(env: PEnv, es: Seq<ExpV>) -> bool
    decreases es,
{
    forall|i: int| 0 <= i < es.len() ==> simple_binder(env, #[trigger] es[i])
}

/// The binders of `binds` occur in `e` only where a pattern takes a value
/// apart: in variables, upcasts, tuples, cases, records, options, lists,
/// cons cells and iterations.
pub open spec fn invertible(binds: Set<Seq<char>>, e: ExpV) -> bool
    decreases e,
{
    has_binding(binds, e) ==> match e.node {
        ExpKindV::Var(_) => true,
        ExpKindV::UpCast(_, x) => invertible(binds, *x),
        ExpKindV::Tuple(es) => invertibles(binds, es),
        ExpKindV::Case(_, es) => invertibles(binds, es),
        ExpKindV::Str(_, es) => invertibles(binds, es),
        ExpKindV::Opt(o) => match o {
            Some(x) => invertible(binds, *x),
            None => true,
        },
        ExpKindV::List(es) => invertibles(binds, es),
        ExpKindV::Cons(h, t) => invertible(binds, *h) && invertible(binds, *t),
        ExpKindV::Iter(x, _, _) => invertible(binds, *x),
        _ => false,
    }
}

pub open spec fn invertibles(binds: Set<Seq<char>>, es: Seq<ExpV>) -> bool
    decreases es,
{
    forall|i: int| 0 <= i < es.len() ==> invertible(binds, #[trigger] es[i])
}

proof fn lemma_var_exp_simple(env: PEnv, v: VarV, k: int)
    ensures
        simple_binder(env, var_exp_at(v, k)),
    decreases k,
{
    if k > 0 {
        lemma_var_exp_simple(env, v, k - 1);
    }
}

/// Rewriting a pattern whose binders occur only in invertible positions
/// leaves a binder pattern: a variable, or a tuple, a single-case variant
/// case, a record or an iteration of binder patterns.
pub proof fn lemma_prn_simple(env: PEnv, st: PState, e: ExpV)
    requires
        invertible(env.binds, e),
        prn(env, st, e) is Ok,
    ensures
        simple_binder(env, prn(env, st, e)->Ok_0.1),
    decreases e,
{
    if !has_binding(env.binds, e) && !upcast_terminal(e) {
        lemma_var_exp_simple(env, fresh_var(env.menv, st.frees, e.note), fresh_var(env.menv, st.frees, e.note).iters.len() as int);
    } else {
        match e.node {
            ExpKindV::UpCast(t, x) => {
                let (st1, x1) = prn(env, st, *x)->Ok_0;
                let from = ExpV { node: ExpKindV::UpCast(t, Box::new(x1)), note: e.note };
                let d = fresh_var(env.menv, st1.frees, from.note);
                lemma_var_exp_simple(env, d, d.iters.len() as int);
            },
            ExpKindV::Tuple(es) => lemma_prn_exps_simple(env, st, es),
            ExpKindV::Case(m, args) => {
                lemma_prn_exps_simple(env, st, args);
                let (st1, args1) = prn_exps(env, st, args)->Ok_0;
                let from = ExpV { node: ExpKindV::Case(m, args1), note: e.note };
                let d = fresh_var(env.menv, st1.frees, from.note);
                lemma_var_exp_simple(env, d, d.iters.len() as int);
            },
            ExpKindV::Str(_, es) => lemma_prn_exps_simple(env, st, es),
            ExpKindV::Opt(o) => match o {
                Some(x) => {
                    let (st1, x1) = prn(env, st, *x)->Ok_0;
                    let from = ExpV { node: ExpKindV::Opt(Some(Box::new(x1))), note: e.note };
                    let d = fresh_var(env.menv, st1.frees, from.note);
                    lemma_var_exp_simple(env, d, d.iters.len() as int);
                },
                None => {
                    let d = fresh_var(env.menv, st.frees, e.note);
                    lemma_var_exp_simple(env, d, d.iters.len() as int);
                },
            },
            ExpKindV::List(es) => {
                let (st1, es1) = prn_exps(env, st, es)->Ok_0;
                let from = ExpV { node: ExpKindV::List(es1), note: e.note };
                let d = fresh_var(env.menv, st1.frees, from.note);
                lemma_var_exp_simple(env, d, d.iters.len() as int);
            },
            ExpKindV::Cons(h, t) => {
                let (st1, h1) = prn(env, st, *h)->Ok_0;
                let (st2, t1) = prn(env, st1, *t)->Ok_0;
                let from = ExpV { node: ExpKindV::Cons(Box::new(h1), Box::new(t1)), note: e.note };
                let d = fresh_var(env.menv, st2.frees, from.note);
                lemma_var_exp_simple(env, d, d.iters.len() as int);
            },
            ExpKindV::Iter(x, it, vars) => {
                let level = IterationV { iter: it, vars_bound: vars, vars_bind: Seq::empty() };
                lemma_prn_simple(env, PState { ictx: seq![level] + st.ictx, ..st }, *x);
            },
            _ => {},
        }
    }
}

/// Rewriting a list of such patterns leaves a list of binder patterns.
pub proof fn lemma_prn_exps_simple(env: PEnv, st: PState, es: Seq<ExpV>)
    requires
        invertibles(env.binds, es),
        prn_exps(env, st, es) is Ok,
    ensures
        simple_binders(env, prn_exps(env, st, es)->Ok_0.1),
    decreases es,
{
    if es.len() > 0 {
        let init = es.drop_last();
        assert(invertibles(env.binds, init)) by {
            assert forall|i: int| 0 <= i < init.len() implies invertible(env.binds, #[trigger] init[i]) by {
                assert(init[i] == es[i]);
            }
        }
        lemma_prn_exps_simple(env, st, init);
        let (st1, rs) = prn_exps(env, st, init)->Ok_0;
        assert(invertible(env.binds, es[es.len() - 1]));
        lemma_prn_simple(env, PState { renames: Seq::empty(), ..st1 }, es.last());
        let out = prn_exps(env, st, es)->Ok_0.1;
        assert forall|i: int| 0 <= i < out.len() implies simple_binder(env, #[trigger] out[i]) by {
            if i < rs.len() {
                assert(out[i] == rs[i]);
            }
        }
    }
}

} // verus!
