//! Type equivalence: two types are equivalent when they agree once every
//! plain alias in them is unfolded.

use vstd::prelude::*;
use crate::il::{Typ, TypKind, TypV, typ_view, typs_view};
use crate::il_typ::{clone_id, clone_typ, subst, subst_typ, ids_view, lemma_typs_view, lemma_typs_view_push};
use crate::il_def::{DefTypKind, DefTypV, TypeDef, TypeDefV};
use crate::algo::error::{AlgoError, AlgoErrorKind};
use crate::algo::context::Context;

verus! {

/// `t` with its plain aliases unfolded, following at most `fuel` aliases
/// along any path; a longer chain is a cycle.
pub open spec fn canon(defs: Map<Seq<char>, TypeDefV>, t: TypV, fuel: nat) -> Result<TypV, AlgoErrorKind>
    decreases fuel, t,
{
    match t {
        TypV::Var(id, args) => if !defs.contains_key(id) {
            Err(AlgoErrorKind::UndefinedType)
        } else {
            match defs[id] {
                TypeDefV::Defined(ps, DefTypV::Plain(inner)) => if ps.len() != args.len() {
                    Err(AlgoErrorKind::TypeArgumentArityMismatch { expected: ps.len() as usize, actual: args.len() as usize })
                } else if fuel == 0 {
                    Err(AlgoErrorKind::Type)
                } else {
                    canon(defs, subst(ps, args, inner), (fuel - 1) as nat)
                },
                _ => match canons(defs, args, fuel) {
                    Err(k) => Err(k),
                    Ok(args1) => Ok(TypV::Var(id, args1)),
                },
            }
        },
        TypV::Tuple(ts) => match canons(defs, ts, fuel) {
            Err(k) => Err(k),
            Ok(ts1) => Ok(TypV::Tuple(ts1)),
        },
        TypV::Iter(b, it) => match canon(defs, *b, fuel) {
            Err(k) => Err(k),
            Ok(b1) => Ok(TypV::Iter(Box::new(b1), it)),
        },
        _ => Ok(t),
    }
}

pub open spec fn canons(defs: Map<Seq<char>, TypeDefV>, ts: Seq<TypV>, fuel: nat) -> Result<Seq<TypV>, AlgoErrorKind>
    decreases fuel, ts,
{
    if ts.len() == 0 {
        Ok(ts)
    } else {
        match canons(defs, ts.drop_last(), fuel) {
            Err(k) => Err(k),
            Ok(r) => match canon(defs, ts.last(), fuel) {
                Err(k) => Err(k),
                Ok(x) => Ok(r.push(x)),
            },
        }
    }
}

/// A failure of a type operation.
pub open spec fn type_failure(k: AlgoErrorKind) -> bool {
    k is UndefinedType || k is TypeArgumentArityMismatch || k is Type
}

/// Unfolding aliases fails only as a type operation does.
pub proof fn lemma_canon_failure(defs: Map<Seq<char>, TypeDefV>, t: TypV, fuel: nat)
    ensures
        canon(defs, t, fuel) matches Err(k) ==> type_failure(k),
    decreases fuel, t,
{
    match t {
        TypV::Var(id, args) => if defs.contains_key(id) {
            match defs[id] {
                TypeDefV::Defined(ps, DefTypV::Plain(inner)) => if ps.len() == args.len() && fuel > 0 {
                    lemma_canon_failure(defs, subst(ps, args, inner), (fuel - 1) as nat);
                },
                _ => lemma_canons_failure(defs, args, fuel),
            }
        },
        TypV::Tuple(ts) => lemma_canons_failure(defs, ts, fuel),
        TypV::Iter(b, it) => lemma_canon_failure(defs, *b, fuel),
        _ => {},
    }
}

/// Unfolding aliases in a list fails only as a type operation does.
pub proof fn lemma_canons_failure(defs: Map<Seq<char>, TypeDefV>, ts: Seq<TypV>, fuel: nat)
    ensures
        canons(defs, ts, fuel) matches Err(k) ==> type_failure(k),
    decreases fuel, ts,
{
    if ts.len() > 0 {
        lemma_canons_failure(defs, ts.drop_last(), fuel);
        lemma_canon_failure(defs, ts.last(), fuel);
    }
}

/// Whether two types are equivalent.
pub open spec fn equiv(defs: Map<Seq<char>, TypeDefV>, fuel: nat, a: TypV, b: TypV) -> Result<bool, AlgoErrorKind> {
    match canon(defs, a, fuel) {
        Err(k) => Err(k),
        Ok(x) => match canon(defs, b, fuel) {
            Err(k) => Err(k),
            Ok(y) => Ok(x == y),
        },
    }
}

fn canon_typ(ctx: &Context, t: &Typ, fuel: usize) -> (r: Result<Typ, AlgoError>)
    requires
        ctx.wf(),
    ensures
        match r {
            Ok(x) => canon(ctx.tdenv@, typ_view(*t), fuel as nat) == Ok::<TypV, AlgoErrorKind>(typ_view(x)),
            Err(e) => canon(ctx.tdenv@, typ_view(*t), fuel as nat) == Err::<TypV, AlgoErrorKind>(e.kind),
        },
    decreases fuel, t,
{
    match &t.node {
        TypKind::Var(id, args) => {
            let d = match ctx.find_typdef(id) {
                Ok(d) => d,
                Err(e) => return Err(e),
            };
            proof {
                lemma_typs_view(args@);
            }
            match d {
                TypeDef::Defined(ps, def_typ) => match &def_typ.node {
                    DefTypKind::Plain(inner) => {
                        if ps.len() != args.len() {
                            return Err(AlgoError::new(
                                AlgoErrorKind::TypeArgumentArityMismatch { expected: ps.len(), actual: args.len() },
                                t.span,
                            ));
                        }
                        if fuel == 0 {
                            return Err(AlgoError::new(AlgoErrorKind::Type, t.span));
                        }
                        let inner2 = subst_typ(ps, args, inner);
                        proof {
                            assert(ids_view(ps@) =~= Seq::new(ps@.len(), |i: int| ps@[i]@));
                        }
                        canon_typ(ctx, &inner2, fuel - 1)
                    },
                    _ => match canon_typs(ctx, args, fuel) {
                        Err(e) => Err(e),
                        Ok(args2) => Ok(Typ { node: TypKind::Var(clone_id(id), args2), span: t.span }),
                    },
                },
                TypeDef::Extern | TypeDef::Parameter => match canon_typs(ctx, args, fuel) {
                    Err(e) => Err(e),
                    Ok(args2) => Ok(Typ { node: TypKind::Var(clone_id(id), args2), span: t.span }),
                },
            }
        },
        TypKind::Tuple(ts) => match canon_typs(ctx, ts, fuel) {
            Err(e) => Err(e),
            Ok(ts2) => Ok(Typ { node: TypKind::Tuple(ts2), span: t.span }),
        },
        TypKind::Iter(b, it) => match canon_typ(ctx, b, fuel) {
            Err(e) => Err(e),
            Ok(b2) => Ok(Typ { node: TypKind::Iter(Box::new(b2), *it), span: t.span }),
        },
        _ => Ok(clone_typ(t)),
    }
}

proof fn lemma_canons_err(defs: Map<Seq<char>, TypeDefV>, ts: Seq<TypV>, fuel: nat, n: int, k: AlgoErrorKind)
    requires
        0 <= n <= ts.len(),
        canons(defs, ts.take(n), fuel) == Err::<Seq<TypV>, AlgoErrorKind>(k),
    ensures
        canons(defs, ts, fuel) == Err::<Seq<TypV>, AlgoErrorKind>(k),
    decreases ts.len() - n,
{
    if n < ts.len() {
        assert(ts.take(n + 1).drop_last() =~= ts.take(n));
        lemma_canons_err(defs, ts, fuel, n + 1, k);
    } else {
        assert(ts.take(n) =~= ts);
    }
}

#[verifier::loop_isolation(false)]
fn canon_typs(ctx: &Context, ts: &Vec<Typ>, fuel: usize) -> (r: Result<Vec<Typ>, AlgoError>)
    requires
        ctx.wf(),
    ensures
        match r {
            Ok(v) => canons(ctx.tdenv@, typs_view(ts@), fuel as nat) == Ok::<Seq<TypV>, AlgoErrorKind>(typs_view(v@)),
            Err(e) => canons(ctx.tdenv@, typs_view(ts@), fuel as nat) == Err::<Seq<TypV>, AlgoErrorKind>(e.kind),
        },
    decreases fuel, ts,
{
    let ghost xs = typs_view(ts@);
    let mut out: Vec<Typ> = Vec::new();
    proof {
        lemma_typs_view(ts@);
        assert(xs.take(0) =~= Seq::<TypV>::empty());
        assert(typs_view(out@) =~= Seq::<TypV>::empty());
    }
    let mut i: usize = 0;
    while i < ts.len()
        invariant
            i <= ts@.len(),
            xs == typs_view(ts@),
            xs.len() == ts@.len(),
            forall|j: int| 0 <= j < ts@.len() ==> #[trigger] xs[j] == typ_view(ts@[j]),
            canons(ctx.tdenv@, xs.take(i as int), fuel as nat) == Ok::<Seq<TypV>, AlgoErrorKind>(typs_view(out@)),
        decreases ts@.len() - i,
    {
        proof {
            assert(decreases_to!(ts => ts@[i as int]));
            assert(xs.take(i + 1).drop_last() =~= xs.take(i as int));
            assert(xs.take(i + 1).last() == typ_view(ts@[i as int]));
        }
        match canon_typ(ctx, &ts[i], fuel) {
            Err(e) => {
                proof {
                    lemma_canons_err(ctx.tdenv@, xs, fuel as nat, i + 1, e.kind);
                }
                return Err(e);
            },
            Ok(x) => {
                proof {
                    lemma_typs_view_push(out@, x);
                }
                out.push(x);
            },
        }
        i = i + 1;
    }
    proof {
        assert(xs.take(ts@.len() as int) =~= xs);
    }
    Ok(out)
}

/// Whether two types are equivalent once their plain aliases are unfolded.
pub fn equiv_typ(ctx: &Context, a: &Typ, b: &Typ) -> (r: Result<bool, AlgoError>)
    requires
        ctx.wf(),
    ensures
        match r {
            Ok(x) => equiv(ctx.tdenv@, ctx.tdenv.entries@.len(), typ_view(*a), typ_view(*b)) == Ok::<bool, AlgoErrorKind>(x),
            Err(e) => equiv(ctx.tdenv@, ctx.tdenv.entries@.len(), typ_view(*a), typ_view(*b)) == Err::<bool, AlgoErrorKind>(e.kind),
        },
        r matches Err(e) ==> type_failure(e.kind),
{
    proof {
        lemma_canon_failure(ctx.tdenv@, typ_view(*a), ctx.tdenv.entries@.len());
        lemma_canon_failure(ctx.tdenv@, typ_view(*b), ctx.tdenv.entries@.len());
    }
    let fuel = ctx.tdenv.entries.len();
    let x = match canon_typ(ctx, a, fuel) {
        Ok(x) => x,
        Err(e) => return Err(e),
    };
    let y = match canon_typ(ctx, b, fuel) {
        Ok(y) => y,
        Err(e) => return Err(e),
    };
    Ok(crate::il_typ::typ_eq(&x, &y))
}

} // verus!
