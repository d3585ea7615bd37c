//! Binding analysis of a function clause and of one path through a rule
//! group: patterns bind, premises follow in order, and what is returned
//! must then be bound; the premises of an otherwise branch must be pure.

use vstd::prelude::*;
use crate::il;
use crate::il::{ArgV, Exp, args_view};
use crate::il_free::{args_free, exp_free, exps_free, free_args, free_exp, free_exps};
use crate::ids::IdSet;
use crate::al;
use crate::al::{Prem, PremShape, prems_view};
use crate::algo::bind::{BEnv, BindingV};
use crate::algo::collect::{coll_args, collection_args};
use crate::algo::context::Context;
use crate::algo::dim::DimV;
use crate::algo::error::{AlgoError, AlgoErrorKind};
use crate::algo::multiple::RenameEnv;
use crate::algo::partial::RenameEnv as PartialRenames;
use crate::algo::analyze::{analyze_args_as_bind, analyze_exp_as_bound, analyze_exps_as_bound, first_bound_err, bind_args_failure, bind_args_result, bound_err, bound_ok};
use crate::algo::defs::with_frees;
use crate::algo::prems::{analyze_prems, prems_outcome, prems_result};
use crate::algo::purity::{check_pure_prems_in_else, impure_spans, is_pure};
use crate::il::Id;

verus! {

/// The names of the variables occurring in an internal premise.
pub open spec fn prem_free(p: il::Prem) -> Set<Seq<char>>
    decreases p,
{
    match p.node {
        il::PremKind::Rule(rp) => exps_free(rp.not_exp.args@),
        il::PremKind::If(ip) => exp_free(ip.exp),
        il::PremKind::IfHold(rp) => exps_free(rp.not_exp.args@),
        il::PremKind::IfNotHold(rp) => exps_free(rp.not_exp.args@),
        il::PremKind::Iter(ip) => prem_free(*ip.prem),
        il::PremKind::Debug(ip) => exp_free(ip.exp),
    }
}

/// The names of the variables occurring in a list of premises.
pub open spec fn prems_free(ps: Seq<il::Prem>) -> Set<Seq<char>>
    decreases ps.len(),
{
    if ps.len() == 0 {
        Set::empty()
    } else {
        prems_free(ps.drop_last()).union(prem_free(ps.last()))
    }
}

/// Adds the variables occurring in `p` to `acc`.
pub fn free_prem(p: &il::Prem, acc: &mut IdSet)
    ensures
        final(acc)@ == old(acc)@.union(prem_free(*p)),
    decreases p,
{
    match &p.node {
        il::PremKind::Rule(rp) => free_exps(&rp.not_exp.args, acc),
        il::PremKind::If(ip) => free_exp(&ip.exp, acc),
        il::PremKind::IfHold(rp) => free_exps(&rp.not_exp.args, acc),
        il::PremKind::IfNotHold(rp) => free_exps(&rp.not_exp.args, acc),
        il::PremKind::Iter(ip) => free_prem(&ip.prem, acc),
        il::PremKind::Debug(ip) => free_exp(&ip.exp, acc),
    }
}

/// Adds the variables occurring in the premises `ps` to `acc`.
pub fn free_prems(ps: &Vec<il::Prem>, acc: &mut IdSet)
    ensures
        final(acc)@ == old(acc)@.union(prems_free(ps@)),
{
    let ghost a0 = acc@;
    for i in 0..ps.len()
        invariant
            acc@ == a0.union(prems_free(ps@.take(i as int))),
    {
        proof {
            assert(ps@.take(i + 1).drop_last() =~= ps@.take(i as int));
        }
        free_prem(&ps[i], acc);
        assert(acc@ =~= a0.union(prems_free(ps@.take(i + 1))));
    }
    assert(ps@.take(ps.len() as int) =~= ps@);
}

/// The names in use in a clause.
pub open spec fn clause_frees(cl: il::Clause) -> Set<Seq<char>> {
    args_free(cl.args@).union(prems_free(cl.premises@)).union(exp_free(cl.expression))
}

/// Binding the clause's arguments in `c1` failed with `e`.
pub open spec fn args_failure(c1: Context, cl: il::Clause, e: AlgoError) -> bool {
    ||| coll_args(c1.venv@, cl.args@) is None
            && collection_args(c1.venv@, cl.args@) == Err::<Seq<(Id, BindingV)>, AlgoError>(e)
    ||| exists|b: BEnv, m: RenameEnv, as1: Seq<ArgV>, frees1: Set<Seq<char>>, rp: PartialRenames|
            #[trigger] bind_args_failure(c1, cl.args@, b, m, as1, frees1, rp, e.kind)
}

/// What follows the premises of `cl`, analysed into `ps` with the bound
/// variables of `c3`, the arguments having become `out` with the premises
/// `sides`: the result must be bound; then an otherwise clause fails at
/// the first impure premise; else the clause is analysed.
pub open spec fn clause_end(
    cl: il::Clause,
    is_else: bool,
    c3: Context,
    out: Seq<ArgV>,
    sides: Seq<PremShape>,
    ps: Seq<PremShape>,
    r: Result<al::Clause, AlgoError>,
) -> bool {
    if !bound_ok(c3.venv@, cl.expression) {
        r matches Err(e) && bound_err(c3.venv@, cl.expression, e)
    } else {
        match r {
            Ok(c) => args_view(c.args@) == out && prems_view(c.premises@) == sides + ps && c.expression == cl.expression
                && c.span == cl.span
                && (is_else ==> forall|i: int| 0 <= i < c.premises@.len() ==> #[trigger] is_pure(c.premises@[i])),
            Err(e) => is_else && exists|all: Seq<Prem>| prems_view(all) == sides + ps && #[trigger] first_impure(all, e),
        }
    }
}

/// Once its arguments bound in `c1` as `bind_args_result` says, the
/// clause's premises are analysed from `c2`, where those bindings join the
/// bound variables, ending in `c3` with `pr`.
pub open spec fn clause_rest(
    c1: Context,
    cl: il::Clause,
    is_else: bool,
    fr: Set<Seq<char>>,
    venv: Map<Seq<char>, DimV>,
    out: Seq<ArgV>,
    sides: Seq<PremShape>,
    c2: Context,
    c3: Context,
    pr: Result<Seq<PremShape>, AlgoError>,
    r: Result<al::Clause, AlgoError>,
) -> bool {
    &&& c2.wf()
    &&& c2.venv@ == venv.union_prefer_right(c1.venv@)
    &&& c2.frees@ == fr
    &&& c2.tdenv == c1.tdenv
    &&& c2.menv == c1.menv
    &&& prems_outcome(c2, cl.premises@, c3, pr)
    &&& match pr {
        Err(e) => r == Err::<al::Clause, AlgoError>(e),
        Ok(ps) => clause_end(cl, is_else, c3, out, sides, ps, r),
    }
}

/// What analysing the clause `cl` in `ctx` gives: in `c1`, which holds the
/// clause's names in use, its arguments bind, as `analyze_args_as_bind`
/// binds, or fail; then its premises and result follow.
pub open spec fn clause_outcome(ctx: Context, cl: il::Clause, is_else: bool, r: Result<al::Clause, AlgoError>) -> bool {
    exists|c1: Context| #[trigger] with_frees(ctx, c1, clause_frees(cl)) && {
        ||| r matches Err(e) && args_failure(c1, cl, e)
        ||| exists|fr: Set<Seq<char>>, b: BEnv, m: RenameEnv, as1: Seq<ArgV>, frees1: Set<Seq<char>>, rp: PartialRenames,
                venv: Map<Seq<char>, DimV>, out: Seq<ArgV>, sides: Seq<PremShape>, c2: Context, c3: Context,
                pr: Result<Seq<PremShape>, AlgoError>|
                #![trigger bind_args_result(c1, fr, cl.args@, b, m, as1, frees1, rp, venv, out, sides), clause_rest(c1, cl, is_else, fr, venv, out, sides, c2, c3, pr, r)]
                bind_args_result(c1, fr, cl.args@, b, m, as1, frees1, rp, venv, out, sides)
                && clause_rest(c1, cl, is_else, fr, venv, out, sides, c2, c3, pr, r)
    }
}

/// Analyses a clause in `ctx` with the clause's names added; the caller
/// restores the context.
#[verifier::rlimit(100)]
#[verifier::spinoff_prover]
fn lower_clause_in(ctx: &mut Context, clause: il::Clause, is_else: bool) -> (r: Result<al::Clause, AlgoError>)
    requires
        old(ctx).wf(),
    ensures
        final(ctx).wf(),
        final(ctx).tdenv == old(ctx).tdenv,
        final(ctx).menv == old(ctx).menv,
        clause_outcome(*old(ctx), clause, is_else, r),
{
    let ghost ctx0 = *ctx;
    let ghost cl = clause;
    let mut frees = IdSet::new();
    free_args(&clause.args, &mut frees);
    free_prems(&clause.premises, &mut frees);
    free_exp(&clause.expression, &mut frees);
    ctx.add_frees(&frees);
    let ghost c1 = *ctx;
    proof {
        assert(frees@ =~= clause_frees(cl));
        assert(with_frees(ctx0, c1, clause_frees(cl)));
    }
    let il::Clause { args, premises, expression, span } = clause;
    let (venv, args_al, sides) = match analyze_args_as_bind(ctx, &args) {
        Ok(x) => x,
        Err(e) => {
            proof {
                assert(args_failure(c1, cl, e));
            }
            return Err(e);
        },
    };
    let ghost fr = ctx.frees@;
    let ghost w = choose|b: BEnv, m: RenameEnv, as1: Seq<ArgV>, frees1: Set<Seq<char>>, rp: PartialRenames|
        #[trigger] bind_args_result(c1, fr, args@, b, m, as1, frees1, rp, venv@, args_view(args_al@), prems_view(sides@));
    proof {
        assert(bind_args_result(c1, fr, args@, w.0, w.1, w.2, w.3, w.4, venv@, args_view(args_al@), prems_view(sides@)));
    }
    ctx.add_bounds(&venv);
    let ghost c2 = *ctx;
    let res = analyze_prems(ctx, premises);
    let ghost c3 = *ctx;
    let ghost pr = prems_result(res);
    let prems_al = match res {
        Ok(p) => p,
        Err(e) => {
            proof {
                assert(clause_rest(c1, cl, is_else, fr, venv@, args_view(args_al@), prems_view(sides@), c2, c3, pr, Err(e)));
            }
            return Err(e);
        },
    };
    let ghost ps = prems_view(prems_al@);
    let ghost sv = prems_view(sides@);
    match analyze_exp_as_bound(ctx, &expression) {
        Ok(()) => {},
        Err(e) => {
            proof {
                assert(clause_end(cl, is_else, c3, args_view(args_al@), sv, ps, Err(e)));
                assert(clause_rest(c1, cl, is_else, fr, venv@, args_view(args_al@), sv, c2, c3, pr, Err(e)));
            }
            return Err(e);
        },
    }
    let mut all = sides;
    let mut prems_al = prems_al;
    all.append(&mut prems_al);
    proof {
        assert(prems_view(all@) =~= sv + ps);
    }
    if is_else {
        match check_pure_prems_in_else(&all) {
            Ok(()) => {},
            Err(e) => {
                proof {
                    assert(first_impure(all@, e));
                    assert(clause_end(cl, is_else, c3, args_view(args_al@), sv, ps, Err(e)));
                    assert(clause_rest(c1, cl, is_else, fr, venv@, args_view(args_al@), sv, c2, c3, pr, Err(e)));
                }
                return Err(e);
            },
        }
    }
    let c = al::Clause { args: args_al, premises: all, expression, span };
    proof {
        assert(clause_end(cl, is_else, c3, args_view(c.args@), sv, ps, Ok(c)));
        assert(clause_rest(c1, cl, is_else, fr, venv@, args_view(c.args@), sv, c2, c3, pr, Ok(c)));
    }
    Ok(c)
}

/// Analyses a function clause: its arguments bind, its premises follow in
/// order, each seeing what the earlier bound, and its result must then be
/// bound; an otherwise clause (`is_else`) must have only pure premises.
/// The context is as it was afterwards.
pub fn lower_clause(ctx: &mut Context, clause: il::Clause, is_else: bool) -> (r: Result<al::Clause, AlgoError>)
    requires
        old(ctx).wf(),
    ensures
        final(ctx).wf(),
        final(ctx).frees@ == old(ctx).frees@,
        final(ctx).venv@ == old(ctx).venv@,
        final(ctx).tdenv == old(ctx).tdenv,
        final(ctx).menv == old(ctx).menv,
        clause_outcome(*old(ctx), clause, is_else, r),
{
    let frees0 = ctx.frees.clone_set();
    let venv0 = ctx.venv.clone_venv();
    let r = lower_clause_in(ctx, clause, is_else);
    ctx.frees = frees0;
    ctx.venv = venv0;
    r
}

/// The premises `all` have an impure one, and the first stands at `e`.
pub open spec fn first_impure(all: Seq<Prem>, e: AlgoError) -> bool {
    &&& e.kind == AlgoErrorKind::ImpureElsePremises
    &&& exists|i: int| 0 <= i < all.len()
            && (forall|j: int| 0 <= j < i ==> #[trigger] is_pure(all[j]))
            && impure_spans(#[trigger] all[i]).contains(e.span)
}

/// What a rule path gives once its own premises were analysed into
/// `tail`, the context having the bound variables of `c3`: its premises are
/// the `unified` ones then `tail`; in an otherwise branch (`checked`) the
/// first impure one fails; then its outputs must be bound.
pub open spec fn path_end(
    unified: Seq<Prem>,
    tail: Seq<Prem>,
    outs: Seq<Exp>,
    checked: bool,
    c3: Context,
    r: Result<al::RulePath, AlgoError>,
) -> bool {
    let all = unified + tail;
    if checked && exists|i: int| 0 <= i < all.len() && !#[trigger] is_pure(all[i]) {
        r matches Err(e) && first_impure(all, e)
    } else if !(forall|i: int| 0 <= i < outs.len() ==> #[trigger] bound_ok(c3.venv@, outs[i])) {
        r matches Err(e) && first_bound_err(c3.venv@, outs, e)
    } else {
        r matches Ok(p) && p.prems@ == all && p.exps_output@ == outs
    }
}

/// Analyses one path through a rule group: its own premises follow the
/// `unified` ones that the shared match left to it; in an otherwise branch
/// (`checked`) all of them must be pure; then its outputs must be bound.
pub fn lower_rule_path(
    ctx: &mut Context,
    prems_unified: Vec<Prem>,
    prems_il: Vec<il::Prem>,
    exps_output: Vec<Exp>,
    checked: bool,
) -> (r: Result<al::RulePath, AlgoError>)
    requires
        old(ctx).wf(),
    ensures
        final(ctx).wf(),
        final(ctx).tdenv == old(ctx).tdenv,
        final(ctx).menv == old(ctx).menv,
        exists|pr: Result<Seq<PremShape>, AlgoError>| #[trigger] prems_outcome(*old(ctx), prems_il@, *final(ctx), pr) && match pr {
            Err(e) => r == Err::<al::RulePath, AlgoError>(e),
            Ok(ps) => exists|tail: Seq<Prem>| prems_view(tail) == ps && #[trigger] path_end(prems_unified@, tail, exps_output@, checked, *final(ctx), r),
        },
{
    let ghost ctx0 = *ctx;
    let ghost unified = prems_unified@;
    let res = analyze_prems(ctx, prems_il);
    let ghost pr = prems_result(res);
    let mut tail = match res {
        Ok(p) => p,
        Err(e) => {
            proof {
                assert(prems_outcome(ctx0, prems_il@, *ctx, pr));
            }
            return Err(e);
        },
    };
    let ghost t = tail@;
    let mut all = prems_unified;
    all.append(&mut tail);
    proof {
        assert(all@ == unified + t);
        assert(prems_outcome(ctx0, prems_il@, *ctx, pr));
    }
    if checked {
        match check_pure_prems_in_else(&all) {
            Ok(()) => {},
            Err(e) => {
                proof {
                    assert(first_impure(all@, e));
                    assert(path_end(unified, t, exps_output@, checked, *ctx, Err(e)));
                }
                return Err(e);
            },
        }
    }
    match analyze_exps_as_bound(ctx, &exps_output) {
        Ok(()) => {},
        Err(e) => {
            proof {
                assert(path_end(unified, t, exps_output@, checked, *ctx, Err(e)));
            }
            return Err(e);
        },
    }
    let p = al::RulePath { prems: all, exps_output };
    proof {
        assert(path_end(unified, t, p.exps_output@, checked, *ctx, Ok(p)));
    }
    Ok(p)
}

/// Analysing a clause depends on the context only through its views.
proof fn lemma_clause_views(c: Context, d: Context, cl: il::Clause, is_else: bool, r: Result<al::Clause, AlgoError>)
    requires
        c.frees@ == d.frees@,
        c.venv@ == d.venv@,
        c.tdenv == d.tdenv,
        c.menv == d.menv,
        clause_outcome(c, cl, is_else, r),
    ensures
        clause_outcome(d, cl, is_else, r),
{
    let c1 = choose|c1: Context| #[trigger] with_frees(c, c1, clause_frees(cl)) && {
        ||| r matches Err(e) && args_failure(c1, cl, e)
        ||| exists|fr: Set<Seq<char>>, b: BEnv, m: RenameEnv, as1: Seq<ArgV>, frees1: Set<Seq<char>>, rp: PartialRenames,
                venv: Map<Seq<char>, DimV>, out: Seq<ArgV>, sides: Seq<PremShape>, c2: Context, c3: Context,
                pr: Result<Seq<PremShape>, AlgoError>|
                #![trigger bind_args_result(c1, fr, cl.args@, b, m, as1, frees1, rp, venv, out, sides), clause_rest(c1, cl, is_else, fr, venv, out, sides, c2, c3, pr, r)]
                bind_args_result(c1, fr, cl.args@, b, m, as1, frees1, rp, venv, out, sides)
                && clause_rest(c1, cl, is_else, fr, venv, out, sides, c2, c3, pr, r)
    };
    assert(with_frees(d, c1, clause_frees(cl)));
}

/// The first `i` clauses of `cls` can each be analysed in `ctx`.
pub open spec fn clauses_ok_before(ctx: Context, cls: Seq<il::Clause>, i: int) -> bool {
    forall|j: int| 0 <= j < i ==> #[trigger] clause_ok(ctx, cls[j])
}

/// The clause `cl` can be analysed in `ctx`.
pub open spec fn clause_ok(ctx: Context, cl: il::Clause) -> bool {
    exists|c: al::Clause| #[trigger] clause_outcome(ctx, cl, false, Ok(c))
}

/// What analysing the clauses of the function `f` in `ctx` gives: each
/// clause in order, then the otherwise clause; the first failure is the
/// result.
pub open spec fn func_outcome(ctx: Context, f: crate::il_decl::DefinedFunc, r: Result<al::FuncDecDef, AlgoError>) -> bool {
    let cls = f.clauses@;
    match r {
        Ok(d) => d.id == f.id && d.clauses@.len() == cls.len()
            && (forall|i: int| 0 <= i < cls.len() ==> #[trigger] clause_outcome(ctx, cls[i], false, Ok(d.clauses@[i])))
            && match (f.else_clause, d.else_clause) {
                (None, None) => true,
                (Some(c), Some(c2)) => clause_outcome(ctx, c, true, Ok(c2)),
                _ => false,
            },
        Err(e) => exists|i: int| 0 <= i <= cls.len() && #[trigger] clauses_ok_before(ctx, cls, i)
            && if i < cls.len() {
                clause_outcome(ctx, cls[i], false, Err(e))
            } else {
                f.else_clause matches Some(c) && clause_outcome(ctx, c, true, Err(e))
            },
    }
}

/// Analyses every clause of a function in order, then its otherwise
/// clause, each from the same context. The context is as it was afterwards.
pub fn lower_defined_func(ctx: &mut Context, f: crate::il_decl::DefinedFunc) -> (r: Result<al::FuncDecDef, AlgoError>)
    requires
        old(ctx).wf(),
    ensures
        final(ctx).wf(),
        final(ctx).frees@ == old(ctx).frees@,
        final(ctx).venv@ == old(ctx).venv@,
        final(ctx).tdenv == old(ctx).tdenv,
        final(ctx).menv == old(ctx).menv,
        func_outcome(*old(ctx), f, r),
{
    let ghost ctx0 = *ctx;
    let ghost f0 = f;
    let crate::il_decl::DefinedFunc { id, tparams: _, params: _, typ: _, clauses, else_clause } = f;
    let ghost cls = clauses@;
    let mut rest = clauses;
    let mut out: Vec<al::Clause> = Vec::new();
    let n = rest.len();
    for i in 0..n
        invariant
            ctx.wf(),
            ctx.frees@ == ctx0.frees@,
            ctx.venv@ == ctx0.venv@,
            ctx.tdenv == ctx0.tdenv,
            ctx.menv == ctx0.menv,
            n == cls.len(),
            ctx0 == *old(ctx),
            cls == f0.clauses@,
            f0 == f,
            rest@ == cls.skip(i as int),
            out@.len() == i,
            forall|j: int| 0 <= j < i ==> #[trigger] clause_outcome(ctx0, cls[j], false, Ok(out@[j])),
    {
        let cl = rest.remove(0);
        proof {
            assert(cl == cls[i as int]);
            assert(rest@ =~= cls.skip(i + 1));
        }
        let ghost c_before = *ctx;
        let res = lower_clause(ctx, cl, false);
        proof {
            lemma_clause_views(c_before, ctx0, cls[i as int], false, res);
        }
        match res {
            Ok(c) => out.push(c),
            Err(e) => {
                proof {
                    assert forall|j: int| 0 <= j < i implies #[trigger] clause_ok(ctx0, cls[j]) by {
                        assert(clause_outcome(ctx0, cls[j], false, Ok(out@[j])));
                    }
                    assert(clauses_ok_before(ctx0, cls, i as int));
                    assert(func_outcome(ctx0, f0, Err(e)));
                }
                return Err(e);
            },
        }
    }
    let else_out = match else_clause {
        None => None,
        Some(cl) => {
            let ghost c_before = *ctx;
            let res = lower_clause(ctx, cl, true);
            proof {
                lemma_clause_views(c_before, ctx0, cl, true, res);
            }
            match res {
                Ok(c) => Some(c),
                Err(e) => {
                    proof {
                        assert forall|j: int| 0 <= j < n implies #[trigger] clause_ok(ctx0, cls[j]) by {
                            assert(clause_outcome(ctx0, cls[j], false, Ok(out@[j])));
                        }
                        assert(clauses_ok_before(ctx0, cls, n as int));
                        assert(func_outcome(ctx0, f0, Err(e)));
                    }
                    return Err(e);
                },
            }
        },
    };
    let d = al::FuncDecDef { id, clauses: out, else_clause: else_out };
    proof {
        assert(func_outcome(ctx0, f0, Ok(d)));
    }
    Ok(d)
}

} // verus!
