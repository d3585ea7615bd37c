//! Binding analysis of the parts of definitions: the shared match of a rule
//! group, and the rows of a decision table.
//!
//! The inputs of a group's rules are anti-unified into one signature, whose
//! patterns then bind; a table row binds its shallow argument patterns and
//! must read only bound variables in its result.

use vstd::prelude::*;
use crate::span::Span;
use crate::il_def::TypeDefV;
use crate::il::{Arg, ArgKind, ArgV, Exp, ExpV, Id, Param, ParamKind, Typ, TypKind, args_view, exps_view, typ_view};
use crate::algo::bind::BindingV;
use crate::il::TableRow as RowIl;
use crate::il_free::{args_free, exp_free, free_args, free_exp};
use crate::il_typ::clone_typ;
use crate::al::{Prem, RuleMatch, TableRow, prems_view};
use crate::ids::IdSet;
use crate::algo::bind::BEnv;
use crate::algo::collect::{coll_args, coll_exps, collection_args, collection_exps};
use crate::algo::context::Context;
use crate::algo::dim::DimV;
use crate::algo::error::{AlgoError, AlgoErrorKind};
use crate::algo::iteration::ICtx;
use crate::algo::multiple::RenameEnv;
use crate::algo::partial::RenameEnv as PartialRenames;
use crate::algo::shallow::shallow_arg;
use crate::algo::antiunify::{aenv, anti, antiunify, prem_rows_view, rows_view};
use crate::algo::analyze::{
    analyze_args_as_bind_shallow, analyze_args_as_bound_shallow, analyze_exp_as_bound, analyze_exps_as_bind,
    analyze_exps_as_bound, arg_bound_err, arg_bound_ok, bind_args_result, bind_failure, bind_result,
    bind_shallow_failure, bound_err, bound_ok, check_valid_table_rows, first_bound_err, first_span, sides,
    table_check, typ_cover, typs_cover,
};

verus! {

/// `c1` is `c` with the names `s` also in use.
pub open spec fn with_frees(c: Context, c1: Context, s: Set<Seq<char>>) -> bool {
    &&& c1.venv@ == c.venv@
    &&& c1.tdenv == c.tdenv
    &&& c1.menv == c.menv
    &&& c1.frees@ == c.frees@.union(s)
}

// == Rule matches

/// Matching the inputs `rows` of a group's rules in `ctx` gave the rule
/// match `rm` and each rule's unifying premises `pg`, and left `fin`: the
/// signature anti-unifies the rows, naming new variables that `c1` holds in
/// use; it binds as `bind_result` says, its bindings join those of `ctx`,
/// and after them the signature binds nothing.
pub open spec fn match_result(
    ctx: Context,
    rows: Seq<Vec<Exp>>,
    fin: Context,
    c1: Context,
    b: BEnv,
    m: RenameEnv,
    es1: Seq<ExpV>,
    frees1: Set<Seq<char>>,
    rp: PartialRenames,
    venv: Map<Seq<char>, DimV>,
    rm: RuleMatch,
    pg: Seq<Vec<Prem>>,
) -> bool {
    let a = anti(aenv(ctx), ctx.frees@, rows_view(rows));
    &&& a is Ok
    &&& exps_view(rm.exps_signature@) == a->Ok_0.1
    &&& prem_rows_view(pg) == a->Ok_0.2
    &&& with_frees(ctx, c1, a->Ok_0.0)
    &&& bind_result(c1, fin.frees@, Seq::empty(), rm.exps_signature@, b, m, es1, frees1, rp, venv,
            exps_view(rm.exps_input@), prems_view(rm.prems@))
    &&& fin.venv@ == venv.union_prefer_right(ctx.venv@)
    &&& forall|i: int| 0 <= i < rm.exps_signature@.len()
            ==> #[trigger] bound_ok(fin.venv@, rm.exps_signature@[i])
}

/// Matching the inputs `rows` of a group's rules in `ctx` failed with `e`:
/// in the anti-unification, in binding the signature `sig`, or because the
/// signature still binds something once its bindings are recorded.
pub open spec fn match_failure(ctx: Context, rows: Seq<Vec<Exp>>, e: AlgoError) -> bool {
    match anti(aenv(ctx), ctx.frees@, rows_view(rows)) {
        Err(k) => e.kind == k,
        Ok((un, ts, _)) => exists|c1: Context, sig: Seq<Exp>|
            #[trigger] with_frees(ctx, c1, un) && #[trigger] exps_view(sig) == ts && {
            ||| coll_exps(c1.venv@, sig) is None && collection_exps(c1.venv@, sig) == Err::<Seq<(Id, BindingV)>, AlgoError>(e)
            ||| exists|b: BEnv, m: RenameEnv, es1: Seq<ExpV>, frees1: Set<Seq<char>>, rp: PartialRenames|
                    #[trigger] bind_failure(c1, Seq::empty(), sig, b, m, es1, frees1, rp, e.kind)
            ||| exists|fr: Set<Seq<char>>, b: BEnv, m: RenameEnv, es1: Seq<ExpV>, frees1: Set<Seq<char>>,
                    rp: PartialRenames, venv: Map<Seq<char>, DimV>, es: Seq<ExpV>, ps: Seq<crate::al::PremShape>|
                    #[trigger] bind_result(c1, fr, Seq::empty(), sig, b, m, es1, frees1, rp, venv, es, ps)
                    && first_bound_err(venv.union_prefer_right(ctx.venv@), sig, e)
        }
    }
}

/// Analyzes the shared match of a rule group from the inputs of its rules:
/// anti-unifies them into a signature, binds the signature's patterns and
/// records their bindings, and checks that the signature then binds
/// nothing. Returns the rule match and each rule's unifying premises.
#[verifier::spinoff_prover]
pub fn analyze_rule_match(ctx: &mut Context, exps_input_group: Vec<Vec<Exp>>) -> (r: Result<(RuleMatch, Vec<Vec<Prem>>), AlgoError>)
    requires
        old(ctx).wf(),
    ensures
        final(ctx).wf(),
        final(ctx).tdenv == old(ctx).tdenv,
        final(ctx).menv == old(ctx).menv,
        match r {
            Ok((rm, pg)) => exists|c1: Context, b: BEnv, m: RenameEnv, es1: Seq<ExpV>, frees1: Set<Seq<char>>,
                rp: PartialRenames, venv: Map<Seq<char>, DimV>|
                #[trigger] match_result(*old(ctx), exps_input_group@, *final(ctx), c1, b, m, es1, frees1, rp, venv, rm, pg@),
            Err(e) => match_failure(*old(ctx), exps_input_group@, e),
        },
{
    let ghost ctx0 = *ctx;
    let ghost rows = exps_input_group@;
    let (templates, prems_group) = match antiunify(ctx, exps_input_group) {
        Ok(x) => x,
        Err(e) => return Err(e),
    };
    let ghost ctx1 = *ctx;
    let ghost a = anti(aenv(ctx0), ctx0.frees@, rows_view(rows));
    proof {
        assert(with_frees(ctx0, ctx1, a->Ok_0.0));
    }
    let ictx = ICtx::new();
    let (venv, exps_input, prems) = match analyze_exps_as_bind(ctx, &ictx, &templates) {
        Ok(x) => x,
        Err(e) => {
            proof {
                assert(with_frees(ctx0, ctx1, a->Ok_0.0) && exps_view(templates@) == a->Ok_0.1);
                assert(match_failure(ctx0, rows, e));
            }
            return Err(e);
        },
    };
    let ghost ctx2 = *ctx;
    let ghost w = choose|b: BEnv, m: RenameEnv, es1: Seq<ExpV>, frees1: Set<Seq<char>>, rp: PartialRenames|
        #[trigger] bind_result(ctx1, ctx2.frees@, Seq::empty(), templates@, b, m, es1, frees1, rp, venv@,
            exps_view(exps_input@), prems_view(prems@));
    ctx.add_bounds(&venv);
    match analyze_exps_as_bound(ctx, &templates) {
        Ok(()) => {},
        Err(e) => {
            proof {
                assert(with_frees(ctx0, ctx1, a->Ok_0.0) && exps_view(templates@) == a->Ok_0.1);
                assert(bind_result(ctx1, ctx2.frees@, Seq::empty(), templates@, w.0, w.1, w.2, w.3, w.4, venv@,
                    exps_view(exps_input@), prems_view(prems@)));
            }
            return Err(e);
        },
    }
    let rm = RuleMatch { exps_signature: templates, exps_input, prems };
    proof {
        assert(match_result(ctx0, rows, *ctx, ctx1, w.0, w.1, w.2, w.3, w.4, venv@, rm, prems_group@));
    }
    let r = Ok((rm, prems_group));
    proof {
        assert(r matches Ok((rm1, pg1)) && match_result(ctx0, rows, *ctx, ctx1, w.0, w.1, w.2, w.3, w.4, venv@, rm1, pg1@));
    }
    r
}

// == Table rows

/// The names a table row mentions.
pub open spec fn row_frees(row: RowIl) -> Set<Seq<char>> {
    args_free(row.args@).union(exp_free(row.exp))
}

/// The expression of an expression argument.
pub open spec fn arg_exp(a: Arg) -> Exp
    recommends
        a.node is Exp,
{
    match a.node {
        ArgKind::Exp(e) => *e,
        ArgKind::Def(_) => arbitrary(),
    }
}

/// Every argument is a shallow pattern.
pub open spec fn all_shallow(args: Seq<Arg>) -> bool {
    forall|i: int| 0 <= i < args.len() ==> #[trigger] shallow_arg(args[i])
}

/// Analyzing the table row `row` in `ctx` gave `t`: in `c1`, which holds the
/// row's names in use, its shallow arguments bind as `bind_args_result`
/// says with no side condition; once their bindings join those of `ctx`,
/// the arguments and the result bind nothing; the signature is the
/// arguments' expressions.
pub open spec fn row_result(
    ctx: Context,
    row: RowIl,
    c1: Context,
    fr: Set<Seq<char>>,
    b: BEnv,
    m: RenameEnv,
    as1: Seq<ArgV>,
    frees1: Set<Seq<char>>,
    rp: PartialRenames,
    venv: Map<Seq<char>, DimV>,
    t: TableRow,
) -> bool {
    let bound = venv.union_prefer_right(ctx.venv@);
    &&& with_frees(ctx, c1, row_frees(row))
    &&& all_shallow(row.args@)
    &&& bind_args_result(c1, fr, row.args@, b, m, as1, frees1, rp, venv, args_view(t.args@), prems_view(t.prems@))
    &&& sides(m, Seq::empty()).len() == 0
    &&& forall|i: int| 0 <= i < row.args@.len() ==> #[trigger] arg_bound_ok(bound, row.args@[i])
    &&& bound_ok(bound, row.exp)
    &&& t.exps_signature@ == row.args@.map_values(|a: Arg| arg_exp(a))
    &&& t.exp == row.exp
    &&& t.span == row.span
}

/// Analyzing the table row `row` in `ctx` can give `t`.
pub open spec fn row_ok(ctx: Context, row: RowIl, t: TableRow) -> bool {
    exists|c1: Context, fr: Set<Seq<char>>, b: BEnv, m: RenameEnv, as1: Seq<ArgV>, frees1: Set<Seq<char>>,
        rp: PartialRenames, venv: Map<Seq<char>, DimV>|
        #[trigger] row_result(ctx, row, c1, fr, b, m, as1, frees1, rp, venv, t)
}

/// The arguments bind nothing once `venv` is bound, or the first that does
/// fails with `e`; then the result is checked likewise.
pub open spec fn row_bound_failure(row: RowIl, bound: Map<Seq<char>, DimV>, e: AlgoError) -> bool {
    ||| exists|i: int| 0 <= i < row.args@.len()
            && (forall|j: int| 0 <= j < i ==> #[trigger] arg_bound_ok(bound, row.args@[j]))
            && arg_bound_err(bound, #[trigger] row.args@[i], e)
    ||| (forall|i: int| 0 <= i < row.args@.len() ==> #[trigger] arg_bound_ok(bound, row.args@[i]))
            && bound_err(bound, row.exp, e)
}

/// Analyzing the table row `row` in `ctx` failed with `e`: an argument is
/// not shallow, binding the arguments failed, or, once they are bound, an
/// argument or the result still binds something.
pub open spec fn row_failure(ctx: Context, row: RowIl, e: AlgoError) -> bool {
    exists|c1: Context| #[trigger] with_frees(ctx, c1, row_frees(row)) && if !all_shallow(row.args@) {
        e == AlgoError::new_spec(AlgoErrorKind::BindingsNotShallow, first_span(row.args@, row.span))
    } else {
        ||| coll_args(ctx.venv@, row.args@) is None && collection_args(ctx.venv@, row.args@) == Err::<Seq<(Id, BindingV)>, AlgoError>(e)
        ||| exists|b: BEnv, m: RenameEnv, as1: Seq<ArgV>, frees1: Set<Seq<char>>, rp: PartialRenames|
                #[trigger] bind_shallow_failure(c1, row.args@, row.span, b, m, as1, frees1, rp, e)
        ||| exists|fr: Set<Seq<char>>, b: BEnv, m: RenameEnv, as1: Seq<ArgV>, frees1: Set<Seq<char>>, rp: PartialRenames,
                venv: Map<Seq<char>, DimV>, out: Seq<ArgV>, ps: Seq<crate::al::PremShape>|
                #[trigger] bind_args_result(c1, fr, row.args@, b, m, as1, frees1, rp, venv, out, ps)
                && sides(m, Seq::empty()).len() == 0
                && row_bound_failure(row, venv.union_prefer_right(ctx.venv@), e)
    }
}

/// Analyzes a row in `ctx` with the row's names added; the caller restores
/// the context.
fn analyze_row_in(ctx: &mut Context, row_il: RowIl) -> (r: Result<TableRow, AlgoError>)
    requires
        old(ctx).wf(),
    ensures
        final(ctx).wf(),
        final(ctx).tdenv == old(ctx).tdenv,
        final(ctx).menv == old(ctx).menv,
        match r {
            Ok(t) => row_ok(*old(ctx), row_il, t),
            Err(e) => row_failure(*old(ctx), row_il, e),
        },
{
    let ghost ctx0 = *ctx;
    let ghost row = row_il;
    let mut frees = IdSet::new();
    free_args(&row_il.args, &mut frees);
    free_exp(&row_il.exp, &mut frees);
    ctx.add_frees(&frees);
    let ghost ctx1 = *ctx;
    proof {
        assert(frees@ =~= row_frees(row));
        assert(with_frees(ctx0, ctx1, row_frees(row)));
    }
    let RowIl { args, exp, span } = row_il;
    let (venv, args_input, prems) = match analyze_args_as_bind_shallow(ctx, &args, span) {
        Ok(x) => x,
        Err(e) => {
            proof {
                assert(row_failure(ctx0, row, e));
            }
            return Err(e);
        },
    };
    let ghost ctx2 = *ctx;
    let ghost w = choose|b: BEnv, m: RenameEnv, as1: Seq<ArgV>, frees1: Set<Seq<char>>, rp: PartialRenames|
        #[trigger] bind_args_result(ctx1, ctx2.frees@, args@, b, m, as1, frees1, rp, venv@, args_view(args_input@), prems_view(prems@))
        && sides(m, Seq::empty()).len() == 0;
    proof {
        assert(bind_args_result(ctx1, ctx2.frees@, args@, w.0, w.1, w.2, w.3, w.4, venv@, args_view(args_input@), prems_view(prems@)));
    }
    ctx.add_bounds(&venv);
    let ghost bound = ctx.venv@;
    proof {
        assert(bound == venv@.union_prefer_right(ctx0.venv@));
    }
    match analyze_args_as_bound_shallow(ctx, &args) {
        Ok(()) => {},
        Err(e) => {
            proof {
                assert(row_bound_failure(row, bound, e));
                assert(row_failure(ctx0, row, e));
            }
            return Err(e);
        },
    }
    match analyze_exp_as_bound(ctx, &exp) {
        Ok(()) => {},
        Err(e) => {
            proof {
                assert(row_bound_failure(row, bound, e));
                assert(row_failure(ctx0, row, e));
            }
            return Err(e);
        },
    }
    let ghost args0 = args@;
    let mut sig: Vec<Exp> = Vec::new();
    let mut rest = args;
    while rest.len() > 0
        invariant
            all_shallow(args0),
            sig@.len() + rest@.len() == args0.len(),
            forall|j: int| 0 <= j < sig@.len() ==> #[trigger] sig@[j] == arg_exp(args0[j]),
            forall|j: int| 0 <= j < rest@.len() ==> #[trigger] rest@[j] == args0[sig@.len() + j],
        decreases rest@.len(),
    {
        let ghost k = sig@.len();
        let ghost r0 = rest@;
        let a = rest.remove(0);
        proof {
            assert(a == args0[k as int]);
            assert(shallow_arg(args0[k as int]));
            assert forall|j: int| 0 <= j < rest@.len() implies #[trigger] rest@[j] == args0[sig@.len() + 1 + j] by {
                assert(rest@[j] == r0[j + 1]);
            }
        }
        let span_a = a.span;
        match a.node {
            ArgKind::Exp(e) => sig.push(*e),
            ArgKind::Def(_) => return Err(AlgoError::new(AlgoErrorKind::InvalidTablePattern, span_a)),
        }
    }
    let t = TableRow { exps_signature: sig, args: args_input, exp, prems, span };
    proof {
        assert(t.exps_signature@ =~= args0.map_values(|a: Arg| arg_exp(a)));
        assert(row_result(ctx0, row, ctx1, ctx2.frees@, w.0, w.1, w.2, w.3, w.4, venv@, t));
    }
    Ok(t)
}

/// Analyzes a row of a decision table: binds its shallow argument patterns,
/// checks that the arguments and the result then bind nothing, and returns
/// the row with its signature and the premises its bindings need. The
/// context is as it was afterwards.
pub fn analyze_table_row(ctx: &mut Context, row_il: RowIl) -> (r: Result<TableRow, AlgoError>)
    requires
        old(ctx).wf(),
    ensures
        final(ctx).wf(),
        final(ctx).frees@ == old(ctx).frees@,
        final(ctx).venv@ == old(ctx).venv@,
        final(ctx).tdenv == old(ctx).tdenv,
        final(ctx).menv == old(ctx).menv,
        match r {
            Ok(t) => row_ok(*old(ctx), row_il, t),
            Err(e) => row_failure(*old(ctx), row_il, e),
        },
{
    let frees0 = ctx.frees.clone_set();
    let venv0 = ctx.venv.clone_venv();
    let r = analyze_row_in(ctx, row_il);
    ctx.frees = frees0;
    ctx.venv = venv0;
    r
}

/// Analyzing a row depends on the context only through its views.
proof fn lemma_row_views(c: Context, d: Context, row: RowIl)
    requires
        c.frees@ == d.frees@,
        c.venv@ == d.venv@,
        c.tdenv == d.tdenv,
        c.menv == d.menv,
    ensures
        forall|t: TableRow| #[trigger] row_ok(c, row, t) ==> row_ok(d, row, t),
        forall|e: AlgoError| #[trigger] row_failure(c, row, e) ==> row_failure(d, row, e),
{
    assert forall|t: TableRow| #[trigger] row_ok(c, row, t) implies row_ok(d, row, t) by {
        let w = choose|c1: Context, fr: Set<Seq<char>>, b: BEnv, m: RenameEnv, as1: Seq<ArgV>, frees1: Set<Seq<char>>,
            rp: PartialRenames, venv: Map<Seq<char>, DimV>|
            #[trigger] row_result(c, row, c1, fr, b, m, as1, frees1, rp, venv, t);
        assert(row_result(d, row, w.0, w.1, w.2, w.3, w.4, w.5, w.6, w.7, t));
    }
    assert forall|e: AlgoError| #[trigger] row_failure(c, row, e) implies row_failure(d, row, e) by {
        let c1 = choose|c1: Context| #[trigger] with_frees(c, c1, row_frees(row)) && if !all_shallow(row.args@) {
            e == AlgoError::new_spec(AlgoErrorKind::BindingsNotShallow, first_span(row.args@, row.span))
        } else {
            ||| coll_args(c.venv@, row.args@) is None && collection_args(c.venv@, row.args@) == Err::<Seq<(Id, BindingV)>, AlgoError>(e)
            ||| exists|b: BEnv, m: RenameEnv, as1: Seq<ArgV>, frees1: Set<Seq<char>>, rp: PartialRenames|
                    #[trigger] bind_shallow_failure(c1, row.args@, row.span, b, m, as1, frees1, rp, e)
            ||| exists|fr: Set<Seq<char>>, b: BEnv, m: RenameEnv, as1: Seq<ArgV>, frees1: Set<Seq<char>>, rp: PartialRenames,
                    venv: Map<Seq<char>, DimV>, out: Seq<ArgV>, ps: Seq<crate::al::PremShape>|
                    #[trigger] bind_args_result(c1, fr, row.args@, b, m, as1, frees1, rp, venv, out, ps)
                    && sides(m, Seq::empty()).len() == 0
                    && row_bound_failure(row, venv.union_prefer_right(c.venv@), e)
        };
        assert(with_frees(d, c1, row_frees(row)));
    }
}

/// Analyzing the table row `row` in `ctx` succeeds.
pub open spec fn row_succeeds(ctx: Context, row: RowIl) -> bool {
    exists|t: TableRow| #[trigger] row_ok(ctx, row, t)
}

/// The type of a parameter that is a value.
pub open spec fn param_typ(p: Param) -> Typ
    recommends
        p.node is Exp,
{
    match p.node {
        ParamKind::Exp(t) => t,
        ParamKind::Def(_) => arbitrary(),
    }
}

/// Every parameter is a value of a type.
pub open spec fn exp_params(params: Seq<Param>) -> bool {
    forall|i: int| 0 <= i < params.len() ==> (#[trigger] params[i]).node is Exp
}

/// Analyzing the rows `rows` of a table with parameters `params` in `ctx`
/// failed with `e`: at the first row that fails, at the first parameter
/// that is not a value once all rows are analyzed, or in checking the
/// analyzed rows against the parameter types.
pub open spec fn table_failure(ctx: Context, span: Span, params: Seq<Param>, rows: Seq<RowIl>, e: AlgoError) -> bool {
    ||| exists|i: int| 0 <= i < rows.len()
            && (forall|j: int| 0 <= j < i ==> #[trigger] row_succeeds(ctx, rows[j]))
            && #[trigger] row_failure(ctx, rows[i], e)
    ||| exists|rs: Seq<TableRow>| rs.len() == rows.len()
            && (forall|i: int| 0 <= i < rs.len() ==> #[trigger] row_ok(ctx, rows[i], rs[i]))
            && {
            ||| exists|k: int| 0 <= k < params.len()
                    && (forall|j: int| 0 <= j < k ==> (#[trigger] params[j]).node is Exp)
                    && (#[trigger] params[k]).node is Def
                    && e == AlgoError::new_spec(AlgoErrorKind::InvalidTableParameter, params[k].span)
            ||| exp_params(params)
                    && table_check(ctx.tdenv@, span, params.map_values(|p: Param| param_typ(p)), rs, Err(e))
        }
}

/// Pattern sets of types depend on the types' views, locations and the
/// names of the type variables.
proof fn lemma_typs_cover_same(tdenv: Map<Seq<char>, TypeDefV>, a: Seq<Typ>, b: Seq<Typ>)
    requires
        a.len() == b.len(),
        forall|i: int| 0 <= i < a.len() ==> typ_view(#[trigger] a[i]) == typ_view(b[i]) && a[i].span == b[i].span
            && (a[i].node is Var ==> b[i].node is Var && a[i].node->Var_0 == b[i].node->Var_0),
    ensures
        typs_cover(tdenv, a) == typs_cover(tdenv, b),
    decreases a.len(),
{
    if a.len() > 0 {
        lemma_typs_cover_same(tdenv, a.drop_last(), b.drop_last());
        let x = a.last();
        let y = b.last();
        assert(typ_view(x) == typ_view(y));
        assert(typ_cover(tdenv, x.node, x.span) == typ_cover(tdenv, y.node, y.span)) by {
            if !(x.node is Var) {
                assert(!(y.node is Var)) by {
                    if y.node is Var {
                        assert(typ_view(y) is Var);
                    }
                }
            }
        }
    }
}

/// Analyzes the rows of a decision table, then checks them against the
/// parameter types: every parameter must be a value, and the rows must be
/// mutually exclusive and, unless the last closes the table, exhaustive.
/// The context is as it was afterwards.
pub fn analyze_table_rows(ctx: &mut Context, span: &Span, params_il: &Vec<Param>, rows_il: Vec<RowIl>) -> (r: Result<Vec<TableRow>, AlgoError>)
    requires
        old(ctx).wf(),
    ensures
        final(ctx).wf(),
        final(ctx).frees@ == old(ctx).frees@,
        final(ctx).venv@ == old(ctx).venv@,
        final(ctx).tdenv == old(ctx).tdenv,
        final(ctx).menv == old(ctx).menv,
        match r {
            Ok(rs) => rs@.len() == rows_il@.len()
                && (forall|i: int| 0 <= i < rs@.len() ==> #[trigger] row_ok(*old(ctx), rows_il@[i], rs@[i]))
                && exp_params(params_il@)
                && table_check(old(ctx).tdenv@, *span, params_il@.map_values(|p: Param| param_typ(p)), rs@, Ok(())),
            Err(e) => table_failure(*old(ctx), *span, params_il@, rows_il@, e),
        },
{
    let ghost ctx0 = *ctx;
    let ghost rows = rows_il@;
    let mut rows_al: Vec<TableRow> = Vec::new();
    let mut rest = rows_il;
    while rest.len() > 0
        invariant
            ctx0 == *old(ctx),
            rows == rows_il@,
            ctx.wf(),
            ctx.frees@ == ctx0.frees@,
            ctx.venv@ == ctx0.venv@,
            ctx.tdenv == ctx0.tdenv,
            ctx.menv == ctx0.menv,
            rows_al@.len() + rest@.len() == rows.len(),
            forall|j: int| 0 <= j < rows_al@.len() ==> #[trigger] row_ok(ctx0, rows[j], rows_al@[j]),
            forall|j: int| 0 <= j < rest@.len() ==> #[trigger] rest@[j] == rows[rows_al@.len() + j],
        decreases rest@.len(),
    {
        let ghost k = rows_al@.len();
        let ghost r0 = rest@;
        let ghost c = *ctx;
        let row = rest.remove(0);
        proof {
            assert(row == rows[k as int]);
            assert forall|j: int| 0 <= j < rest@.len() implies #[trigger] rest@[j] == rows[rows_al@.len() + 1 + j] by {
                assert(rest@[j] == r0[j + 1]);
            }
            lemma_row_views(c, ctx0, row);
        }
        match analyze_table_row(ctx, row) {
            Ok(t) => {
                rows_al.push(t);
            },
            Err(e) => {
                proof {
                    assert forall|j: int| 0 <= j < k implies #[trigger] row_succeeds(ctx0, rows[j]) by {
                        assert(row_ok(ctx0, rows[j], rows_al@[j]));
                    }
                    assert(row_failure(ctx0, rows[k as int], e));
                }
                return Err(e);
            },
        }
    }
    let mut typs: Vec<Typ> = Vec::new();
    for i in 0..params_il.len()
        invariant
            ctx0 == *old(ctx),
            rows == rows_il@,
            ctx.wf(),
            ctx.frees@ == ctx0.frees@,
            ctx.venv@ == ctx0.venv@,
            ctx.tdenv == ctx0.tdenv,
            ctx.menv == ctx0.menv,
            rows_al@.len() == rows.len(),
            forall|j: int| 0 <= j < rows_al@.len() ==> #[trigger] row_ok(ctx0, rows[j], rows_al@[j]),
            typs@.len() == i,
            forall|j: int| 0 <= j < i ==> (#[trigger] params_il@[j]).node is Exp,
            forall|j: int| 0 <= j < i ==> typ_view(#[trigger] typs@[j]) == typ_view(param_typ(params_il@[j]))
                && typs@[j].span == param_typ(params_il@[j]).span
                && (param_typ(params_il@[j]).node is Var ==> typs@[j].node is Var
                    && typs@[j].node->Var_0 == param_typ(params_il@[j]).node->Var_0),
    {
        match &params_il[i].node {
            ParamKind::Exp(t) => {
                typs.push(clone_typ(t));
            },
            ParamKind::Def(_) => {
                let e = AlgoError::new(AlgoErrorKind::InvalidTableParameter, params_il[i].span);
                proof {
                    assert(params_il@[i as int].node is Def);
                }
                return Err(e);
            },
        }
    }
    let ghost ptyps = params_il@.map_values(|p: Param| param_typ(p));
    proof {
        assert(rest@.len() == 0);
        lemma_typs_cover_same(ctx0.tdenv@, typs@, ptyps);
    }
    match check_valid_table_rows(ctx, span, &typs, &rows_al) {
        Ok(()) => {},
        Err(e) => return Err(e),
    }
    Ok(rows_al)
}

} // verus!
