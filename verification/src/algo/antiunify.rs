//! Anti-unification of rule input expressions.
//!
//! Corresponding inputs are overlapped into a shared template, and each rule
//! gets equality premises for what the template abstracts: `(true, x)` and
//! `(false, x)` become `(b, x)`, with `if b == true` and `if b == false` on
//! the respective rules.
//!
//! Where structural overlap fails, the two expressions become one fresh
//! variable if their types are equivalent; fresh names of the failed attempt
//! are discarded.

use vstd::prelude::*;
use crate::il_sub::{occurs_flat, occurs_flat_in};
use crate::span::Span;
use crate::il::{
    Exp, ExpKind, ExpField, ExpV, ExpKindV, NotExp, Typ, TypV, CmpOp, OpTyp, TypKind,
    exp_view, exps_view, fields_view, fields_atoms, typ_view, typ_kind_view,
};
use crate::il_typ::{clone_typ, clone_typ_kind, clone_mixop, mixop_eq, typ_eq, clone_id};
use crate::il_exp::{clone_exp, clone_exp_kind, exp_eq, lemma_exps_view, lemma_exps_view_push, lemma_fields_view};
use crate::il_var::{as_exp, var_exp, var_from_typ, fresh_var};
use crate::ids::IdSet;
use crate::idmap::idmap_entries;
use crate::al::{IfPrem, Prem, PremKind, PremShape, prems_view};
use crate::algo::error::{AlgoError, AlgoErrorKind};
use crate::algo::context::Context;
use crate::algo::types::{equiv, equiv_typ};
use crate::il_def::TypeDefV;

verus! {

// == Overlap, stated over views

/// What overlap reads: the meta-variables, the type definitions and the
/// bound on alias chains.
pub struct AEnv {
    pub menv: Seq<(Seq<char>, TypV)>,
    pub defs: Map<Seq<char>, TypeDefV>,
    pub fuel: nat,
}

/// The environment overlap reads from a context.
pub open spec fn aenv(ctx: Context) -> AEnv {
    AEnv { menv: idmap_entries(ctx.menv.entries@), defs: ctx.tdenv@, fuel: ctx.tdenv.entries@.len() }
}

/// Whether a failed structural overlap falls back to a fresh variable.
pub open spec fn recoverable(k: AlgoErrorKind) -> bool {
    k is AntiUnification || k is ExpressionArityMismatch
}

/// Overlaps template `t` with `e`, given the names in use `fr` and the
/// unifier variables `un`: equal expressions stay, unifier variables absorb
/// anything, matching constructors overlap componentwise, and anything else
/// of an equivalent type becomes a fresh unifier variable.
pub open spec fn ov(env: AEnv, fr: Set<Seq<char>>, un: Set<Seq<char>>, t: ExpV, e: ExpV) -> Result<(Set<Seq<char>>, Set<Seq<char>>, ExpV), AlgoErrorKind>
    decreases t, 1nat,
{
    if t == e {
        Ok((fr, un, t))
    } else {
        match ov_kind(env, fr, un, t, e) {
            Ok((fr1, un1, k)) => Ok((fr1, un1, ExpV { node: k, note: t.note })),
            Err(k) => if recoverable(k) {
                match equiv(env.defs, env.fuel, t.note, e.note) {
                    Err(k2) => Err(k2),
                    Ok(eqv) => if !eqv {
                        Err(AlgoErrorKind::AntiUnification)
                    } else {
                        let v = fresh_var(env.menv, fr, t.note);
                        Ok((fr.insert(v.id), un.insert(v.id), var_exp(v)))
                    },
                }
            } else {
                Err(k)
            },
        }
    }
}

/// Structural overlap of the nodes of `t` and `e`.
pub open spec fn ov_kind(env: AEnv, fr: Set<Seq<char>>, un: Set<Seq<char>>, t: ExpV, e: ExpV) -> Result<(Set<Seq<char>>, Set<Seq<char>>, ExpKindV), AlgoErrorKind>
    decreases t, 0nat,
{
    if t.node is Var && un.contains(t.node->Var_0) {
        Ok((fr, un, t.node))
    } else {
        match t.node {
            ExpKindV::UpCast(tt, ti) => match e.node {
                ExpKindV::UpCast(te, ei) => if tt == te {
                    match ov(env, fr, un, *ti, *ei) {
                        Err(k) => Err(k),
                        Ok((fr1, un1, r)) => Ok((fr1, un1, ExpKindV::UpCast(tt, Box::new(r)))),
                    }
                } else {
                    Err(AlgoErrorKind::AntiUnification)
                },
                _ => Err(AlgoErrorKind::AntiUnification),
            },
            ExpKindV::Tuple(ts) => match e.node {
                ExpKindV::Tuple(es) => match ov_exps(env, fr, un, ts, es) {
                    Err(k) => Err(k),
                    Ok((fr1, un1, rs)) => Ok((fr1, un1, ExpKindV::Tuple(rs))),
                },
                _ => Err(AlgoErrorKind::AntiUnification),
            },
            ExpKindV::Case(m, ts) => match e.node {
                ExpKindV::Case(m2, es) => if m == m2 {
                    match ov_exps(env, fr, un, ts, es) {
                        Err(k) => Err(k),
                        Ok((fr1, un1, rs)) => Ok((fr1, un1, ExpKindV::Case(m, rs))),
                    }
                } else {
                    Err(AlgoErrorKind::AntiUnification)
                },
                _ => Err(AlgoErrorKind::AntiUnification),
            },
            ExpKindV::Str(atoms, ts) => match e.node {
                ExpKindV::Str(atoms2, es) => if atoms == atoms2 {
                    match ov_exps(env, fr, un, ts, es) {
                        Err(k) => Err(k),
                        Ok((fr1, un1, rs)) => Ok((fr1, un1, ExpKindV::Str(atoms, rs))),
                    }
                } else {
                    Err(AlgoErrorKind::AntiUnification)
                },
                _ => Err(AlgoErrorKind::AntiUnification),
            },
            _ => Err(AlgoErrorKind::AntiUnification),
        }
    }
}

/// Overlaps two lists of expressions of equal length, left to right.
pub open spec fn ov_exps(env: AEnv, fr: Set<Seq<char>>, un: Set<Seq<char>>, ts: Seq<ExpV>, es: Seq<ExpV>) -> Result<(Set<Seq<char>>, Set<Seq<char>>, Seq<ExpV>), AlgoErrorKind>
    decreases ts, 3nat,
{
    if ts.len() != es.len() {
        Err(AlgoErrorKind::ExpressionArityMismatch { expected: ts.len() as usize, actual: es.len() as usize })
    } else {
        ov_pairs(env, fr, un, ts, es)
    }
}

pub open spec fn ov_pairs(env: AEnv, fr: Set<Seq<char>>, un: Set<Seq<char>>, ts: Seq<ExpV>, es: Seq<ExpV>) -> Result<(Set<Seq<char>>, Set<Seq<char>>, Seq<ExpV>), AlgoErrorKind>
    decreases ts, 2nat,
{
    if ts.len() == 0 || es.len() == 0 {
        Ok((fr, un, Seq::empty()))
    } else {
        match ov_pairs(env, fr, un, ts.drop_last(), es.drop_last()) {
            Err(k) => Err(k),
            Ok((fr1, un1, rs)) => match ov(env, fr1, un1, ts.last(), es.last()) {
                Err(k) => Err(k),
                Ok((fr2, un2, r)) => Ok((fr2, un2, rs.push(r))),
            },
        }
    }
}

/// Overlaps a template with the corresponding expressions of the other
/// rules, in order, starting with no unifier variables.
pub open spec fn across(env: AEnv, fr: Set<Seq<char>>, t: ExpV, es: Seq<ExpV>) -> Result<(Set<Seq<char>>, Set<Seq<char>>, ExpV), AlgoErrorKind>
    decreases es.len(),
{
    if es.len() == 0 {
        Ok((fr, Set::empty(), t))
    } else {
        match across(env, fr, t, es.drop_last()) {
            Err(k) => Err(k),
            Ok((fr1, un1, t1)) => ov(env, fr1, un1, t1, es.last()),
        }
    }
}

/// The position of the first row whose length is not `n`.
pub open spec fn first_mismatch(rows: Seq<Seq<ExpV>>, n: nat) -> Option<int>
    decreases rows.len(),
{
    if rows.len() == 0 {
        None
    } else {
        match first_mismatch(rows.drop_last(), n) {
            Some(j) => Some(j),
            None => if rows.last().len() != n { Some(rows.len() - 1) } else { None },
        }
    }
}

/// The `idx`-th expression of every row.
pub open spec fn column(rows: Seq<Seq<ExpV>>, idx: int) -> Seq<ExpV> {
    Seq::new(rows.len(), |r: int| rows[r][idx])
}

/// The templates of the first `k` columns and the union of their unifier
/// variables.
pub open spec fn columns(env: AEnv, fr: Set<Seq<char>>, head: Seq<ExpV>, tail: Seq<Seq<ExpV>>, k: nat) -> Result<(Set<Seq<char>>, Set<Seq<char>>, Seq<ExpV>), AlgoErrorKind>
    decreases k,
{
    if k == 0 {
        Ok((fr, Set::empty(), Seq::empty()))
    } else {
        match columns(env, fr, head, tail, (k - 1) as nat) {
            Err(e) => Err(e),
            Ok((fr1, un1, ts)) => match across(env, fr1, head[k - 1], column(tail, k - 1)) {
                Err(e) => Err(e),
                Ok((fr2, un2, t)) => Ok((fr2, un1.union(un2), ts.push(t))),
            },
        }
    }
}

/// Overlaps the inputs of all rules column by column: the first rule's
/// inputs are the initial templates.
pub open spec fn across_rows(env: AEnv, fr: Set<Seq<char>>, rows: Seq<Seq<ExpV>>) -> Result<(Set<Seq<char>>, Set<Seq<char>>, Seq<ExpV>), AlgoErrorKind> {
    if rows.len() == 0 {
        Ok((fr, Set::empty(), Seq::empty()))
    } else {
        let head = rows[0];
        let tail = rows.drop_first();
        match first_mismatch(tail, head.len()) {
            Some(j) => Err(AlgoErrorKind::ExpressionArityMismatch { expected: head.len() as usize, actual: tail[j].len() as usize }),
            None => if tail.len() == 0 {
                Ok((fr, Set::empty(), head))
            } else {
                columns(env, fr, head, tail, head.len())
            },
        }
    }
}

// == Population, stated over views

/// The premise `t == e`.
pub open spec fn eq_prem(t: ExpV, e: ExpV) -> PremShape {
    PremShape::If(ExpV { node: ExpKindV::Cmp(CmpOp::Eq, OpTyp::Bool, Box::new(t), Box::new(e)), note: TypV::Bool })
}

/// The premises under which template `t` stands for `e`: one equality for
/// every unifier variable or mismatching part.
pub open spec fn populate(un: Set<Seq<char>>, t: ExpV, e: ExpV) -> Seq<PremShape>
    decreases t, 0nat,
{
    if t == e {
        Seq::empty()
    } else if t.node is Var && un.contains(t.node->Var_0) {
        seq![eq_prem(t, e)]
    } else {
        match t.node {
            ExpKindV::UpCast(tt, ti) => match e.node {
                ExpKindV::UpCast(te, ei) => if tt == te { populate(un, *ti, *ei) } else { seq![eq_prem(t, e)] },
                _ => seq![eq_prem(t, e)],
            },
            ExpKindV::Tuple(ts) => match e.node {
                ExpKindV::Tuple(es) => populate_pairs(un, ts, es, min_len(ts, es)),
                _ => seq![eq_prem(t, e)],
            },
            ExpKindV::Case(m, ts) => match e.node {
                ExpKindV::Case(m2, es) => if m == m2 { populate_pairs(un, ts, es, min_len(ts, es)) } else { seq![eq_prem(t, e)] },
                _ => seq![eq_prem(t, e)],
            },
            ExpKindV::Str(_, ts) => match e.node {
                ExpKindV::Str(_, es) => populate_pairs(un, ts, es, min_len(ts, es)),
                _ => seq![eq_prem(t, e)],
            },
            _ => seq![eq_prem(t, e)],
        }
    }
}

/// The shorter length of two lists.
pub open spec fn min_len(ts: Seq<ExpV>, es: Seq<ExpV>) -> nat {
    if ts.len() <= es.len() { ts.len() } else { es.len() }
}

/// The premises of the first `k` pairs, in order.
pub open spec fn populate_pairs(un: Set<Seq<char>>, ts: Seq<ExpV>, es: Seq<ExpV>, k: nat) -> Seq<PremShape>
    decreases ts, k,
{
    if k == 0 || k > ts.len() || k > es.len() {
        Seq::empty()
    } else {
        populate_pairs(un, ts, es, (k - 1) as nat) + populate(un, ts[k - 1], es[k - 1])
    }
}

/// Template `t` and expression `e` agree in shape wherever populating
/// compares them part by part: unless `t` is a unifier variable, they have
/// one type, and where both are a tuple, a structure with the same fields,
/// a case of one constructor, or an upcast to one type, they have as many
/// parts, which agree in turn.
pub open spec fn compatible(un: Set<Seq<char>>, t: ExpV, e: ExpV) -> bool
    decreases t, 0nat,
{
    (t.node is Var && un.contains(t.node->Var_0)) || (t.note == e.note && match t.node {
        ExpKindV::UpCast(tt, ti) => match e.node {
            ExpKindV::UpCast(te, ei) => tt == te ==> compatible(un, *ti, *ei),
            _ => true,
        },
        ExpKindV::Tuple(ts) => match e.node {
            ExpKindV::Tuple(es) => ts.len() == es.len() && compatibles(un, ts, es, ts.len()),
            _ => true,
        },
        ExpKindV::Case(m, ts) => match e.node {
            ExpKindV::Case(m2, es) => m == m2 ==> (ts.len() == es.len() && compatibles(un, ts, es, ts.len())),
            _ => true,
        },
        ExpKindV::Str(a, ts) => match e.node {
            ExpKindV::Str(b, es) => a == b && ts.len() == es.len() && compatibles(un, ts, es, ts.len()),
            _ => true,
        },
        _ => true,
    })
}

/// The first `k` parts of `ts` and `es` agree in shape.
pub open spec fn compatibles(un: Set<Seq<char>>, ts: Seq<ExpV>, es: Seq<ExpV>, k: nat) -> bool
    decreases ts, k,
{
    if k == 0 || k > ts.len() || k > es.len() {
        k == 0
    } else {
        compatibles(un, ts, es, (k - 1) as nat) && compatible(un, ts[k - 1], es[k - 1])
    }
}

/// A template that differs from the input it stands for yields at least
/// one premise: no rule's inputs are lost in its premises.
pub proof fn lemma_populate_nonempty(un: Set<Seq<char>>, t: ExpV, e: ExpV)
    requires
        compatible(un, t, e),
        t != e,
    ensures
        populate(un, t, e).len() > 0,
    decreases t, 0nat,
{
    if t.node is Var && un.contains(t.node->Var_0) {
    } else {
        match t.node {
            ExpKindV::UpCast(tt, ti) => match e.node {
                ExpKindV::UpCast(te, ei) => if tt == te {
                    lemma_populate_nonempty(un, *ti, *ei);
                },
                _ => {},
            },
            ExpKindV::Tuple(ts) => match e.node {
                ExpKindV::Tuple(es) => {
                    assert(compatibles(un, ts, es, ts.len()));
                    assert(ts != es) by {
                        if ts == es {
                            assert(t.node == e.node);
                        }
                    }
                    lemma_pairs_differ(ts, es);
                    let j = choose|j: int| 0 <= j < ts.len() && ts[j] != es[j];
                    lemma_pairs_nonempty(un, ts, es, ts.len(), j);
                },
                _ => {},
            },
            ExpKindV::Case(m, ts) => match e.node {
                ExpKindV::Case(m2, es) => if m == m2 {
                    assert(compatibles(un, ts, es, ts.len()));
                    assert(ts != es) by {
                        if ts == es {
                            assert(t.node == e.node);
                        }
                    }
                    lemma_pairs_differ(ts, es);
                    let j = choose|j: int| 0 <= j < ts.len() && ts[j] != es[j];
                    lemma_pairs_nonempty(un, ts, es, ts.len(), j);
                },
                _ => {},
            },
            ExpKindV::Str(a, ts) => match e.node {
                ExpKindV::Str(b, es) => {
                    assert(compatibles(un, ts, es, ts.len()));
                    assert(ts != es) by {
                        if ts == es {
                            assert(t.node == e.node);
                        }
                    }
                    lemma_pairs_differ(ts, es);
                    let j = choose|j: int| 0 <= j < ts.len() && ts[j] != es[j];
                    lemma_pairs_nonempty(un, ts, es, ts.len(), j);
                },
                _ => {},
            },
            _ => {},
        }
    }
}

/// Lists of one length that differ, differ at some place.
proof fn lemma_pairs_differ(ts: Seq<ExpV>, es: Seq<ExpV>)
    requires
        ts.len() == es.len(),
        ts != es,
    ensures
        exists|j: int| 0 <= j < ts.len() && ts[j] != es[j],
{
    if !(exists|j: int| 0 <= j < ts.len() && ts[j] != es[j]) {
        assert(ts =~= es);
    }
}

/// Populating the first `k` pairs yields a premise when the `j`-th differ.
proof fn lemma_pairs_nonempty(un: Set<Seq<char>>, ts: Seq<ExpV>, es: Seq<ExpV>, k: nat, j: int)
    requires
        k <= ts.len(),
        ts.len() == es.len(),
        compatibles(un, ts, es, k),
        0 <= j < k,
        ts[j] != es[j],
    ensures
        populate_pairs(un, ts, es, k).len() > 0,
    decreases ts, k,
{
    if j == k - 1 {
        lemma_populate_nonempty(un, ts[j], es[j]);
    } else {
        lemma_pairs_nonempty(un, ts, es, (k - 1) as nat, j);
    }
}

/// Each premise populating yields equates a part of the template with the
/// part of the input at its place, and the two differ: `q` is `a == b` for
/// some `a` occurring in `t`, `b` occurring in `e`, `a != b`.
pub open spec fn premise_of(q: PremShape, t: ExpV, e: ExpV) -> bool {
    exists|a: ExpV, b: ExpV| #[trigger] occurs_flat(a, t) && #[trigger] occurs_flat(b, e) && a != b && q == eq_prem(a, b)
}

/// What occurs in one of a list occurs in the list.
proof fn lemma_occurs_flat_in(s: ExpV, es: Seq<ExpV>, j: int)
    requires
        0 <= j < es.len(),
        occurs_flat(s, es[j]),
    ensures
        occurs_flat_in(s, es),
    decreases es.len(),
{
    if j < es.len() - 1 {
        assert(es.drop_last()[j] == es[j]);
        lemma_occurs_flat_in(s, es.drop_last(), j);
    }
}

/// Every premise that populating yields equates differing parts of the
/// template and of the input, at matching places: none is made up.
pub proof fn lemma_populate_sound(un: Set<Seq<char>>, t: ExpV, e: ExpV, q: PremShape)
    requires
        populate(un, t, e).contains(q),
    ensures
        premise_of(q, t, e),
    decreases t, 0nat,
{
    if t == e {
    } else if t.node is Var && un.contains(t.node->Var_0) {
        assert(populate(un, t, e)[0] == eq_prem(t, e));
        assert(occurs_flat(t, t) && occurs_flat(e, e));
    } else {
        let whole = eq_prem(t, e);
        assert(occurs_flat(t, t) && occurs_flat(e, e));
        match t.node {
            ExpKindV::UpCast(tt, ti) => match e.node {
                ExpKindV::UpCast(te, ei) => if tt == te {
                    lemma_populate_sound(un, *ti, *ei, q);
                    let (a, b) = choose|a: ExpV, b: ExpV| #[trigger] occurs_flat(a, *ti) && #[trigger] occurs_flat(b, *ei) && a != b && q == eq_prem(a, b);
                    assert(occurs_flat(a, t) && occurs_flat(b, e));
                } else {
                    assert(populate(un, t, e)[0] == whole);
                },
                _ => assert(populate(un, t, e)[0] == whole),
            },
            ExpKindV::Tuple(ts) => match e.node {
                ExpKindV::Tuple(es) => {
                    let j = lemma_pairs_sound(un, ts, es, min_len(ts, es), q);
                    let (a, b) = choose|a: ExpV, b: ExpV| #[trigger] occurs_flat(a, ts[j]) && #[trigger] occurs_flat(b, es[j]) && a != b && q == eq_prem(a, b);
                    lemma_occurs_flat_in(a, ts, j);
                    lemma_occurs_flat_in(b, es, j);
                    assert(occurs_flat(a, t) && occurs_flat(b, e));
                },
                _ => assert(populate(un, t, e)[0] == whole),
            },
            ExpKindV::Case(m, ts) => match e.node {
                ExpKindV::Case(m2, es) => if m == m2 {
                    let j = lemma_pairs_sound(un, ts, es, min_len(ts, es), q);
                    let (a, b) = choose|a: ExpV, b: ExpV| #[trigger] occurs_flat(a, ts[j]) && #[trigger] occurs_flat(b, es[j]) && a != b && q == eq_prem(a, b);
                    lemma_occurs_flat_in(a, ts, j);
                    lemma_occurs_flat_in(b, es, j);
                    assert(occurs_flat(a, t) && occurs_flat(b, e));
                } else {
                    assert(populate(un, t, e)[0] == whole);
                },
                _ => assert(populate(un, t, e)[0] == whole),
            },
            ExpKindV::Str(_, ts) => match e.node {
                ExpKindV::Str(_, es) => {
                    let j = lemma_pairs_sound(un, ts, es, min_len(ts, es), q);
                    let (a, b) = choose|a: ExpV, b: ExpV| #[trigger] occurs_flat(a, ts[j]) && #[trigger] occurs_flat(b, es[j]) && a != b && q == eq_prem(a, b);
                    lemma_occurs_flat_in(a, ts, j);
                    lemma_occurs_flat_in(b, es, j);
                    assert(occurs_flat(a, t) && occurs_flat(b, e));
                },
                _ => assert(populate(un, t, e)[0] == whole),
            },
            _ => assert(populate(un, t, e)[0] == whole),
        }
    }
}

/// A premise of the first `k` pairs comes from one pair.
proof fn lemma_pairs_sound(un: Set<Seq<char>>, ts: Seq<ExpV>, es: Seq<ExpV>, k: nat, q: PremShape) -> (j: int)
    requires
        populate_pairs(un, ts, es, k).contains(q),
    ensures
        0 <= j < k && j < ts.len() && j < es.len(),
        premise_of(q, ts[j], es[j]),
    decreases ts, k,
{
    let prev = populate_pairs(un, ts, es, (k - 1) as nat);
    let cur = populate(un, ts[k - 1], es[k - 1]);
    let i = choose|i: int| 0 <= i < populate_pairs(un, ts, es, k).len() && populate_pairs(un, ts, es, k)[i] == q;
    if i < prev.len() {
        assert((prev + cur)[i] == prev[i]);
        assert(prev.contains(q));
        lemma_pairs_sound(un, ts, es, (k - 1) as nat, q)
    } else {
        assert((prev + cur)[i] == cur[i - prev.len()]);
        assert(cur.contains(q));
        lemma_populate_sound(un, ts[k - 1], es[k - 1], q);
        k - 1
    }
}

/// `a` stands in template `t` at the place where `b` stands in `e`: the
/// two are `t` and `e`, or stand so in parts at one position of a tuple, a
/// structure, cases of one constructor, or upcasts to one type.
pub open spec fn aligned(t: ExpV, e: ExpV, a: ExpV, b: ExpV) -> bool
    decreases t, 0nat,
{
    (a == t && b == e) || match t.node {
        ExpKindV::UpCast(tt, ti) => match e.node {
            ExpKindV::UpCast(te, ei) => tt == te && aligned(*ti, *ei, a, b),
            _ => false,
        },
        ExpKindV::Tuple(ts) => match e.node {
            ExpKindV::Tuple(es) => aligned_pairs(ts, es, ts.len(), a, b),
            _ => false,
        },
        ExpKindV::Case(m, ts) => match e.node {
            ExpKindV::Case(m2, es) => m == m2 && aligned_pairs(ts, es, ts.len(), a, b),
            _ => false,
        },
        ExpKindV::Str(_, ts) => match e.node {
            ExpKindV::Str(_, es) => aligned_pairs(ts, es, ts.len(), a, b),
            _ => false,
        },
        _ => false,
    }
}

/// `a` and `b` stand at one place in one of the first `k` pairs.
pub open spec fn aligned_pairs(ts: Seq<ExpV>, es: Seq<ExpV>, k: nat, a: ExpV, b: ExpV) -> bool
    decreases ts, k,
{
    if k == 0 || k > ts.len() || k > es.len() {
        false
    } else {
        aligned_pairs(ts, es, (k - 1) as nat, a, b) || aligned(ts[k - 1], es[k - 1], a, b)
    }
}

/// Template part `a` cannot be matched part by part against `b`: it is a
/// unifier variable, or the two are not a tuple, a structure, cases of one
/// constructor, or upcasts to one type.
pub open spec fn mismatch(un: Set<Seq<char>>, a: ExpV, b: ExpV) -> bool {
    (a.node is Var && un.contains(a.node->Var_0)) || !match a.node {
        ExpKindV::UpCast(ta, _) => b.node matches ExpKindV::UpCast(tb, _) && ta == tb,
        ExpKindV::Tuple(_) => b.node is Tuple,
        ExpKindV::Case(m, _) => b.node matches ExpKindV::Case(m2, _) && m == m2,
        ExpKindV::Str(_, _) => b.node is Str,
        _ => false,
    }
}

/// An expression aligned with itself pairs each part with itself.
proof fn lemma_aligned_same(t: ExpV, a: ExpV, b: ExpV)
    requires
        aligned(t, t, a, b),
    ensures
        a == b,
    decreases t, 0nat,
{
    if !(a == t && b == t) {
        match t.node {
            ExpKindV::UpCast(_, ti) => lemma_aligned_same(*ti, a, b),
            ExpKindV::Tuple(ts) => lemma_aligned_pairs_same(ts, ts.len(), a, b),
            ExpKindV::Case(_, ts) => lemma_aligned_pairs_same(ts, ts.len(), a, b),
            ExpKindV::Str(_, ts) => lemma_aligned_pairs_same(ts, ts.len(), a, b),
            _ => {},
        }
    }
}

proof fn lemma_aligned_pairs_same(ts: Seq<ExpV>, k: nat, a: ExpV, b: ExpV)
    requires
        aligned_pairs(ts, ts, k, a, b),
    ensures
        a == b,
    decreases ts, k,
{
    if aligned_pairs(ts, ts, (k - 1) as nat, a, b) {
        lemma_aligned_pairs_same(ts, (k - 1) as nat, a, b);
    } else {
        lemma_aligned_same(ts[k - 1], a, b);
    }
}

/// Every place where template and input differ and cannot be compared part
/// by part gets its equality among the premises: no condition that tells a
/// rule's inputs apart is lost.
pub proof fn lemma_populate_complete(un: Set<Seq<char>>, t: ExpV, e: ExpV, a: ExpV, b: ExpV)
    requires
        compatible(un, t, e),
        aligned(t, e, a, b),
        a != b,
        mismatch(un, a, b),
    ensures
        populate(un, t, e).contains(eq_prem(a, b)),
    decreases t, 0nat,
{
    if t == e {
        lemma_aligned_same(t, a, b);
    } else if a == t && b == e {
        assert(populate(un, t, e)[0] == eq_prem(a, b));
    } else if t.node is Var && un.contains(t.node->Var_0) {
    } else {
        match t.node {
            ExpKindV::UpCast(tt, ti) => match e.node {
                ExpKindV::UpCast(te, ei) => lemma_populate_complete(un, *ti, *ei, a, b),
                _ => {},
            },
            ExpKindV::Tuple(ts) => match e.node {
                ExpKindV::Tuple(es) => lemma_pairs_complete(un, ts, es, ts.len(), a, b),
                _ => {},
            },
            ExpKindV::Case(m, ts) => match e.node {
                ExpKindV::Case(m2, es) => lemma_pairs_complete(un, ts, es, ts.len(), a, b),
                _ => {},
            },
            ExpKindV::Str(_, ts) => match e.node {
                ExpKindV::Str(_, es) => lemma_pairs_complete(un, ts, es, ts.len(), a, b),
                _ => {},
            },
            _ => {},
        }
    }
}

proof fn lemma_pairs_complete(un: Set<Seq<char>>, ts: Seq<ExpV>, es: Seq<ExpV>, k: nat, a: ExpV, b: ExpV)
    requires
        ts.len() == es.len(),
        k <= ts.len(),
        compatibles(un, ts, es, k),
        aligned_pairs(ts, es, k, a, b),
        a != b,
        mismatch(un, a, b),
    ensures
        populate_pairs(un, ts, es, k).contains(eq_prem(a, b)),
    decreases ts, k,
{
    let q = eq_prem(a, b);
    let prev = populate_pairs(un, ts, es, (k - 1) as nat);
    let cur = populate(un, ts[k - 1], es[k - 1]);
    assert(populate_pairs(un, ts, es, k) == prev + cur);
    if aligned_pairs(ts, es, (k - 1) as nat, a, b) {
        lemma_pairs_complete(un, ts, es, (k - 1) as nat, a, b);
        let i = choose|i: int| 0 <= i < prev.len() && prev[i] == q;
        assert((prev + cur)[i] == q);
    } else {
        lemma_populate_complete(un, ts[k - 1], es[k - 1], a, b);
        let i = choose|i: int| 0 <= i < cur.len() && cur[i] == q;
        assert((prev + cur)[prev.len() + i] == q);
    }
}

/// The views of rows of expressions.
pub open spec fn rows_view(rows: Seq<Vec<Exp>>) -> Seq<Seq<ExpV>> {
    Seq::new(rows.len(), |r: int| exps_view(rows[r]@))
}

/// Templates, unifier variables and, for each rule, its premises.
pub open spec fn anti(env: AEnv, frees: Set<Seq<char>>, rows: Seq<Seq<ExpV>>) -> Result<(Set<Seq<char>>, Seq<ExpV>, Seq<Seq<PremShape>>), AlgoErrorKind> {
    match across_rows(env, frees, rows) {
        Err(k) => Err(k),
        Ok((_, un, ts)) => Ok((un, ts, Seq::new(rows.len(), |r: int| populate_pairs(un, ts, rows[r], min_len(ts, rows[r]))))),
    }
}

// == Overlap

proof fn lemma_ov_pairs_err(env: AEnv, fr: Set<Seq<char>>, un: Set<Seq<char>>, ts: Seq<ExpV>, es: Seq<ExpV>, n: int, k: AlgoErrorKind)
    requires
        0 <= n <= ts.len(),
        ts.len() == es.len(),
        ov_pairs(env, fr, un, ts.take(n), es.take(n)) == Err::<(Set<Seq<char>>, Set<Seq<char>>, Seq<ExpV>), AlgoErrorKind>(k),
    ensures
        ov_pairs(env, fr, un, ts, es) == Err::<(Set<Seq<char>>, Set<Seq<char>>, Seq<ExpV>), AlgoErrorKind>(k),
    decreases ts.len() - n,
{
    if n < ts.len() {
        assert(ts.take(n + 1).drop_last() =~= ts.take(n));
        assert(es.take(n + 1).drop_last() =~= es.take(n));
        lemma_ov_pairs_err(env, fr, un, ts, es, n + 1, k);
    } else {
        assert(ts.take(n) =~= ts);
        assert(es.take(n) =~= es);
    }
}

#[verifier::rlimit(40)]
fn overlap_exp(ctx: &Context, fr: &mut IdSet, un: &mut IdSet, t: &Exp, e: &Exp) -> (r: Result<Exp, AlgoError>)
    requires
        ctx.wf(),
    ensures
        match r {
            Ok(x) => ov(aenv(*ctx), old(fr)@, old(un)@, exp_view(*t), exp_view(*e))
                == Ok::<(Set<Seq<char>>, Set<Seq<char>>, ExpV), AlgoErrorKind>((final(fr)@, final(un)@, exp_view(x))),
            Err(err) => ov(aenv(*ctx), old(fr)@, old(un)@, exp_view(*t), exp_view(*e))
                == Err::<(Set<Seq<char>>, Set<Seq<char>>, ExpV), AlgoErrorKind>(err.kind),
        },
        r is Err ==> *final(fr) == *old(fr) && *final(un) == *old(un),
        r matches Err(err) ==> (err.kind is AntiUnification ==> err.span == e.span),
    decreases t, 1nat,
{
    if exp_eq(t, e) {
        return Ok(clone_exp(t));
    }
    // Fresh names are kept only when the whole structural overlap succeeds
    let mut fr2 = fr.clone_set();
    let mut un2 = un.clone_set();
    match overlap_exp_kind(ctx, &mut fr2, &mut un2, t, e) {
        Ok(k) => {
            *fr = fr2;
            *un = un2;
            return Ok(Exp { node: k, note: clone_typ_kind(&t.note), span: t.span });
        },
        Err(err) => {
            match err.kind {
                AlgoErrorKind::AntiUnification => {},
                AlgoErrorKind::ExpressionArityMismatch { .. } => {},
                _ => return Err(err),
            }
        },
    }
    let typ_t = Typ { node: clone_typ_kind(&t.note), span: t.span };
    let typ_e = Typ { node: clone_typ_kind(&e.note), span: e.span };
    proof {
        assert(typ_view(typ_t) == exp_view(*t).note);
        assert(typ_view(typ_e) == exp_view(*e).note);
    }
    match equiv_typ(ctx, &typ_t, &typ_e) {
        Err(err) => Err(err),
        Ok(eqv) => if !eqv {
            Err(AlgoError::new(AlgoErrorKind::AntiUnification, e.span))
        } else {
            let v = var_from_typ(&ctx.menv, fr, t.span, &typ_t);
            fr.insert(clone_id(&v.id));
            un.insert(clone_id(&v.id));
            Ok(as_exp(&v))
        },
    }
}

#[verifier::rlimit(60)]
fn overlap_exp_kind(ctx: &Context, fr: &mut IdSet, un: &mut IdSet, t: &Exp, e: &Exp) -> (r: Result<ExpKind, AlgoError>)
    requires
        ctx.wf(),
    ensures
        match r {
            Ok(k) => ov_kind(aenv(*ctx), old(fr)@, old(un)@, exp_view(*t), exp_view(*e))
                == Ok::<(Set<Seq<char>>, Set<Seq<char>>, ExpKindV), AlgoErrorKind>((final(fr)@, final(un)@, crate::il::exp_kind_view(k))),
            Err(err) => ov_kind(aenv(*ctx), old(fr)@, old(un)@, exp_view(*t), exp_view(*e))
                == Err::<(Set<Seq<char>>, Set<Seq<char>>, ExpKindV), AlgoErrorKind>(err.kind),
        },
    decreases t, 0nat,
{
    if let ExpKind::Var(x) = &t.node {
        if un.contains(x) {
            return Ok(clone_exp_kind(&t.node));
        }
    }
    match &t.node {
        ExpKind::UpCast(tt, ti) => match &e.node {
            ExpKind::UpCast(te, ei) => if typ_eq(tt, te) {
                match overlap_exp(ctx, fr, un, ti, ei) {
                    Err(err) => Err(err),
                    Ok(r) => Ok(ExpKind::UpCast(clone_typ(tt), Box::new(r))),
                }
            } else {
                Err(AlgoError::new(AlgoErrorKind::AntiUnification, e.span))
            },
            _ => Err(AlgoError::new(AlgoErrorKind::AntiUnification, e.span)),
        },
        ExpKind::Tuple(ts) => match &e.node {
            ExpKind::Tuple(es) => match overlap_exps(ctx, fr, un, ts, es) {
                Err(err) => Err(err),
                Ok(rs) => Ok(ExpKind::Tuple(rs)),
            },
            _ => Err(AlgoError::new(AlgoErrorKind::AntiUnification, e.span)),
        },
        ExpKind::Case(nt) => match &e.node {
            ExpKind::Case(ne) => if mixop_eq(&nt.mixop, &ne.mixop) {
                match overlap_exps(ctx, fr, un, &nt.args, &ne.args) {
                    Err(err) => Err(err),
                    Ok(rs) => Ok(ExpKind::Case(NotExp { mixop: clone_mixop(&nt.mixop), args: rs })),
                }
            } else {
                Err(AlgoError::new(AlgoErrorKind::AntiUnification, e.span))
            },
            _ => Err(AlgoError::new(AlgoErrorKind::AntiUnification, e.span)),
        },
        ExpKind::Str(ft) => match &e.node {
            ExpKind::Str(fe) => if atoms_eq(ft, fe) {
                match overlap_fields(ctx, fr, un, ft, fe) {
                    Err(err) => Err(err),
                    Ok(rs) => Ok(ExpKind::Str(rs)),
                }
            } else {
                Err(AlgoError::new(AlgoErrorKind::AntiUnification, e.span))
            },
            _ => Err(AlgoError::new(AlgoErrorKind::AntiUnification, e.span)),
        },
        _ => Err(AlgoError::new(AlgoErrorKind::AntiUnification, e.span)),
    }
}

/// Whether two records have the same field names in the same order.
fn atoms_eq(a: &Vec<ExpField>, b: &Vec<ExpField>) -> (r: bool)
    ensures
        r == (fields_atoms(a@) == fields_atoms(b@)),
{
    if a.len() != b.len() {
        assert(fields_atoms(a@).len() != fields_atoms(b@).len());
        return false;
    }
    let mut i: usize = 0;
    while i < a.len()
        invariant
            i <= a@.len(),
            a@.len() == b@.len(),
            forall|j: int| 0 <= j < i ==> #[trigger] fields_atoms(a@)[j] == fields_atoms(b@)[j],
        decreases a@.len() - i,
    {
        if a[i].atom != b[i].atom {
            assert(fields_atoms(a@)[i as int] != fields_atoms(b@)[i as int]);
            return false;
        }
        i = i + 1;
    }
    assert(fields_atoms(a@) =~= fields_atoms(b@));
    true
}

fn overlap_exps(ctx: &Context, fr: &mut IdSet, un: &mut IdSet, ts: &Vec<Exp>, es: &Vec<Exp>) -> (r: Result<Vec<Exp>, AlgoError>)
    requires
        ctx.wf(),
    ensures
        match r {
            Ok(v) => ov_exps(aenv(*ctx), old(fr)@, old(un)@, exps_view(ts@), exps_view(es@))
                == Ok::<(Set<Seq<char>>, Set<Seq<char>>, Seq<ExpV>), AlgoErrorKind>((final(fr)@, final(un)@, exps_view(v@))),
            Err(err) => ov_exps(aenv(*ctx), old(fr)@, old(un)@, exps_view(ts@), exps_view(es@))
                == Err::<(Set<Seq<char>>, Set<Seq<char>>, Seq<ExpV>), AlgoErrorKind>(err.kind),
        },
    decreases ts, 3nat,
{
    let ghost env = aenv(*ctx);
    let ghost xs = exps_view(ts@);
    let ghost ys = exps_view(es@);
    proof {
        lemma_exps_view(ts@);
        lemma_exps_view(es@);
    }
    if ts.len() != es.len() {
        let kind = AlgoErrorKind::ExpressionArityMismatch { expected: ts.len(), actual: es.len() };
        return Err(AlgoError::new(kind, Span::none()));
    }
    let ghost fr0 = fr@;
    let ghost un0 = un@;
    let mut out: Vec<Exp> = Vec::new();
    proof {
        assert(xs.take(0) =~= Seq::<ExpV>::empty());
        assert(ys.take(0) =~= Seq::<ExpV>::empty());
        assert(exps_view(out@) =~= Seq::<ExpV>::empty());
    }
    let mut i: usize = 0;
    while i < ts.len()
        invariant
            ctx.wf(),
            i <= ts@.len(),
            ts@.len() == es@.len(),
            env == aenv(*ctx),
            xs == exps_view(ts@),
            ys == exps_view(es@),
            xs.len() == ts@.len(),
            ys.len() == es@.len(),
            forall|j: int| 0 <= j < ts@.len() ==> #[trigger] xs[j] == exp_view(ts@[j]),
            forall|j: int| 0 <= j < es@.len() ==> #[trigger] ys[j] == exp_view(es@[j]),
            fr0 == old(fr)@,
            un0 == old(un)@,
            ov_pairs(env, fr0, un0, xs.take(i as int), ys.take(i as int))
                == Ok::<(Set<Seq<char>>, Set<Seq<char>>, Seq<ExpV>), AlgoErrorKind>((fr@, un@, exps_view(out@))),
        decreases ts@.len() - i,
    {
        proof {
            assert(decreases_to!(ts => ts@[i as int]));
            assert(xs.take(i + 1).drop_last() =~= xs.take(i as int));
            assert(ys.take(i + 1).drop_last() =~= ys.take(i as int));
            assert(xs.take(i + 1).last() == exp_view(ts@[i as int]));
            assert(ys.take(i + 1).last() == exp_view(es@[i as int]));
        }
        match overlap_exp(ctx, fr, un, &ts[i], &es[i]) {
            Err(err) => {
                proof {
                    lemma_ov_pairs_err(env, fr0, un0, xs, ys, i + 1, err.kind);
                }
                return Err(err);
            },
            Ok(x) => {
                proof {
                    lemma_exps_view_push(out@, x);
                }
                out.push(x);
            },
        }
        i = i + 1;
    }
    proof {
        assert(xs.take(ts@.len() as int) =~= xs);
        assert(ys.take(es@.len() as int) =~= ys);
    }
    Ok(out)
}

fn overlap_fields(ctx: &Context, fr: &mut IdSet, un: &mut IdSet, ts: &Vec<ExpField>, es: &Vec<ExpField>) -> (r: Result<Vec<ExpField>, AlgoError>)
    requires
        ctx.wf(),
        fields_atoms(ts@) == fields_atoms(es@),
    ensures
        match r {
            Ok(v) => ov_exps(aenv(*ctx), old(fr)@, old(un)@, fields_view(ts@), fields_view(es@))
                == Ok::<(Set<Seq<char>>, Set<Seq<char>>, Seq<ExpV>), AlgoErrorKind>((final(fr)@, final(un)@, fields_view(v@)))
                && fields_atoms(v@) == fields_atoms(ts@),
            Err(err) => ov_exps(aenv(*ctx), old(fr)@, old(un)@, fields_view(ts@), fields_view(es@))
                == Err::<(Set<Seq<char>>, Set<Seq<char>>, Seq<ExpV>), AlgoErrorKind>(err.kind),
        },
    decreases ts, 3nat,
{
    let ghost env = aenv(*ctx);
    let ghost xs = fields_view(ts@);
    let ghost ys = fields_view(es@);
    proof {
        lemma_fields_view(ts@);
        lemma_fields_view(es@);
        assert(fields_atoms(ts@).len() == ts@.len());
        assert(fields_atoms(es@).len() == es@.len());
    }
    let ghost fr0 = fr@;
    let ghost un0 = un@;
    let mut out: Vec<ExpField> = Vec::new();
    proof {
        assert(xs.take(0) =~= Seq::<ExpV>::empty());
        assert(ys.take(0) =~= Seq::<ExpV>::empty());
        assert(fields_view(out@) =~= Seq::<ExpV>::empty());
        assert(fields_atoms(out@) =~= fields_atoms(ts@.take(0)));
    }
    let mut i: usize = 0;
    while i < ts.len()
        invariant
            ctx.wf(),
            i <= ts@.len(),
            ts@.len() == es@.len(),
            env == aenv(*ctx),
            xs == fields_view(ts@),
            ys == fields_view(es@),
            xs.len() == ts@.len(),
            ys.len() == es@.len(),
            forall|j: int| 0 <= j < ts@.len() ==> #[trigger] xs[j] == exp_view(ts@[j].exp),
            forall|j: int| 0 <= j < es@.len() ==> #[trigger] ys[j] == exp_view(es@[j].exp),
            fr0 == old(fr)@,
            un0 == old(un)@,
            ov_pairs(env, fr0, un0, xs.take(i as int), ys.take(i as int))
                == Ok::<(Set<Seq<char>>, Set<Seq<char>>, Seq<ExpV>), AlgoErrorKind>((fr@, un@, fields_view(out@))),
            fields_atoms(out@) == fields_atoms(ts@.take(i as int)),
        decreases ts@.len() - i,
    {
        proof {
            assert(decreases_to!(ts => ts@[i as int]));
            assert(decreases_to!(ts@[i as int] => ts@[i as int].exp));
            assert(xs.take(i + 1).drop_last() =~= xs.take(i as int));
            assert(ys.take(i + 1).drop_last() =~= ys.take(i as int));
            assert(xs.take(i + 1).last() == exp_view(ts@[i as int].exp));
            assert(ys.take(i + 1).last() == exp_view(es@[i as int].exp));
        }
        let ghost out0 = out@;
        match overlap_exp(ctx, fr, un, &ts[i].exp, &es[i].exp) {
            Err(err) => {
                proof {
                    lemma_ov_pairs_err(env, fr0, un0, xs, ys, i + 1, err.kind);
                }
                return Err(err);
            },
            Ok(x) => {
                let f2 = ExpField { atom: ts[i].atom.clone(), exp: x };
                proof {
                    assert(out0.push(f2).drop_last() =~= out0);
                }
                out.push(f2);
                proof {
                    assert(fields_atoms(out0).len() == i);
                    assert forall|j: int| 0 <= j < i + 1 implies #[trigger] fields_atoms(out@)[j] == fields_atoms(ts@.take(i + 1))[j] by {
                        if j < i {
                            assert(fields_atoms(out0)[j] == fields_atoms(ts@.take(i as int))[j]);
                        }
                    }
                    assert(fields_atoms(out@) =~= fields_atoms(ts@.take(i + 1)));
                }
            },
        }
        i = i + 1;
    }
    proof {
        assert(xs.take(ts@.len() as int) =~= xs);
        assert(ys.take(es@.len() as int) =~= ys);
        assert(ts@.take(ts@.len() as int) =~= ts@);
    }
    Ok(out)
}

// == Overlap across rules

proof fn lemma_across_err(env: AEnv, fr: Set<Seq<char>>, t: ExpV, es: Seq<ExpV>, n: int, k: AlgoErrorKind)
    requires
        0 <= n <= es.len(),
        across(env, fr, t, es.take(n)) == Err::<(Set<Seq<char>>, Set<Seq<char>>, ExpV), AlgoErrorKind>(k),
    ensures
        across(env, fr, t, es) == Err::<(Set<Seq<char>>, Set<Seq<char>>, ExpV), AlgoErrorKind>(k),
    decreases es.len() - n,
{
    if n < es.len() {
        assert(es.take(n + 1).drop_last() =~= es.take(n));
        lemma_across_err(env, fr, t, es, n + 1, k);
    } else {
        assert(es.take(n) =~= es);
    }
}

/// Overlaps a template with the expression at column `idx` of every row.
fn overlap_exp_across_rules(ctx: &Context, fr: &mut IdSet, t: &Exp, rows: &Vec<Vec<Exp>>, idx: usize) -> (r: Result<(IdSet, Exp), AlgoError>)
    requires
        ctx.wf(),
        forall|j: int| 0 <= j < rows@.len() ==> idx < (#[trigger] rows@[j])@.len(),
    ensures
        match r {
            Ok((un, x)) => across(aenv(*ctx), old(fr)@, exp_view(*t), column(rows_view(rows@), idx as int))
                == Ok::<(Set<Seq<char>>, Set<Seq<char>>, ExpV), AlgoErrorKind>((final(fr)@, un@, exp_view(x))),
            Err(err) => across(aenv(*ctx), old(fr)@, exp_view(*t), column(rows_view(rows@), idx as int))
                == Err::<(Set<Seq<char>>, Set<Seq<char>>, ExpV), AlgoErrorKind>(err.kind),
        },
{
    let ghost env = aenv(*ctx);
    let ghost col = column(rows_view(rows@), idx as int);
    let ghost fr0 = fr@;
    let mut un = IdSet::new();
    let mut template = clone_exp(t);
    proof {
        assert(col.take(0) =~= Seq::<ExpV>::empty());
    }
    let mut i: usize = 0;
    while i < rows.len()
        invariant
            ctx.wf(),
            i <= rows@.len(),
            env == aenv(*ctx),
            col == column(rows_view(rows@), idx as int),
            fr0 == old(fr)@,
            forall|j: int| 0 <= j < rows@.len() ==> idx < (#[trigger] rows@[j])@.len(),
            across(env, fr0, exp_view(*t), col.take(i as int))
                == Ok::<(Set<Seq<char>>, Set<Seq<char>>, ExpV), AlgoErrorKind>((fr@, un@, exp_view(template))),
        decreases rows@.len() - i,
    {
        let row = &rows[i];
        proof {
            lemma_exps_view(row@);
            assert(col.take(i + 1).drop_last() =~= col.take(i as int));
            assert(col.take(i + 1).last() == exp_view(row@[idx as int]));
        }
        match overlap_exp(ctx, fr, &mut un, &template, &row[idx]) {
            Err(err) => {
                proof {
                    lemma_across_err(env, fr0, exp_view(*t), col, i + 1, err.kind);
                }
                return Err(err);
            },
            Ok(x) => {
                template = x;
            },
        }
        i = i + 1;
    }
    proof {
        assert(col.take(rows@.len() as int) =~= col);
    }
    Ok((un, template))
}

proof fn lemma_columns_err(env: AEnv, fr: Set<Seq<char>>, head: Seq<ExpV>, tail: Seq<Seq<ExpV>>, k: nat, n: nat, e: AlgoErrorKind)
    requires
        k <= n,
        columns(env, fr, head, tail, k) == Err::<(Set<Seq<char>>, Set<Seq<char>>, Seq<ExpV>), AlgoErrorKind>(e),
    ensures
        columns(env, fr, head, tail, n) == Err::<(Set<Seq<char>>, Set<Seq<char>>, Seq<ExpV>), AlgoErrorKind>(e),
    decreases n - k,
{
    if k < n {
        lemma_columns_err(env, fr, head, tail, k, (n - 1) as nat, e);
    }
}

/// The rows after the first one.
fn tail_rows(rows: &Vec<Vec<Exp>>) -> (r: Vec<Vec<Exp>>)
    requires
        rows@.len() > 0,
    ensures
        rows_view(r@) == rows_view(rows@).drop_first(),
        r@.len() == rows@.len() - 1,
        forall|j: int| 0 <= j < r@.len() ==> (#[trigger] r@[j])@.len() == rows@[j + 1]@.len(),
{
    let mut r: Vec<Vec<Exp>> = Vec::new();
    let mut i: usize = 1;
    while i < rows.len()
        invariant
            1 <= i <= rows@.len(),
            r@.len() == i - 1,
            forall|j: int| 0 <= j < r@.len() ==> exps_view((#[trigger] r@[j])@) == exps_view(rows@[j + 1]@) && r@[j]@.len() == rows@[j + 1]@.len(),
        decreases rows@.len() - i,
    {
        let mut row: Vec<Exp> = Vec::new();
        let src = &rows[i];
        for j in 0..src.len()
            invariant
                1 <= i < rows@.len(),
                *src == rows@[i as int],
                row@.len() == j,
                forall|a: int| 0 <= a < j ==> exp_view(#[trigger] row@[a]) == exp_view(rows@[i as int]@[a]),
        {
            row.push(clone_exp(&src[j]));
        }
        proof {
            lemma_exps_view(row@);
            lemma_exps_view(rows@[i as int]@);
            assert(exps_view(row@) =~= exps_view(rows@[i as int]@));
        }
        r.push(row);
        i = i + 1;
    }
    assert(rows_view(r@) =~= rows_view(rows@).drop_first());
    r
}

/// Overlaps the inputs of all rules column by column; the first rule's inputs
/// are the initial templates.
fn overlap_exps_across_rules(ctx: &Context, fr: &mut IdSet, rows: &Vec<Vec<Exp>>) -> (r: Result<(IdSet, Vec<Exp>), AlgoError>)
    requires
        ctx.wf(),
    ensures
        match r {
            Ok((un, ts)) => across_rows(aenv(*ctx), old(fr)@, rows_view(rows@))
                == Ok::<(Set<Seq<char>>, Set<Seq<char>>, Seq<ExpV>), AlgoErrorKind>((final(fr)@, un@, exps_view(ts@))),
            Err(err) => across_rows(aenv(*ctx), old(fr)@, rows_view(rows@))
                == Err::<(Set<Seq<char>>, Set<Seq<char>>, Seq<ExpV>), AlgoErrorKind>(err.kind),
        },
{
    let ghost env = aenv(*ctx);
    let ghost rv = rows_view(rows@);
    if rows.len() == 0 {
        proof {
            assert(exps_view(Seq::<Exp>::empty()) =~= Seq::<ExpV>::empty());
        }
        return Ok((IdSet::new(), Vec::new()));
    }
    let head = &rows[0];
    let tail = tail_rows(rows);
    let ghost tv = rows_view(tail@);
    let n = head.len();
    proof {
        lemma_exps_view(head@);
        assert(rv[0] == exps_view(head@));
        assert(tv.len() == tail@.len());
        assert forall|j: int| 0 <= j < tv.len() implies (#[trigger] tv[j]).len() == tail@[j]@.len() by {
            lemma_exps_view(tail@[j]@);
        }
        assert(rv.drop_first() == tv);
        assert(rv[0].len() == n);
    }
    // Every rule has as many inputs as the first
    let mut j: usize = 0;
    while j < tail.len()
        invariant
            j <= tail@.len(),
            tv == rows_view(tail@),
            tv.len() == tail@.len(),
            forall|a: int| 0 <= a < tv.len() ==> (#[trigger] tv[a]).len() == tail@[a]@.len(),
            n == head@.len(),
            first_mismatch(tv.take(j as int), n as nat) is None,
            rows@.len() > 0,
            rv == rows_view(rows@),
            rv.drop_first() == tv,
            rv[0].len() == n,
        decreases tail@.len() - j,
    {
        proof {
            assert(tv.take(j + 1).drop_last() =~= tv.take(j as int));
            assert(tv.take(j + 1).last() == tv[j as int]);
        }
        if tail[j].len() != n {
            proof {
                assert(first_mismatch(tv.take(j + 1), n as nat) == Some(j as int));
                lemma_first_mismatch_prefix(tv, j + 1, n as nat);
            }
            let kind = AlgoErrorKind::ExpressionArityMismatch { expected: n, actual: tail[j].len() };
            return Err(AlgoError::new(kind, Span::none()));
        }
        j = j + 1;
    }
    proof {
        assert(tv.take(tail@.len() as int) =~= tv);
        lemma_first_mismatch_none(tv, n as nat);
        assert forall|a: int| 0 <= a < tail@.len() implies (#[trigger] tail@[a])@.len() == n by {
            assert(tv[a].len() == n);
        }
    }
    if tail.len() == 0 {
        let mut ts: Vec<Exp> = Vec::new();
        for k in 0..n
            invariant
                n == head@.len(),
                ts@.len() == k,
                forall|a: int| 0 <= a < k ==> exp_view(#[trigger] ts@[a]) == exp_view(head@[a]),
        {
            ts.push(clone_exp(&head[k]));
        }
        proof {
            lemma_exps_view(ts@);
            assert(exps_view(ts@) =~= exps_view(head@));
        }
        return Ok((IdSet::new(), ts));
    }
    let ghost fr0 = fr@;
    let mut un = IdSet::new();
    let mut ts: Vec<Exp> = Vec::new();
    proof {
        assert(exps_view(ts@) =~= Seq::<ExpV>::empty());
    }
    let mut k: usize = 0;
    while k < n
        invariant
            ctx.wf(),
            k <= n,
            n == head@.len(),
            env == aenv(*ctx),
            tv == rows_view(tail@),
            tv.len() == tail@.len(),
            forall|a: int| 0 <= a < tail@.len() ==> (#[trigger] tail@[a])@.len() == n,
            fr0 == old(fr)@,
            rows@.len() > 0,
            rv == rows_view(rows@),
            rv.drop_first() == tv,
            rv[0] == exps_view(head@),
            exps_view(head@).len() == n,
            first_mismatch(tv, n as nat) is None,
            tail@.len() > 0,
            forall|a: int| 0 <= a < n ==> #[trigger] exps_view(head@)[a] == exp_view(head@[a]),
            columns(env, fr0, exps_view(head@), tv, k as nat)
                == Ok::<(Set<Seq<char>>, Set<Seq<char>>, Seq<ExpV>), AlgoErrorKind>((fr@, un@, exps_view(ts@))),
        decreases n - k,
    {
        match overlap_exp_across_rules(ctx, fr, &head[k], &tail, k) {
            Err(err) => {
                proof {
                    lemma_columns_err(env, fr0, exps_view(head@), tv, (k + 1) as nat, n as nat, err.kind);
                }
                return Err(err);
            },
            Ok((un_k, t)) => {
                un.insert_all(&un_k);
                proof {
                    lemma_exps_view_push(ts@, t);
                }
                ts.push(t);
            },
        }
        k = k + 1;
    }
    proof {
        assert(rv.drop_first() == tv);
    }
    Ok((un, ts))
}

proof fn lemma_first_mismatch_none(rows: Seq<Seq<ExpV>>, n: nat)
    requires
        first_mismatch(rows, n) is None,
    ensures
        forall|a: int| 0 <= a < rows.len() ==> (#[trigger] rows[a]).len() == n,
    decreases rows.len(),
{
    if rows.len() > 0 {
        lemma_first_mismatch_none(rows.drop_last(), n);
        assert forall|a: int| 0 <= a < rows.len() implies (#[trigger] rows[a]).len() == n by {
            if a < rows.len() - 1 {
                assert(rows.drop_last()[a] == rows[a]);
            }
        }
    }
}

proof fn lemma_first_mismatch_prefix(rows: Seq<Seq<ExpV>>, k: int, n: nat)
    requires
        0 <= k <= rows.len(),
        first_mismatch(rows.take(k), n) is Some,
    ensures
        first_mismatch(rows, n) == first_mismatch(rows.take(k), n),
    decreases rows.len() - k,
{
    if k < rows.len() {
        assert(rows.take(k + 1).drop_last() =~= rows.take(k));
        lemma_first_mismatch_prefix(rows, k + 1, n);
    } else {
        assert(rows.take(k) =~= rows);
    }
}

// == Template population

/// `t == e`, located over both.
fn populate_equality_prem(t: &Exp, e: &Exp) -> (p: Prem)
    ensures
        p@ == eq_prem(exp_view(*t), exp_view(*e)),
{
    let lo = if t.span.lo <= e.span.lo { t.span.lo } else { e.span.lo };
    let hi = if t.span.hi >= e.span.hi { t.span.hi } else { e.span.hi };
    let span = Span { lo, hi };
    let exp = Exp {
        node: ExpKind::Cmp(CmpOp::Eq, OpTyp::Bool, Box::new(clone_exp(t)), Box::new(clone_exp(e))),
        note: TypKind::Bool,
        span,
    };
    proof {
        assert(typ_kind_view(TypKind::Bool) == TypV::Bool);
    }
    Prem { node: PremKind::If(IfPrem { exp }), span }
}

fn one_prem(p: Prem) -> (v: Vec<Prem>)
    ensures
        prems_view(v@) == seq![p@],
{
    let mut v: Vec<Prem> = Vec::new();
    v.push(p);
    assert(prems_view(v@) =~= seq![p@]);
    v
}

fn populate_exp(un: &IdSet, t: &Exp, e: &Exp) -> (r: Vec<Prem>)
    ensures
        prems_view(r@) == populate(un@, exp_view(*t), exp_view(*e)),
    decreases t, 0nat,
{
    if exp_eq(t, e) {
        let r: Vec<Prem> = Vec::new();
        assert(prems_view(r@) =~= Seq::<PremShape>::empty());
        return r;
    }
    if let ExpKind::Var(x) = &t.node {
        if un.contains(x) {
            return one_prem(populate_equality_prem(t, e));
        }
    }
    match &t.node {
        ExpKind::UpCast(tt, ti) => match &e.node {
            ExpKind::UpCast(te, ei) => if typ_eq(tt, te) {
                populate_exp(un, ti, ei)
            } else {
                one_prem(populate_equality_prem(t, e))
            },
            _ => one_prem(populate_equality_prem(t, e)),
        },
        ExpKind::Tuple(ts) => match &e.node {
            ExpKind::Tuple(es) => populate_exps(un, ts, es),
            _ => one_prem(populate_equality_prem(t, e)),
        },
        ExpKind::Case(nt) => match &e.node {
            ExpKind::Case(ne) => if mixop_eq(&nt.mixop, &ne.mixop) {
                populate_exps(un, &nt.args, &ne.args)
            } else {
                one_prem(populate_equality_prem(t, e))
            },
            _ => one_prem(populate_equality_prem(t, e)),
        },
        ExpKind::Str(ft) => match &e.node {
            ExpKind::Str(fe) => populate_fields(un, ft, fe),
            _ => one_prem(populate_equality_prem(t, e)),
        },
        _ => one_prem(populate_equality_prem(t, e)),
    }
}

fn populate_exps(un: &IdSet, ts: &Vec<Exp>, es: &Vec<Exp>) -> (r: Vec<Prem>)
    ensures
        prems_view(r@) == populate_pairs(un@, exps_view(ts@), exps_view(es@), min_len(exps_view(ts@), exps_view(es@))),
    decreases ts, 1nat,
{
    let ghost xs = exps_view(ts@);
    let ghost ys = exps_view(es@);
    proof {
        lemma_exps_view(ts@);
        lemma_exps_view(es@);
    }
    let n = if ts.len() <= es.len() { ts.len() } else { es.len() };
    let mut r: Vec<Prem> = Vec::new();
    proof {
        assert(prems_view(r@) =~= Seq::<PremShape>::empty());
    }
    let mut k: usize = 0;
    while k < n
        invariant
            k <= n,
            n == min_len(xs, ys),
            n <= ts@.len(),
            n <= es@.len(),
            xs == exps_view(ts@),
            ys == exps_view(es@),
            xs.len() == ts@.len(),
            ys.len() == es@.len(),
            forall|j: int| 0 <= j < ts@.len() ==> #[trigger] xs[j] == exp_view(ts@[j]),
            forall|j: int| 0 <= j < es@.len() ==> #[trigger] ys[j] == exp_view(es@[j]),
            prems_view(r@) == populate_pairs(un@, xs, ys, k as nat),
        decreases n - k,
    {
        proof {
            assert(decreases_to!(ts => ts@[k as int]));
        }
        let mut v = populate_exp(un, &ts[k], &es[k]);
        let ghost p0 = prems_view(r@);
        let ghost pv = prems_view(v@);
        r.append(&mut v);
        proof {
            assert(prems_view(r@) =~= p0 + pv);
        }
        k = k + 1;
    }
    r
}

fn populate_fields(un: &IdSet, ts: &Vec<ExpField>, es: &Vec<ExpField>) -> (r: Vec<Prem>)
    ensures
        prems_view(r@) == populate_pairs(un@, fields_view(ts@), fields_view(es@), min_len(fields_view(ts@), fields_view(es@))),
    decreases ts, 1nat,
{
    let ghost xs = fields_view(ts@);
    let ghost ys = fields_view(es@);
    proof {
        lemma_fields_view(ts@);
        lemma_fields_view(es@);
    }
    let n = if ts.len() <= es.len() { ts.len() } else { es.len() };
    let mut r: Vec<Prem> = Vec::new();
    proof {
        assert(prems_view(r@) =~= Seq::<PremShape>::empty());
    }
    let mut k: usize = 0;
    while k < n
        invariant
            k <= n,
            n == min_len(xs, ys),
            n <= ts@.len(),
            n <= es@.len(),
            xs == fields_view(ts@),
            ys == fields_view(es@),
            xs.len() == ts@.len(),
            ys.len() == es@.len(),
            forall|j: int| 0 <= j < ts@.len() ==> #[trigger] xs[j] == exp_view(ts@[j].exp),
            forall|j: int| 0 <= j < es@.len() ==> #[trigger] ys[j] == exp_view(es@[j].exp),
            prems_view(r@) == populate_pairs(un@, xs, ys, k as nat),
        decreases n - k,
    {
        proof {
            assert(decreases_to!(ts => ts@[k as int]));
            assert(decreases_to!(ts@[k as int] => ts@[k as int].exp));
        }
        let mut v = populate_exp(un, &ts[k].exp, &es[k].exp);
        let ghost p0 = prems_view(r@);
        let ghost pv = prems_view(v@);
        r.append(&mut v);
        proof {
            assert(prems_view(r@) =~= p0 + pv);
        }
        k = k + 1;
    }
    r
}

/// The premises of each rows' premises.
pub open spec fn prem_rows_view(rows: Seq<Vec<Prem>>) -> Seq<Seq<PremShape>> {
    Seq::new(rows.len(), |r: int| prems_view(rows[r]@))
}

/// Anti-unifies the inputs of several rules: returns the shared templates
/// and, for each rule, the premises under which the templates stand for its
/// inputs; the template variables are recorded as in use.
pub fn antiunify(ctx: &mut Context, exps_by_rule: Vec<Vec<Exp>>) -> (r: Result<(Vec<Exp>, Vec<Vec<Prem>>), AlgoError>)
    requires
        old(ctx).wf(),
    ensures
        crate::algo::multiple::ctx_kept(*old(ctx), *final(ctx)),
        match r {
            Ok((ts, ps)) => {
                let a = anti(aenv(*old(ctx)), old(ctx).frees@, rows_view(exps_by_rule@));
                &&& a is Ok
                &&& exps_view(ts@) == a->Ok_0.1
                &&& prem_rows_view(ps@) == a->Ok_0.2
                &&& final(ctx).frees@ == old(ctx).frees@.union(a->Ok_0.0)
            },
            Err(err) => anti(aenv(*old(ctx)), old(ctx).frees@, rows_view(exps_by_rule@))
                == Err::<(Set<Seq<char>>, Seq<ExpV>, Seq<Seq<PremShape>>), AlgoErrorKind>(err.kind)
                && *final(ctx) == *old(ctx)
                && final(ctx).frees@ == old(ctx).frees@,
        },
{
    let ghost rv = rows_view(exps_by_rule@);
    let mut ids_free = ctx.frees.clone_set();
    let (un, templates) = match overlap_exps_across_rules(ctx, &mut ids_free, &exps_by_rule) {
        Ok(x) => x,
        Err(e) => return Err(e),
    };
    let mut prems_by_rule: Vec<Vec<Prem>> = Vec::new();
    let mut i: usize = 0;
    while i < exps_by_rule.len()
        invariant
            i <= exps_by_rule@.len(),
            rv == rows_view(exps_by_rule@),
            prems_by_rule@.len() == i,
            forall|j: int| 0 <= j < i ==> prems_view((#[trigger] prems_by_rule@[j])@)
                == populate_pairs(un@, exps_view(templates@), rv[j], min_len(exps_view(templates@), rv[j])),
        decreases exps_by_rule@.len() - i,
    {
        let v = populate_exps(&un, &templates, &exps_by_rule[i]);
        prems_by_rule.push(v);
        i = i + 1;
    }
    ctx.add_frees(&un);
    proof {
        let a = anti(aenv(*old(ctx)), old(ctx).frees@, rv);
        assert(prem_rows_view(prems_by_rule@) =~= a->Ok_0.2);
    }
    Ok((templates, prems_by_rule))
}

// == Laws

proof fn lemma_across_same(env: AEnv, fr: Set<Seq<char>>, t: ExpV, es: Seq<ExpV>)
    requires
        forall|i: int| 0 <= i < es.len() ==> es[i] == t,
    ensures
        across(env, fr, t, es) == Ok::<(Set<Seq<char>>, Set<Seq<char>>, ExpV), AlgoErrorKind>((fr, Set::empty(), t)),
    decreases es.len(),
{
    if es.len() > 0 {
        lemma_across_same(env, fr, t, es.drop_last());
        assert(es.last() == t);
    }
}

proof fn lemma_columns_same(env: AEnv, fr: Set<Seq<char>>, head: Seq<ExpV>, tail: Seq<Seq<ExpV>>, k: nat)
    requires
        k <= head.len(),
        forall|r: int| 0 <= r < tail.len() ==> tail[r] == head,
    ensures
        columns(env, fr, head, tail, k)
            == Ok::<(Set<Seq<char>>, Set<Seq<char>>, Seq<ExpV>), AlgoErrorKind>((fr, Set::empty(), head.take(k as int))),
    decreases k,
{
    if k > 0 {
        lemma_columns_same(env, fr, head, tail, (k - 1) as nat);
        let col = column(tail, k - 1);
        assert forall|i: int| 0 <= i < col.len() implies col[i] == head[k - 1] by {
            assert(tail[i] == head);
        }
        lemma_across_same(env, fr, head[k - 1], col);
        assert(Set::<Seq<char>>::empty().union(Set::empty()) =~= Set::empty());
        assert(head.take(k - 1).push(head[k - 1]) =~= head.take(k as int));
    } else {
        assert(head.take(0) =~= Seq::<ExpV>::empty());
    }
}

proof fn lemma_first_mismatch_same(rows: Seq<Seq<ExpV>>, n: nat)
    requires
        forall|r: int| 0 <= r < rows.len() ==> (#[trigger] rows[r]).len() == n,
    ensures
        first_mismatch(rows, n) is None,
    decreases rows.len(),
{
    if rows.len() > 0 {
        lemma_first_mismatch_same(rows.drop_last(), n);
        assert(rows.last() == rows[rows.len() - 1]);
    }
}

proof fn lemma_populate_pairs_same(un: Set<Seq<char>>, ts: Seq<ExpV>, k: nat)
    ensures
        populate_pairs(un, ts, ts, k) == Seq::<PremShape>::empty(),
    decreases k,
{
    if k > 0 && k <= ts.len() {
        lemma_populate_pairs_same(un, ts, (k - 1) as nat);
        assert(populate(un, ts[k - 1], ts[k - 1]) == Seq::<PremShape>::empty());
        assert(Seq::<PremShape>::empty() + Seq::<PremShape>::empty() =~= Seq::<PremShape>::empty());
    }
}

/// Rules whose inputs all agree need no anti-unification: the templates
/// are those inputs, no unifier variable is introduced, and no rule gets a
/// premise.
pub proof fn lemma_anti_identical_rows(env: AEnv, frees: Set<Seq<char>>, rows: Seq<Seq<ExpV>>)
    requires
        rows.len() > 0,
        forall|r: int| 0 <= r < rows.len() ==> #[trigger] rows[r] == rows[0],
    ensures
        anti(env, frees, rows) == Ok::<(Set<Seq<char>>, Seq<ExpV>, Seq<Seq<PremShape>>), AlgoErrorKind>(
            (Set::empty(), rows[0], Seq::new(rows.len(), |r: int| Seq::<PremShape>::empty()))),
{
    let head = rows[0];
    let tail = rows.drop_first();
    assert forall|r: int| 0 <= r < tail.len() implies tail[r] == head by {
        assert(tail[r] == rows[r + 1]);
    }
    lemma_first_mismatch_same(tail, head.len());
    if tail.len() > 0 {
        lemma_columns_same(env, frees, head, tail, head.len());
        assert(head.take(head.len() as int) =~= head);
    }
    lemma_populate_pairs_same(Set::empty(), head, head.len());
    let a = anti(env, frees, rows);
    assert(a->Ok_0.2 =~= Seq::new(rows.len(), |r: int| Seq::<PremShape>::empty())) by {
        assert forall|r: int| 0 <= r < rows.len() implies a->Ok_0.2[r] == Seq::<PremShape>::empty() by {
            assert(rows[r] == head);
            assert(min_len(head, head) == head.len());
        }
    }
}

} // verus!
