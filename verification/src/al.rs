//! Premises of the algorithmic language.

use vstd::prelude::*;
use crate::span::Span;
use crate::il::{Arg, Exp, Id, Iter, NotExp, Var, ExpV, VarV, exp_view, exps_view, vars_view, mixop_view};
use crate::il_typ::{clone_id, clone_mixop, clone_vars, mixop_eq};
use crate::il_exp::{clone_exp, clone_exps, exp_eq, exps_eq, vars_eq};
use crate::il_free::{exp_free, exps_free, free, free_exp, free_exps};
use crate::ids::IdSet;

verus! {

/// A premise with its location.
pub struct Prem {
    pub node: PremKind,
    pub span: Span,
}

/// A relation application.
pub struct RulePrem {
    pub id: Id,
    pub not_exp: NotExp,
}

/// A condition.
pub struct IfPrem {
    pub exp: Exp,
}

/// A binding of the free variables of `exp_l` by matching `exp_r`.
pub struct LetPrem {
    pub exp_l: Exp,
    pub exp_r: Exp,
}

/// The iteration of a premise, with the variables it ranges over and binds.
pub struct PremIter {
    pub iter: Iter,
    pub vars_bound: Vec<Var>,
    pub vars_bind: Vec<Var>,
}

/// An iterated premise.
pub struct IterPrem {
    pub prem: Box<Prem>,
    pub prem_iter: PremIter,
}

/// Premises of the algorithmic language.
pub enum PremKind {
    Rule(RulePrem),
    If(IfPrem),
    IfHold(RulePrem),
    IfNotHold(RulePrem),
    Let(LetPrem),
    Iter(IterPrem),
    Debug(IfPrem),
}

/// Premises without locations.
pub enum PremShape {
    Rule(Seq<char>, Seq<Seq<Seq<char>>>, Seq<ExpV>),
    If(ExpV),
    IfHold(Seq<char>, Seq<Seq<Seq<char>>>, Seq<ExpV>),
    IfNotHold(Seq<char>, Seq<Seq<Seq<char>>>, Seq<ExpV>),
    Let(ExpV, ExpV),
    Iter(Box<PremShape>, Iter, Seq<VarV>, Seq<VarV>),
    Debug(ExpV),
}

pub open spec fn prem_shape(p: Prem) -> PremShape
    decreases p,
{
    match p.node {
        PremKind::Rule(r) => PremShape::Rule(r.id@, mixop_view(r.not_exp.mixop), exps_view(r.not_exp.args@)),
        PremKind::If(i) => PremShape::If(exp_view(i.exp)),
        PremKind::IfHold(r) => PremShape::IfHold(r.id@, mixop_view(r.not_exp.mixop), exps_view(r.not_exp.args@)),
        PremKind::IfNotHold(r) => PremShape::IfNotHold(r.id@, mixop_view(r.not_exp.mixop), exps_view(r.not_exp.args@)),
        PremKind::Let(l) => PremShape::Let(exp_view(l.exp_l), exp_view(l.exp_r)),
        PremKind::Iter(it) => PremShape::Iter(
            Box::new(prem_shape(*it.prem)),
            it.prem_iter.iter,
            vars_view(it.prem_iter.vars_bound@),
            vars_view(it.prem_iter.vars_bind@),
        ),
        PremKind::Debug(d) => PremShape::Debug(exp_view(d.exp)),
    }
}

impl View for Prem {
    type V = PremShape;

    open spec fn view(&self) -> PremShape {
        prem_shape(*self)
    }
}

// == Definitions

/// The shared part of a rule group: the anti-unified signature of its
/// inputs, the input patterns as bound, and the premises that match them.
pub struct RuleMatch {
    pub exps_signature: Vec<Exp>,
    pub exps_input: Vec<Exp>,
    pub prems: Vec<Prem>,
}

/// One path through a rule group: its premises and its outputs.
pub struct RulePath {
    pub prems: Vec<Prem>,
    pub exps_output: Vec<Exp>,
}

/// A group of rules of a relation sharing their input match.
pub struct RuleGroup {
    pub id: Id,
    pub rule_match: RuleMatch,
    pub rule_paths: Vec<RulePath>,
    pub span: Span,
}

/// The `otherwise` group of a relation.
pub struct ElseGroup {
    pub rule_match: RuleMatch,
    pub rule_path: RulePath,
    pub span: Span,
}

/// A function clause: its argument patterns, premises and result.
pub struct Clause {
    pub args: Vec<Arg>,
    pub premises: Vec<Prem>,
    pub expression: Exp,
    pub span: Span,
}

/// A row of a decision table: the patterns it matches, its arguments as
/// bound, its result and the premises its bindings need.
pub struct TableRow {
    pub exps_signature: Vec<Exp>,
    pub args: Vec<Arg>,
    pub exp: Exp,
    pub prems: Vec<Prem>,
    pub span: Span,
}

/// A relation with its rule groups.
pub struct RelDef {
    pub id: Id,
    pub rule_groups: Vec<RuleGroup>,
    pub else_group: Option<ElseGroup>,
}

/// A declared function with its clauses.
pub struct FuncDecDef {
    pub id: Id,
    pub clauses: Vec<Clause>,
    pub else_clause: Option<Clause>,
}

/// Definitions of the algorithmic language; those without premises are kept by name.
pub enum DefKind {
    Rel(RelDef),
    FuncDec(FuncDecDef),
    Other(Id),
}

/// A definition with its location.
pub struct Def {
    pub node: DefKind,
    pub span: Span,
}

// == Operations on premises

/// The premises' views.
pub open spec fn prems_view(s: Seq<Prem>) -> Seq<PremShape> {
    Seq::new(s.len(), |i: int| s[i]@)
}


/// The names of the variables occurring in a premise.
pub open spec fn prem_free(p: Prem) -> Set<Seq<char>>
    decreases p,
{
    match p.node {
        PremKind::Rule(r) => exps_free(r.not_exp.args@),
        PremKind::If(i) => exp_free(i.exp),
        PremKind::IfHold(r) => exps_free(r.not_exp.args@),
        PremKind::IfNotHold(r) => exps_free(r.not_exp.args@),
        PremKind::Let(l) => exp_free(l.exp_l).union(exp_free(l.exp_r)),
        PremKind::Iter(it) => prem_free(*it.prem),
        PremKind::Debug(d) => exp_free(d.exp),
    }
}

/// The variables occurring in a premise.
pub fn free_prem(p: &Prem) -> (s: IdSet)
    ensures
        s@ == prem_free(*p),
    decreases p,
{
    match &p.node {
        PremKind::Rule(r) | PremKind::IfHold(r) | PremKind::IfNotHold(r) => {
            let mut acc = IdSet::new();
            free_exps(&r.not_exp.args, &mut acc);
            assert(acc@ =~= exps_free(r.not_exp.args@));
            acc
        },
        PremKind::If(i) | PremKind::Debug(i) => free(&i.exp),
        PremKind::Let(l) => {
            let mut acc = free(&l.exp_l);
            free_exp(&l.exp_r, &mut acc);
            acc
        },
        PremKind::Iter(it) => free_prem(&it.prem),
    }
}

/// Copies a relation application.
pub fn clone_rule_prem(r: &RulePrem) -> (c: RulePrem)
    ensures
        c.id@ == r.id@,
        mixop_view(c.not_exp.mixop) == mixop_view(r.not_exp.mixop),
        exps_view(c.not_exp.args@) == exps_view(r.not_exp.args@),
        exps_free(c.not_exp.args@) == exps_free(r.not_exp.args@),
{
    let args = clone_exps(&r.not_exp.args);
    proof {
        crate::il_free::lemma_free_view_exps(args@);
        crate::il_free::lemma_free_view_exps(r.not_exp.args@);
    }
    RulePrem { id: clone_id(&r.id), not_exp: NotExp { mixop: clone_mixop(&r.not_exp.mixop), args } }
}

/// Copies a premise.
pub fn clone_prem(p: &Prem) -> (c: Prem)
    ensures
        c@ == p@,
        c.span == p.span,
        prem_free(c) == prem_free(*p),
    decreases p,
{
    let node = match &p.node {
        PremKind::Rule(r) => PremKind::Rule(clone_rule_prem(r)),
        PremKind::If(i) => {
            let e = clone_exp(&i.exp);
            proof {
                crate::il_free::lemma_free_view(e);
                crate::il_free::lemma_free_view(i.exp);
            }
            PremKind::If(IfPrem { exp: e })
        },
        PremKind::IfHold(r) => PremKind::IfHold(clone_rule_prem(r)),
        PremKind::IfNotHold(r) => PremKind::IfNotHold(clone_rule_prem(r)),
        PremKind::Let(l) => {
            let el = clone_exp(&l.exp_l);
            let er = clone_exp(&l.exp_r);
            proof {
                crate::il_free::lemma_free_view(el);
                crate::il_free::lemma_free_view(l.exp_l);
                crate::il_free::lemma_free_view(er);
                crate::il_free::lemma_free_view(l.exp_r);
            }
            PremKind::Let(LetPrem { exp_l: el, exp_r: er })
        },
        PremKind::Iter(it) => PremKind::Iter(IterPrem {
            prem: Box::new(clone_prem(&it.prem)),
            prem_iter: PremIter {
                iter: it.prem_iter.iter,
                vars_bound: clone_vars(&it.prem_iter.vars_bound),
                vars_bind: clone_vars(&it.prem_iter.vars_bind),
            },
        }),
        PremKind::Debug(d) => {
            let e = clone_exp(&d.exp);
            proof {
                crate::il_free::lemma_free_view(e);
                crate::il_free::lemma_free_view(d.exp);
            }
            PremKind::Debug(IfPrem { exp: e })
        },
    };
    Prem { node, span: p.span }
}

fn rule_prem_eq(a: &RulePrem, b: &RulePrem) -> (r: bool)
    ensures
        r == (a.id@ == b.id@ && mixop_view(a.not_exp.mixop) == mixop_view(b.not_exp.mixop)
            && exps_view(a.not_exp.args@) == exps_view(b.not_exp.args@)),
{
    a.id.node == b.id.node && mixop_eq(&a.not_exp.mixop, &b.not_exp.mixop) && exps_eq(&a.not_exp.args, &b.not_exp.args)
}

/// Whether two premises agree up to locations.
pub fn prem_eq(a: &Prem, b: &Prem) -> (r: bool)
    ensures
        r == (a@ == b@),
    decreases a,
{
    match (&a.node, &b.node) {
        (PremKind::Rule(x), PremKind::Rule(y)) => rule_prem_eq(x, y),
        (PremKind::If(x), PremKind::If(y)) => exp_eq(&x.exp, &y.exp),
        (PremKind::IfHold(x), PremKind::IfHold(y)) => rule_prem_eq(x, y),
        (PremKind::IfNotHold(x), PremKind::IfNotHold(y)) => rule_prem_eq(x, y),
        (PremKind::Let(x), PremKind::Let(y)) => exp_eq(&x.exp_l, &y.exp_l) && exp_eq(&x.exp_r, &y.exp_r),
        (PremKind::Iter(x), PremKind::Iter(y)) => {
            x.prem_iter.iter == y.prem_iter.iter && vars_eq(&x.prem_iter.vars_bound, &y.prem_iter.vars_bound)
                && vars_eq(&x.prem_iter.vars_bind, &y.prem_iter.vars_bind) && prem_eq(&x.prem, &y.prem)
        },
        (PremKind::Debug(x), PremKind::Debug(y)) => exp_eq(&x.exp, &y.exp),
        _ => false,
    }
}

} // verus!
