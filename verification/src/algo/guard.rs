//! Explicit guards for partial algorithmic expressions.
//!
//! `a[n]` requires `n < |a|`; `e*{x <- x*, y <- y*, z <- z*}` requires
//! `(|x*| = |y*|) /\ (|y*| = |z*|)`; `e?{x <- x?, y <- y?}` requires
//! `(x? = eps) <=> (y? = eps)`. Binding premises also establish such facts,
//! and guards that earlier premises entail are left out.

use vstd::prelude::*;
use crate::span::Span;
use crate::il::{
    Arg, ArgKind, BinOp, CmpOp, Exp, ExpKind, ExpField, ExpV, ExpKindV, Iter, NumTyp, OpTyp, Path, PathKind, TypKind,
    TypV, Var, VarV, exp_view, exps_view, var_view, vars_view, typ_view, typ_kind_view,
};
use crate::il_exp::{clone_exp, exp_eq};
use crate::il_typ::{clone_var};
use crate::al::{Clause, Def, DefKind, ElseGroup, FuncDecDef, RelDef, RuleGroup, RuleMatch, RulePath,
    IfPrem, IterPrem, LetPrem, Prem, PremIter, PremKind, PremShape, RulePrem, clone_prem, free_prem, prem_eq, prem_free, prems_view};
use crate::il_var::{as_exp, var_exp};
use crate::il::{PathV, ArgV, exp_kind_view, fields_view, args_view, arg_view, path_view};
use crate::il_free::{expv_free, expvs_free};
use crate::il_sub::{occurs_flat, occurs_flat_in, occurs_flat_in_args, occurs_flat_in_path};
use crate::algo::iteration::keep_vars;

verus! {

// == Equivalence classes

/// Which relation a class of conditions is closed under: `=` or `<=>`.
#[derive(Clone, Copy, Debug, PartialEq, Eq, Structural)]
pub enum ClassKind {
    Equals,
    Equiv,
}

/// Conditions known equal, known equivalent, or a single known condition.
pub enum Class {
    Equals(Vec<Exp>),
    Equiv(Vec<Exp>),
    Singleton(Exp),
}

/// Classes without locations.
pub enum ClassV {
    Equals(Seq<ExpV>),
    Equiv(Seq<ExpV>),
    Singleton(ExpV),
}

impl View for Class {
    type V = ClassV;

    open spec fn view(&self) -> ClassV {
        match self {
            Class::Equals(cs) => ClassV::Equals(exps_view(cs@)),
            Class::Equiv(cs) => ClassV::Equiv(exps_view(cs@)),
            Class::Singleton(e) => ClassV::Singleton(exp_view(*e)),
        }
    }
}

/// The conditions of a class of the given kind.
pub open spec fn class_conds(c: ClassV, kind: ClassKind) -> Option<Seq<ExpV>> {
    match c {
        ClassV::Equals(cs) => if kind == ClassKind::Equals { Some(cs) } else { None },
        ClassV::Equiv(cs) => if kind == ClassKind::Equiv { Some(cs) } else { None },
        ClassV::Singleton(_) => None,
    }
}

/// A class of the given kind.
pub open spec fn class_of(kind: ClassKind, cs: Seq<ExpV>) -> ClassV {
    match kind {
        ClassKind::Equals => ClassV::Equals(cs),
        ClassKind::Equiv => ClassV::Equiv(cs),
    }
}

/// Whether class `c` of the given kind holds `e`.
pub open spec fn class_has(c: ClassV, kind: ClassKind, e: ExpV) -> bool {
    class_conds(c, kind) matches Some(cs) && cs.contains(e)
}

/// The first class of the given kind that holds `e`.
pub open spec fn find_class(classes: Seq<ClassV>, kind: ClassKind, e: ExpV) -> Option<int>
    decreases classes.len(),
{
    if classes.len() == 0 {
        None
    } else {
        match find_class(classes.drop_last(), kind, e) {
            Some(i) => Some(i),
            None => if class_has(classes.last(), kind, e) { Some(classes.len() - 1) } else { None },
        }
    }
}

/// The classes after learning that `a` and `b` are related: their classes
/// merge (that of `a` first), a condition joins the class of the other, or
/// a new class holds both; the changed class comes first.
pub open spec fn union_classes(classes: Seq<ClassV>, kind: ClassKind, a: ExpV, b: ExpV) -> Seq<ClassV> {
    match (find_class(classes, kind, a), find_class(classes, kind, b)) {
        (Some(x), Some(y)) => if x == y {
            classes
        } else {
            let hi = if x < y { y } else { x };
            let lo = if x < y { x } else { y };
            let merged = class_conds(classes[x], kind)->Some_0 + class_conds(classes[y], kind)->Some_0;
            seq![class_of(kind, merged)] + classes.remove(hi).remove(lo)
        },
        (Some(x), None) => seq![class_of(kind, seq![b] + class_conds(classes[x], kind)->Some_0)] + classes.remove(x),
        (None, Some(y)) => seq![class_of(kind, seq![a] + class_conds(classes[y], kind)->Some_0)] + classes.remove(y),
        (None, None) => seq![class_of(kind, seq![a, b])] + classes,
    }
}

/// The classes after learning that condition `e` holds.
pub open spec fn add_if(classes: Seq<ClassV>, e: ExpV) -> Seq<ClassV>
    decreases e,
{
    match e.node {
        ExpKindV::Cmp(CmpOp::Eq, _, l, r) => union_classes(classes, ClassKind::Equals, *l, *r),
        ExpKindV::Bin(BinOp::Equiv, _, l, r) => union_classes(classes, ClassKind::Equiv, *l, *r),
        ExpKindV::Bin(BinOp::And, _, l, r) => add_if(add_if(classes, *l), *r),
        _ => seq![ClassV::Singleton(e)] + classes,
    }
}

/// The classes after learning the conditions among `ps`, in order.
pub open spec fn add_prems(classes: Seq<ClassV>, ps: Seq<PremShape>) -> Seq<ClassV>
    decreases ps.len(),
{
    if ps.len() == 0 {
        classes
    } else {
        let c = add_prems(classes, ps.drop_last());
        match ps.last() {
            PremShape::If(e) => add_if(c, e),
            _ => c,
        }
    }
}

/// Whether `a` and `b` are known related: equal, or in one class.
pub open spec fn related(classes: Seq<ClassV>, kind: ClassKind, a: ExpV, b: ExpV) -> bool {
    a == b || (find_class(classes, kind, a) matches Some(i) && class_has(classes[i], kind, b))
}

/// Whether the known facts entail condition `e`.
pub open spec fn entails(classes: Seq<ClassV>, e: ExpV) -> bool
    decreases e,
{
    match e.node {
        ExpKindV::Cmp(CmpOp::Eq, _, l, r) => related(classes, ClassKind::Equals, *l, *r),
        ExpKindV::Bin(BinOp::Equiv, _, l, r) => related(classes, ClassKind::Equiv, *l, *r),
        ExpKindV::Bin(BinOp::And, _, l, r) => entails(classes, *l) && entails(classes, *r),
        _ => classes.contains(ClassV::Singleton(e)),
    }
}

/// Whether the known facts entail a premise: it must be a condition.
pub open spec fn entails_prem(classes: Seq<ClassV>, p: PremShape) -> bool {
    match p {
        PremShape::If(e) => entails(classes, e),
        _ => false,
    }
}

/// Known facts: classes of conditions known equal or equivalent, and
/// conditions known to hold.
pub struct EquivalenceTable {
    pub classes: Vec<Class>,
}

impl View for EquivalenceTable {
    type V = Seq<ClassV>;

    open spec fn view(&self) -> Seq<ClassV> {
        Seq::new(self.classes@.len(), |i: int| self.classes@[i]@)
    }
}

fn class_new(kind: ClassKind, conditions: Vec<Exp>) -> (c: Class)
    ensures
        c@ == class_of(kind, exps_view(conditions@)),
{
    match kind {
        ClassKind::Equals => Class::Equals(conditions),
        ClassKind::Equiv => Class::Equiv(conditions),
    }
}

fn contains_exp(cs: &Vec<Exp>, e: &Exp) -> (r: bool)
    ensures
        r == exps_view(cs@).contains(exp_view(*e)),
{
    proof {
        crate::il_exp::lemma_exps_view(cs@);
    }
    let mut i: usize = 0;
    while i < cs.len()
        invariant
            i <= cs@.len(),
            exps_view(cs@).len() == cs@.len(),
            forall|j: int| 0 <= j < cs@.len() ==> #[trigger] exps_view(cs@)[j] == exp_view(cs@[j]),
            forall|j: int| 0 <= j < i ==> exps_view(cs@)[j] != exp_view(*e),
        decreases cs@.len() - i,
    {
        if exp_eq(&cs[i], e) {
            assert(exps_view(cs@)[i as int] == exp_view(*e));
            return true;
        }
        i = i + 1;
    }
    false
}

proof fn lemma_find_class_prefix(classes: Seq<ClassV>, kind: ClassKind, e: ExpV, n: int)
    requires
        0 <= n <= classes.len(),
        find_class(classes.take(n), kind, e) is Some,
    ensures
        find_class(classes, kind, e) == find_class(classes.take(n), kind, e),
    decreases classes.len() - n,
{
    if n < classes.len() {
        assert(classes.take(n + 1).drop_last() =~= classes.take(n));
        lemma_find_class_prefix(classes, kind, e, n + 1);
    } else {
        assert(classes.take(n) =~= classes);
    }
}

pub proof fn lemma_find_class_bound(classes: Seq<ClassV>, kind: ClassKind, e: ExpV)
    ensures
        find_class(classes, kind, e) matches Some(i) ==> 0 <= i < classes.len() && class_has(classes[i], kind, e),
    decreases classes.len(),
{
    if classes.len() > 0 {
        lemma_find_class_bound(classes.drop_last(), kind, e);
    }
}

impl EquivalenceTable {
    pub fn new() -> (t: EquivalenceTable)
        ensures
            t@ == Seq::<ClassV>::empty(),
    {
        let t = EquivalenceTable { classes: Vec::new() };
        assert(t@ =~= Seq::<ClassV>::empty());
        t
    }

    /// The position of the first class of the given kind that holds `condition`.
    fn find(&self, kind: ClassKind, condition: &Exp) -> (r: Option<usize>)
        ensures
            match r {
                Some(i) => find_class(self@, kind, exp_view(*condition)) == Some(i as int),
                None => find_class(self@, kind, exp_view(*condition)) is None,
            },
    {
        let ghost cs = self@;
        let mut i: usize = 0;
        while i < self.classes.len()
            invariant
                i <= self.classes@.len(),
                cs == self@,
                find_class(cs.take(i as int), kind, exp_view(*condition)) is None,
            decreases self.classes@.len() - i,
        {
            proof {
                assert(cs.take(i + 1).drop_last() =~= cs.take(i as int));
                assert(cs.take(i + 1).last() == self.classes@[i as int]@);
            }
            let hit = match &self.classes[i] {
                Class::Equals(conds) => kind == ClassKind::Equals && contains_exp(conds, condition),
                Class::Equiv(conds) => kind == ClassKind::Equiv && contains_exp(conds, condition),
                Class::Singleton(_) => false,
            };
            if hit {
                proof {
                    lemma_find_class_prefix(cs, kind, exp_view(*condition), i + 1);
                }
                return Some(i);
            }
            i = i + 1;
        }
        proof {
            assert(cs.take(i as int) =~= cs);
        }
        None
    }

    /// Removes the class at `index`, of the given kind, and returns its conditions.
    fn take_conditions(&mut self, kind: ClassKind, index: usize) -> (r: Vec<Exp>)
        requires
            index < old(self)@.len(),
            class_conds(old(self)@[index as int], kind) is Some,
        ensures
            final(self)@ == old(self)@.remove(index as int),
            exps_view(r@) == class_conds(old(self)@[index as int], kind)->Some_0,
    {
        let ghost s0 = self.classes@;
        let class = self.classes.remove(index);
        proof {
            assert(self@ =~= old(self)@.remove(index as int));
        }
        match class {
            Class::Equals(conds) => conds,
            Class::Equiv(conds) => conds,
            Class::Singleton(_) => Vec::new(),
        }
    }

    /// Records that `a` and `b` are related by the given kind.
    fn union(&mut self, kind: ClassKind, a: &Exp, b: &Exp)
        ensures
            final(self)@ == union_classes(old(self)@, kind, exp_view(*a), exp_view(*b)),
    {
        let ghost c0 = self@;
        let ghost av = exp_view(*a);
        let ghost bv = exp_view(*b);
        proof {
            lemma_find_class_bound(c0, kind, av);
            lemma_find_class_bound(c0, kind, bv);
        }
        let index_a = self.find(kind, a);
        let index_b = self.find(kind, b);
        match (index_a, index_b) {
            (Some(x), Some(y)) => {
                if x == y {
                    return;
                }
                let hi = if x < y { y } else { x };
                let lo = if x < y { x } else { y };
                let conds_hi = self.take_conditions(kind, hi);
                proof {
                    assert(self@[lo as int] == c0[lo as int]);
                }
                let conds_lo = self.take_conditions(kind, lo);
                let (mut conds_a, mut conds_b) = if x == lo { (conds_lo, conds_hi) } else { (conds_hi, conds_lo) };
                let ghost va = exps_view(conds_a@);
                let ghost vb = exps_view(conds_b@);
                let ghost sa = conds_a@;
                let ghost sb = conds_b@;
                conds_a.append(&mut conds_b);
                proof {
                    crate::il_exp::lemma_exps_view(conds_a@);
                    crate::il_exp::lemma_exps_view(sa);
                    crate::il_exp::lemma_exps_view(sb);
                    assert(exps_view(conds_a@) =~= va + vb);
                }
                let class = class_new(kind, conds_a);
                let ghost c1 = self@;
                self.classes.insert(0, class);
                proof {
                    assert(self@ =~= seq![class@] + c1);
                }
            },
            (Some(x), None) => {
                let mut conds = self.take_conditions(kind, x);
                let ghost v0 = exps_view(conds@);
                let ghost s0 = conds@;
                conds.insert(0, clone_exp(b));
                proof {
                    crate::il_exp::lemma_exps_view(conds@);
                    crate::il_exp::lemma_exps_view(s0);
                    assert(conds@.drop_first() =~= s0);
                    assert(exps_view(conds@) =~= seq![bv] + v0);
                }
                let class = class_new(kind, conds);
                let ghost c1 = self@;
                self.classes.insert(0, class);
                proof {
                    assert(self@ =~= seq![class@] + c1);
                }
            },
            (None, Some(y)) => {
                let mut conds = self.take_conditions(kind, y);
                let ghost v0 = exps_view(conds@);
                let ghost s0 = conds@;
                conds.insert(0, clone_exp(a));
                proof {
                    crate::il_exp::lemma_exps_view(conds@);
                    crate::il_exp::lemma_exps_view(s0);
                    assert(conds@.drop_first() =~= s0);
                    assert(exps_view(conds@) =~= seq![av] + v0);
                }
                let class = class_new(kind, conds);
                let ghost c1 = self@;
                self.classes.insert(0, class);
                proof {
                    assert(self@ =~= seq![class@] + c1);
                }
            },
            (None, None) => {
                let mut conds: Vec<Exp> = Vec::new();
                conds.push(clone_exp(a));
                conds.push(clone_exp(b));
                proof {
                    crate::il_exp::lemma_exps_view(conds@);
                    assert(exps_view(conds@) =~= seq![av, bv]);
                }
                let class = class_new(kind, conds);
                let ghost c1 = self@;
                self.classes.insert(0, class);
                proof {
                    assert(self@ =~= seq![class@] + c1);
                }
            },
        }
    }

    /// Records the facts that condition `exp` states.
    fn add_if_exp(&mut self, exp: &Exp)
        ensures
            final(self)@ == add_if(old(self)@, exp_view(*exp)),
        decreases exp,
    {
        match &exp.node {
            ExpKind::Cmp(CmpOp::Eq, _, l, r) => self.union(ClassKind::Equals, l, r),
            ExpKind::Bin(BinOp::Equiv, _, l, r) => self.union(ClassKind::Equiv, l, r),
            ExpKind::Bin(BinOp::And, _, l, r) => {
                self.add_if_exp(l);
                self.add_if_exp(r);
            },
            _ => {
                let ghost c1 = self@;
                let class = Class::Singleton(clone_exp(exp));
                self.classes.insert(0, class);
                proof {
                    assert(self@ =~= seq![class@] + c1);
                }
            },
        }
    }

    /// Records the facts that a premise states: those of a condition.
    fn add_prem(&mut self, prem: &Prem)
        ensures
            final(self)@ == match prem@ {
                PremShape::If(e) => add_if(old(self)@, e),
                _ => old(self)@,
            },
    {
        if let PremKind::If(if_prem) = &prem.node {
            self.add_if_exp(&if_prem.exp);
        }
    }

    /// The facts that the premises state, in order.
    pub fn from_prems(prems: &Vec<Prem>) -> (t: EquivalenceTable)
        ensures
            t@ == add_prems(Seq::empty(), prems_view(prems@)),
    {
        let mut table = EquivalenceTable::new();
        let ghost ps = prems_view(prems@);
        proof {
            assert(ps.take(0) =~= Seq::<PremShape>::empty());
        }
        for i in 0..prems.len()
            invariant
                ps == prems_view(prems@),
                table@ == add_prems(Seq::empty(), ps.take(i as int)),
        {
            proof {
                assert(ps.take(i + 1).drop_last() =~= ps.take(i as int));
                assert(ps.take(i + 1).last() == prems@[i as int]@);
            }
            table.add_prem(&prems[i]);
        }
        proof {
            assert(ps.take(prems@.len() as int) =~= ps);
        }
        table
    }

    /// Whether `a` and `b` are known related by the given kind.
    fn contains(&self, kind: ClassKind, a: &Exp, b: &Exp) -> (r: bool)
        ensures
            r == related(self@, kind, exp_view(*a), exp_view(*b)),
    {
        if exp_eq(a, b) {
            return true;
        }
        proof {
            lemma_find_class_bound(self@, kind, exp_view(*a));
        }
        match self.find(kind, a) {
            None => false,
            Some(index) => match &self.classes[index] {
                Class::Equals(conds) => kind == ClassKind::Equals && contains_exp(conds, b),
                Class::Equiv(conds) => kind == ClassKind::Equiv && contains_exp(conds, b),
                Class::Singleton(_) => false,
            },
        }
    }

    fn has_singleton(&self, exp: &Exp) -> (r: bool)
        ensures
            r == self@.contains(ClassV::Singleton(exp_view(*exp))),
    {
        let mut i: usize = 0;
        while i < self.classes.len()
            invariant
                i <= self.classes@.len(),
                forall|j: int| 0 <= j < i ==> self@[j] != ClassV::Singleton(exp_view(*exp)),
            decreases self.classes@.len() - i,
        {
            if let Class::Singleton(c) = &self.classes[i] {
                if exp_eq(exp, c) {
                    assert(self@[i as int] == ClassV::Singleton(exp_view(*exp)));
                    return true;
                }
            }
            i = i + 1;
        }
        false
    }

    /// Whether the known facts entail condition `exp`.
    fn implies_exp(&self, exp: &Exp) -> (r: bool)
        ensures
            r == entails(self@, exp_view(*exp)),
        decreases exp,
    {
        match &exp.node {
            ExpKind::Cmp(CmpOp::Eq, _, l, r) => self.contains(ClassKind::Equals, l, r),
            ExpKind::Bin(BinOp::Equiv, _, l, r) => self.contains(ClassKind::Equiv, l, r),
            ExpKind::Bin(BinOp::And, _, l, r) => self.implies_exp(l) && self.implies_exp(r),
            _ => self.has_singleton(exp),
        }
    }

    /// Whether the known facts entail a premise, which must be a condition.
    pub fn implies(&self, prem: &Prem) -> (r: bool)
        ensures
            r == entails_prem(self@, prem@),
    {
        match &prem.node {
            PremKind::If(if_prem) => self.implies_exp(&if_prem.exp),
            _ => false,
        }
    }
}

// == Laws

/// Recording that `a` and `b` are related makes them known related.
pub proof fn lemma_union_relates(classes: Seq<ClassV>, kind: ClassKind, a: ExpV, b: ExpV)
    ensures
        related(union_classes(classes, kind, a, b), kind, a, b),
{
    lemma_find_class_bound(classes, kind, a);
    lemma_find_class_bound(classes, kind, b);
    let u = union_classes(classes, kind, a, b);
    match (find_class(classes, kind, a), find_class(classes, kind, b)) {
        (Some(x), Some(y)) => {
            if x != y {
                let cx = class_conds(classes[x], kind)->Some_0;
                let cy = class_conds(classes[y], kind)->Some_0;
                let i = choose|i: int| 0 <= i < cx.len() && cx[i] == a;
                let j = choose|j: int| 0 <= j < cy.len() && cy[j] == b;
                assert((cx + cy)[i] == a);
                assert((cx + cy)[cx.len() + j] == b);
                assert(class_conds(u[0], kind) == Some(cx + cy));
                assert(class_has(u[0], kind, a));
                assert(class_has(u[0], kind, b));
                lemma_find_first(u, kind, a);
            }
        },
        (Some(x), None) => {
            let cx = class_conds(classes[x], kind)->Some_0;
            let i = choose|i: int| 0 <= i < cx.len() && cx[i] == a;
            assert((seq![b] + cx)[i + 1] == a);
            assert((seq![b] + cx)[0] == b);
            assert(class_conds(u[0], kind) == Some(seq![b] + cx));
            assert(class_has(u[0], kind, a));
            assert(class_has(u[0], kind, b));
            lemma_find_first(u, kind, a);
        },
        (None, Some(y)) => {
            let cy = class_conds(classes[y], kind)->Some_0;
            let j = choose|j: int| 0 <= j < cy.len() && cy[j] == b;
            assert((seq![a] + cy)[0] == a);
            assert((seq![a] + cy)[j + 1] == b);
            assert(class_conds(u[0], kind) == Some(seq![a] + cy));
            assert(class_has(u[0], kind, a));
            assert(class_has(u[0], kind, b));
            lemma_find_first(u, kind, a);
        },
        (None, None) => {
            assert(seq![a, b][0] == a);
            assert(seq![a, b][1] == b);
            assert(class_conds(u[0], kind) == Some(seq![a, b]));
            assert(class_has(u[0], kind, a));
            assert(class_has(u[0], kind, b));
            lemma_find_first(u, kind, a);
        },
    }
}

/// Recording that `a` and `b` are related joins their classes: whatever
/// was known related to `a` or to `b` is known related to both afterwards.
pub proof fn lemma_union_closure(classes: Seq<ClassV>, kind: ClassKind, a: ExpV, b: ExpV, c: ExpV)
    requires
        related(classes, kind, a, c) || related(classes, kind, b, c),
    ensures
        related(union_classes(classes, kind, a, b), kind, a, c),
        related(union_classes(classes, kind, a, b), kind, b, c),
{
    lemma_find_class_bound(classes, kind, a);
    lemma_find_class_bound(classes, kind, b);
    let u = union_classes(classes, kind, a, b);
    match (find_class(classes, kind, a), find_class(classes, kind, b)) {
        (Some(x), Some(y)) => {
            if x != y {
                let cx = class_conds(classes[x], kind)->Some_0;
                let cy = class_conds(classes[y], kind)->Some_0;
                let m = cx + cy;
                assert(class_conds(u[0], kind) == Some(m));
                assert forall|e: ExpV| cx.contains(e) || cy.contains(e) implies m.contains(e) by {
                    if cx.contains(e) {
                        let i = choose|i: int| 0 <= i < cx.len() && cx[i] == e;
                        assert(m[i] == e);
                    } else {
                        let j = choose|j: int| 0 <= j < cy.len() && cy[j] == e;
                        assert(m[cx.len() + j] == e);
                    }
                }
                assert(m.contains(a) && m.contains(b) && m.contains(c));
                lemma_find_first(u, kind, a);
                lemma_find_first(u, kind, b);
            }
        },
        (Some(x), None) => {
            let cx = class_conds(classes[x], kind)->Some_0;
            let m = seq![b] + cx;
            assert(class_conds(u[0], kind) == Some(m));
            assert forall|e: ExpV| cx.contains(e) || e == b implies m.contains(e) by {
                if e == b {
                    assert(m[0] == b);
                } else {
                    let i = choose|i: int| 0 <= i < cx.len() && cx[i] == e;
                    assert(m[i + 1] == e);
                }
            }
            assert(m.contains(a) && m.contains(b) && m.contains(c));
            lemma_find_first(u, kind, a);
            lemma_find_first(u, kind, b);
        },
        (None, Some(y)) => {
            let cy = class_conds(classes[y], kind)->Some_0;
            let m = seq![a] + cy;
            assert(class_conds(u[0], kind) == Some(m));
            assert forall|e: ExpV| cy.contains(e) || e == a implies m.contains(e) by {
                if e == a {
                    assert(m[0] == a);
                } else {
                    let j = choose|j: int| 0 <= j < cy.len() && cy[j] == e;
                    assert(m[j + 1] == e);
                }
            }
            assert(m.contains(a) && m.contains(b) && m.contains(c));
            lemma_find_first(u, kind, a);
            lemma_find_first(u, kind, b);
        },
        (None, None) => {
            let m = seq![a, b];
            assert(m[0] == a && m[1] == b);
            assert(class_conds(u[0], kind) == Some(m));
            assert(m.contains(c));
            lemma_find_first(u, kind, a);
            lemma_find_first(u, kind, b);
        },
    }
}

/// A condition held by the first class is found there.
proof fn lemma_find_first(classes: Seq<ClassV>, kind: ClassKind, e: ExpV)
    requires
        classes.len() > 0,
        class_has(classes[0], kind, e),
    ensures
        find_class(classes, kind, e) == Some(0int),
{
    assert(classes.take(1).drop_last() =~= Seq::<ClassV>::empty());
    assert(find_class(Seq::<ClassV>::empty(), kind, e) is None);
    assert(classes.take(1).last() == classes[0]);
    assert(find_class(classes.take(1), kind, e) == Some(0int));
    lemma_find_class_prefix(classes, kind, e, 1);
}

/// No condition is in two classes of the kind.
pub open spec fn classes_disjoint(classes: Seq<ClassV>, kind: ClassKind) -> bool {
    forall|i: int, j: int, e: ExpV|
        0 <= i < classes.len() && 0 <= j < classes.len() && #[trigger] class_has(classes[i], kind, e)
            && #[trigger] class_has(classes[j], kind, e) ==> i == j
}

/// The conditions known related to `e`: those of its class, or `e` alone.
pub open spec fn group(classes: Seq<ClassV>, kind: ClassKind, e: ExpV) -> Seq<ExpV> {
    match find_class(classes, kind, e) {
        Some(i) => class_conds(classes[i], kind)->Some_0,
        None => seq![e],
    }
}

/// In disjoint classes a condition is found in the one class that holds it.
proof fn lemma_find_unique(classes: Seq<ClassV>, kind: ClassKind, e: ExpV, i: int)
    requires
        classes_disjoint(classes, kind),
        0 <= i < classes.len(),
        class_has(classes[i], kind, e),
    ensures
        find_class(classes, kind, e) == Some(i),
    decreases classes.len(),
{
    let d = classes.drop_last();
    assert(classes_disjoint(d, kind)) by {
        assert forall|p: int, q: int, x: ExpV|
            0 <= p < d.len() && 0 <= q < d.len() && #[trigger] class_has(d[p], kind, x) && #[trigger] class_has(d[q], kind, x)
            implies p == q by {
            assert(d[p] == classes[p] && d[q] == classes[q]);
        }
    }
    if i == classes.len() - 1 {
        lemma_find_class_bound(d, kind, e);
        if let Some(j) = find_class(d, kind, e) {
            assert(d[j] == classes[j]);
            assert(class_has(classes[j], kind, e));
        }
    } else {
        assert(d[i] == classes[i]);
        lemma_find_unique(d, kind, e, i);
    }
}

/// A group holds the condition it is the group of, and lies in its class.
proof fn lemma_group_class(classes: Seq<ClassV>, kind: ClassKind, e: ExpV)
    ensures
        group(classes, kind, e).contains(e),
        find_class(classes, kind, e) matches Some(i) ==> class_conds(classes[i], kind) == Some(group(classes, kind, e)),
{
    lemma_find_class_bound(classes, kind, e);
    if find_class(classes, kind, e) is None {
        assert(seq![e][0] == e);
    }
}

/// Recording that `a` and `b` are related, in disjoint classes, relates
/// every two conditions of their groups taken together: `=` for `Equals`,
/// `<=>` for `Equiv`.
pub proof fn lemma_union_pairwise(classes: Seq<ClassV>, kind: ClassKind, a: ExpV, b: ExpV, c: ExpV, d: ExpV)
    requires
        classes_disjoint(classes, kind),
        group(classes, kind, a).contains(c) || group(classes, kind, b).contains(c),
        group(classes, kind, a).contains(d) || group(classes, kind, b).contains(d),
    ensures
        related(union_classes(classes, kind, a, b), kind, c, d),
{
    lemma_find_class_bound(classes, kind, a);
    lemma_find_class_bound(classes, kind, b);
    lemma_group_class(classes, kind, a);
    lemma_group_class(classes, kind, b);
    let u = union_classes(classes, kind, a, b);
    let ga = group(classes, kind, a);
    let gb = group(classes, kind, b);
    if let (Some(x), Some(y)) = (find_class(classes, kind, a), find_class(classes, kind, b)) {
        if x == y {
            assert(class_has(classes[x], kind, c));
            assert(class_has(classes[x], kind, d));
            lemma_find_unique(classes, kind, c, x);
            return;
        }
    }
    let m = ga + gb;
    let m2 = match (find_class(classes, kind, a), find_class(classes, kind, b)) {
        (Some(_), Some(_)) => m,
        (Some(_), None) => seq![b] + ga,
        (None, Some(_)) => seq![a] + gb,
        (None, None) => seq![a, b],
    };
    assert(class_conds(u[0], kind) == Some(m2));
    assert forall|e: ExpV| ga.contains(e) || gb.contains(e) implies m2.contains(e) by {
        if ga.contains(e) {
            let i = choose|i: int| 0 <= i < ga.len() && ga[i] == e;
            if find_class(classes, kind, b) is Some || find_class(classes, kind, a) is None {
                if find_class(classes, kind, a) is None {
                    assert(ga[0] == a);
                    assert(m2[0] == a);
                } else {
                    assert(m2[i] == e);
                }
            } else {
                assert(m2[i + 1] == e);
            }
        } else {
            let j = choose|j: int| 0 <= j < gb.len() && gb[j] == e;
            match (find_class(classes, kind, a), find_class(classes, kind, b)) {
                (Some(_), Some(_)) => assert(m2[ga.len() + j] == e),
                (Some(_), None) => {
                    assert(gb[0] == b);
                    assert(m2[0] == b);
                },
                (None, Some(_)) => assert(m2[j + 1] == e),
                (None, None) => {
                    assert(gb[0] == b);
                    assert(m2[1] == b);
                },
            }
        }
    }
    assert(class_has(u[0], kind, c));
    assert(class_has(u[0], kind, d));
    lemma_find_first(u, kind, c);
}

/// The place in a list of the `k`-th item left once the items at `lo` and
/// `hi - 1` (`lo < hi`) are removed.
pub open spec fn kept_index(k: int, lo: int, hi: int) -> int {
    if k < lo {
        k
    } else if k < hi - 2 {
        k + 1
    } else {
        k + 2
    }
}

/// Classes `rest` taken from disjoint `classes` at distinct places, none
/// of them at `x` or `y`, together with a first class whose conditions
/// come from those at `x` and `y` or are conditions in no class, are
/// disjoint.
proof fn lemma_disjoint_from(
    classes: Seq<ClassV>,
    kind: ClassKind,
    first: ClassV,
    rest: Seq<ClassV>,
    lo: int,
    hi: int,
    x: int,
    y: int,
)
    requires
        classes_disjoint(classes, kind),
        lo < hi,
        forall|k: int| 0 <= k < rest.len() ==> 0 <= #[trigger] kept_index(k, lo, hi) < classes.len()
            && rest[k] == classes[kept_index(k, lo, hi)] && kept_index(k, lo, hi) != x && kept_index(k, lo, hi) != y,
        forall|e: ExpV| #[trigger] class_has(first, kind, e) ==> (0 <= x < classes.len() && class_has(classes[x], kind, e))
            || (0 <= y < classes.len() && class_has(classes[y], kind, e)) || find_class(classes, kind, e) is None,
    ensures
        classes_disjoint(seq![first] + rest, kind),
{
    let u = seq![first] + rest;
    assert forall|i: int, j: int, e: ExpV|
        0 <= i < u.len() && 0 <= j < u.len() && #[trigger] class_has(u[i], kind, e) && #[trigger] class_has(u[j], kind, e)
        implies i == j by {
        if i >= 1 && j >= 1 {
            let oi = kept_index(i - 1, lo, hi);
            let oj = kept_index(j - 1, lo, hi);
            assert(u[i] == rest[i - 1] && u[j] == rest[j - 1]);
            assert(class_has(classes[oi], kind, e) && class_has(classes[oj], kind, e));
        } else if i != j {
            let k = if i == 0 { j } else { i };
            let o = kept_index(k - 1, lo, hi);
            assert(u[k] == rest[k - 1]);
            assert(class_has(first, kind, e));
            assert(class_has(classes[o], kind, e));
            if find_class(classes, kind, e) is None {
                lemma_find_unique(classes, kind, e, o);
            }
        }
    }
}

/// Recording that `a` and `b` are related keeps the classes disjoint.
pub proof fn lemma_union_disjoint(classes: Seq<ClassV>, kind: ClassKind, a: ExpV, b: ExpV)
    requires
        classes_disjoint(classes, kind),
    ensures
        classes_disjoint(union_classes(classes, kind, a, b), kind),
{
    lemma_find_class_bound(classes, kind, a);
    lemma_find_class_bound(classes, kind, b);
    let n = classes.len() as int;
    match (find_class(classes, kind, a), find_class(classes, kind, b)) {
        (Some(x), Some(y)) => {
            if x != y {
                let hi = if x < y { y } else { x };
                let lo = if x < y { x } else { y };
                let cx = class_conds(classes[x], kind)->Some_0;
                let cy = class_conds(classes[y], kind)->Some_0;
                let first = class_of(kind, cx + cy);
                let r1 = classes.remove(hi);
                let rest = r1.remove(lo);
                classes.remove_ensures(hi);
                r1.remove_ensures(lo);
                assert forall|k: int| 0 <= k < rest.len() implies 0 <= #[trigger] kept_index(k, lo, hi + 1) < classes.len()
                    && rest[k] == classes[kept_index(k, lo, hi + 1)] && kept_index(k, lo, hi + 1) != x
                    && kept_index(k, lo, hi + 1) != y by {
                    if k < lo {
                        assert(rest[k] == r1[k]);
                    } else {
                        assert(rest[k] == r1[k + 1]);
                    }
                }
                assert forall|e: ExpV| #[trigger] class_has(first, kind, e) implies (0 <= x < classes.len()
                    && class_has(classes[x], kind, e)) || (0 <= y < classes.len() && class_has(classes[y], kind, e))
                    || find_class(classes, kind, e) is None by {
                    let i = choose|i: int| 0 <= i < (cx + cy).len() && (cx + cy)[i] == e;
                    if i < cx.len() {
                        assert(cx[i] == e);
                    } else {
                        assert(cy[i - cx.len()] == e);
                    }
                }
                lemma_disjoint_from(classes, kind, first, rest, lo, hi + 1, x, y);
            }
        },
        (Some(x), None) => {
            let cx = class_conds(classes[x], kind)->Some_0;
            let first = class_of(kind, seq![b] + cx);
            let rest = classes.remove(x);
            classes.remove_ensures(x);
            assert forall|k: int| 0 <= k < rest.len() implies 0 <= #[trigger] kept_index(k, x, n + 2) < classes.len()
                && rest[k] == classes[kept_index(k, x, n + 2)] && kept_index(k, x, n + 2) != x
                && kept_index(k, x, n + 2) != x by {}
            assert forall|e: ExpV| #[trigger] class_has(first, kind, e) implies (0 <= x < classes.len()
                && class_has(classes[x], kind, e)) || find_class(classes, kind, e) is None by {
                let i = choose|i: int| 0 <= i < (seq![b] + cx).len() && (seq![b] + cx)[i] == e;
                if i > 0 {
                    assert(cx[i - 1] == e);
                }
            }
            lemma_disjoint_from(classes, kind, first, rest, x, n + 2, x, x);
        },
        (None, Some(y)) => {
            let cy = class_conds(classes[y], kind)->Some_0;
            let first = class_of(kind, seq![a] + cy);
            let rest = classes.remove(y);
            classes.remove_ensures(y);
            assert forall|k: int| 0 <= k < rest.len() implies 0 <= #[trigger] kept_index(k, y, n + 2) < classes.len()
                && rest[k] == classes[kept_index(k, y, n + 2)] && kept_index(k, y, n + 2) != y
                && kept_index(k, y, n + 2) != y by {}
            assert forall|e: ExpV| #[trigger] class_has(first, kind, e) implies (0 <= y < classes.len()
                && class_has(classes[y], kind, e)) || find_class(classes, kind, e) is None by {
                let i = choose|i: int| 0 <= i < (seq![a] + cy).len() && (seq![a] + cy)[i] == e;
                if i > 0 {
                    assert(cy[i - 1] == e);
                }
            }
            lemma_disjoint_from(classes, kind, first, classes.remove(y), y, n + 2, y, y);
        },
        (None, None) => {
            let first = class_of(kind, seq![a, b]);
            assert forall|k: int| 0 <= k < classes.len() implies 0 <= #[trigger] kept_index(k, n + 1, n + 3) < classes.len()
                && classes[k] == classes[kept_index(k, n + 1, n + 3)] && kept_index(k, n + 1, n + 3) != -1 by {}
            assert forall|e: ExpV| #[trigger] class_has(first, kind, e) implies find_class(classes, kind, e) is None by {
                let i = choose|i: int| 0 <= i < seq![a, b].len() && seq![a, b][i] == e;
                if i == 0 {
                    assert(e == a);
                } else {
                    assert(e == b);
                }
            }
            lemma_disjoint_from(classes, kind, first, classes, n + 1, n + 3, -1, -1);
        },
    }
}

/// Recording that `a` and `b` are related keeps every other class as it
/// was: classes of the other kind, single conditions, and classes of the
/// kind holding neither `a` nor `b`.
pub proof fn lemma_union_keeps(classes: Seq<ClassV>, kind: ClassKind, a: ExpV, b: ExpV, o: int)
    requires
        0 <= o < classes.len(),
        find_class(classes, kind, a) != Some(o),
        find_class(classes, kind, b) != Some(o),
    ensures
        union_classes(classes, kind, a, b).contains(classes[o]),
{
    lemma_find_class_bound(classes, kind, a);
    lemma_find_class_bound(classes, kind, b);
    let u = union_classes(classes, kind, a, b);
    match (find_class(classes, kind, a), find_class(classes, kind, b)) {
        (Some(x), Some(y)) => {
            if x == y {
                assert(u[o] == classes[o]);
            } else {
                let hi = if x < y { y } else { x };
                let lo = if x < y { x } else { y };
                let r1 = classes.remove(hi);
                let rest = r1.remove(lo);
                classes.remove_ensures(hi);
                r1.remove_ensures(lo);
                let k = if o < lo { o } else if o < hi { o - 1 } else { o - 2 };
                if o < lo {
                    assert(r1[o] == classes[o]);
                    assert(rest[k] == classes[o]);
                } else if o < hi {
                    assert(r1[o] == classes[o]);
                    assert(rest[k] == r1[k + 1]);
                } else {
                    assert(r1[o - 1] == classes[o]);
                    assert(rest[k] == r1[k + 1]);
                }
                assert(u[k + 1] == classes[o]);
            }
        },
        (Some(x), None) => {
            classes.remove_ensures(x);
            let k = if o < x { o } else { o - 1 };
            assert(classes.remove(x)[k] == classes[o]);
            assert(u[k + 1] == classes[o]);
        },
        (None, Some(y)) => {
            classes.remove_ensures(y);
            let k = if o < y { o } else { o - 1 };
            assert(classes.remove(y)[k] == classes[o]);
            assert(u[k + 1] == classes[o]);
        },
        (None, None) => {
            assert(u[o + 1] == classes[o]);
        },
    }
}

/// Recording that `a` and `b` are related under one kind leaves the
/// classes of the other kind disjoint.
proof fn lemma_union_disjoint_other(classes: Seq<ClassV>, kind: ClassKind, k2: ClassKind, a: ExpV, b: ExpV)
    requires
        k2 != kind,
        classes_disjoint(classes, k2),
    ensures
        classes_disjoint(union_classes(classes, kind, a, b), k2),
{
    lemma_find_class_bound(classes, kind, a);
    lemma_find_class_bound(classes, kind, b);
    let n = classes.len() as int;
    match (find_class(classes, kind, a), find_class(classes, kind, b)) {
        (Some(x), Some(y)) => {
            if x != y {
                let hi = if x < y { y } else { x };
                let lo = if x < y { x } else { y };
                let cx = class_conds(classes[x], kind)->Some_0;
                let cy = class_conds(classes[y], kind)->Some_0;
                let first = class_of(kind, cx + cy);
                let r1 = classes.remove(hi);
                let rest = r1.remove(lo);
                classes.remove_ensures(hi);
                r1.remove_ensures(lo);
                assert forall|k: int| 0 <= k < rest.len() implies 0 <= #[trigger] kept_index(k, lo, hi + 1) < classes.len()
                    && rest[k] == classes[kept_index(k, lo, hi + 1)] && kept_index(k, lo, hi + 1) != x
                    && kept_index(k, lo, hi + 1) != y by {
                    if k < lo {
                        assert(rest[k] == r1[k]);
                    } else {
                        assert(rest[k] == r1[k + 1]);
                    }
                }
                assert(class_conds(first, k2) is None);
                lemma_disjoint_from(classes, k2, first, rest, lo, hi + 1, x, y);
            }
        },
        (Some(x), None) => {
            let first = class_of(kind, seq![b] + class_conds(classes[x], kind)->Some_0);
            let rest = classes.remove(x);
            classes.remove_ensures(x);
            assert forall|k: int| 0 <= k < rest.len() implies 0 <= #[trigger] kept_index(k, x, n + 2) < classes.len()
                && rest[k] == classes[kept_index(k, x, n + 2)] && kept_index(k, x, n + 2) != x by {}
            assert(class_conds(first, k2) is None);
            lemma_disjoint_from(classes, k2, first, rest, x, n + 2, x, x);
        },
        (None, Some(y)) => {
            let first = class_of(kind, seq![a] + class_conds(classes[y], kind)->Some_0);
            let rest = classes.remove(y);
            classes.remove_ensures(y);
            assert forall|k: int| 0 <= k < rest.len() implies 0 <= #[trigger] kept_index(k, y, n + 2) < classes.len()
                && rest[k] == classes[kept_index(k, y, n + 2)] && kept_index(k, y, n + 2) != y by {}
            assert(class_conds(first, k2) is None);
            lemma_disjoint_from(classes, k2, first, rest, y, n + 2, y, y);
        },
        (None, None) => {
            let first = class_of(kind, seq![a, b]);
            assert forall|k: int| 0 <= k < classes.len() implies 0 <= #[trigger] kept_index(k, n + 1, n + 3) < classes.len()
                && classes[k] == classes[kept_index(k, n + 1, n + 3)] && kept_index(k, n + 1, n + 3) != -1 by {}
            assert(class_conds(first, k2) is None);
            lemma_disjoint_from(classes, k2, first, classes, n + 1, n + 3, -1, -1);
        },
    }
}

/// Learning a condition keeps the classes of each kind disjoint.
pub proof fn lemma_add_if_disjoint(classes: Seq<ClassV>, e: ExpV, k2: ClassKind)
    requires
        classes_disjoint(classes, k2),
    ensures
        classes_disjoint(add_if(classes, e), k2),
    decreases e,
{
    match e.node {
        ExpKindV::Cmp(CmpOp::Eq, _, l, r) => {
            if k2 == ClassKind::Equals {
                lemma_union_disjoint(classes, k2, *l, *r);
            } else {
                lemma_union_disjoint_other(classes, ClassKind::Equals, k2, *l, *r);
            }
        },
        ExpKindV::Bin(BinOp::Equiv, _, l, r) => {
            if k2 == ClassKind::Equiv {
                lemma_union_disjoint(classes, k2, *l, *r);
            } else {
                lemma_union_disjoint_other(classes, ClassKind::Equiv, k2, *l, *r);
            }
        },
        ExpKindV::Bin(BinOp::And, _, l, r) => {
            lemma_add_if_disjoint(classes, *l, k2);
            lemma_add_if_disjoint(add_if(classes, *l), *r, k2);
        },
        _ => {
            let n = classes.len() as int;
            let first = ClassV::Singleton(e);
            assert forall|k: int| 0 <= k < classes.len() implies 0 <= #[trigger] kept_index(k, n + 1, n + 3) < classes.len()
                && classes[k] == classes[kept_index(k, n + 1, n + 3)] && kept_index(k, n + 1, n + 3) != -1 by {}
            lemma_disjoint_from(classes, k2, first, classes, n + 1, n + 3, -1, -1);
        },
    }
}

/// Learning the conditions of premises keeps the classes of each kind
/// disjoint: the table's invariant.
pub proof fn lemma_add_prems_disjoint(classes: Seq<ClassV>, ps: Seq<PremShape>, k2: ClassKind)
    requires
        classes_disjoint(classes, k2),
    ensures
        classes_disjoint(add_prems(classes, ps), k2),
    decreases ps.len(),
{
    if ps.len() > 0 {
        lemma_add_prems_disjoint(classes, ps.drop_last(), k2);
        if let PremShape::If(e) = ps.last() {
            lemma_add_if_disjoint(add_prems(classes, ps.drop_last()), e, k2);
        }
    }
}

// == Guards, stated over views

/// The names of the variables occurring in a premise view.
pub open spec fn shape_free(p: PremShape) -> Set<Seq<char>>
    decreases p,
{
    match p {
        PremShape::Rule(_, _, args) => expvs_free(args),
        PremShape::If(e) => expv_free(e),
        PremShape::IfHold(_, _, args) => expvs_free(args),
        PremShape::IfNotHold(_, _, args) => expvs_free(args),
        PremShape::Let(l, r) => expv_free(l).union(expv_free(r)),
        PremShape::Iter(inner, _, _, _) => shape_free(*inner),
        PremShape::Debug(e) => expv_free(e),
    }
}

/// The free variables of a premise are those of its view.
pub proof fn lemma_prem_free_view(p: Prem)
    ensures
        prem_free(p) == shape_free(p@),
    decreases p,
{
    match p.node {
        PremKind::Rule(r) => crate::il_free::lemma_free_view_exps(r.not_exp.args@),
        PremKind::If(i) => crate::il_free::lemma_free_view(i.exp),
        PremKind::IfHold(r) => crate::il_free::lemma_free_view_exps(r.not_exp.args@),
        PremKind::IfNotHold(r) => crate::il_free::lemma_free_view_exps(r.not_exp.args@),
        PremKind::Let(l) => {
            crate::il_free::lemma_free_view(l.exp_l);
            crate::il_free::lemma_free_view(l.exp_r);
        },
        PremKind::Iter(it) => lemma_prem_free_view(*it.prem),
        PremKind::Debug(d) => crate::il_free::lemma_free_view(d.exp),
    }
}

/// A boolean expression.
pub open spec fn bool_exp(k: ExpKindV) -> ExpV {
    ExpV { node: k, note: TypV::Bool }
}

/// `index < |base|`.
pub open spec fn index_guard(base: ExpV, index: ExpV) -> PremShape {
    PremShape::If(bool_exp(ExpKindV::Cmp(
        CmpOp::Lt,
        OpTyp::Bool,
        Box::new(index),
        Box::new(ExpV { node: ExpKindV::Len(Box::new(base)), note: TypV::Num(NumTyp::Nat) }),
    )))
}

/// `v` under one more iteration.
pub open spec fn iterated(v: VarV, iter: Iter) -> VarV {
    VarV { iters: v.iters.push(iter), ..v }
}

/// What an iteration over `v` says of it: `v? = eps`, or `|v*|`.
pub open spec fn iter_measure(iter: Iter, v: VarV) -> ExpV {
    let e = var_exp(iterated(v, iter));
    match iter {
        Iter::Opt => bool_exp(ExpKindV::Cmp(CmpOp::Eq, OpTyp::Bool, Box::new(e), Box::new(ExpV { node: ExpKindV::Opt(None), note: e.note }))),
        Iter::List => ExpV { node: ExpKindV::Len(Box::new(e)), note: TypV::Num(NumTyp::Nat) },
    }
}

/// Two measures agree: `<=>` for options, `=` for lists.
pub open spec fn pair_exp(iter: Iter, l: ExpV, r: ExpV) -> ExpV {
    match iter {
        Iter::Opt => bool_exp(ExpKindV::Bin(BinOp::Equiv, OpTyp::Bool, Box::new(l), Box::new(r))),
        Iter::List => bool_exp(ExpKindV::Cmp(CmpOp::Eq, OpTyp::Bool, Box::new(l), Box::new(r))),
    }
}

/// The agreement of the measures of neighbouring variables among the first
/// `k` of `vs`, as a left-nested conjunction.
pub open spec fn agree_chain(iter: Iter, vs: Seq<VarV>, k: int) -> ExpV
    decreases k,
{
    if k <= 2 {
        pair_exp(iter, iter_measure(iter, vs[0]), iter_measure(iter, vs[1]))
    } else {
        bool_exp(ExpKindV::Bin(
            BinOp::And,
            OpTyp::Bool,
            Box::new(agree_chain(iter, vs, k - 1)),
            Box::new(pair_exp(iter, iter_measure(iter, vs[k - 2]), iter_measure(iter, vs[k - 1]))),
        ))
    }
}

/// The guard that the variables of an iteration agree in length.
pub open spec fn iter_guard(iter: Iter, vs: Seq<VarV>) -> Seq<PremShape> {
    if vs.len() < 2 { Seq::empty() } else { seq![PremShape::If(agree_chain(iter, vs, vs.len() as int))] }
}

/// Keeps the variables that premise `p` mentions.
pub open spec fn mentions(p: PremShape) -> spec_fn(VarV) -> bool {
    |v: VarV| shape_free(p).contains(v.id)
}

/// A premise iterated over those of `vars` that it mentions; none when it
/// mentions none of them.
pub open spec fn iterate_one(iter: Iter, vars: Seq<VarV>, p: PremShape) -> Option<PremShape> {
    let bound = keep_vars(vars, mentions(p));
    if bound.len() == 0 { None } else { Some(PremShape::Iter(Box::new(p), iter, bound, Seq::empty())) }
}

pub open spec fn iterate_all(iter: Iter, vars: Seq<VarV>, ps: Seq<PremShape>) -> Seq<PremShape>
    decreases ps.len(),
{
    if ps.len() == 0 {
        Seq::empty()
    } else {
        iterate_all(iter, vars, ps.drop_last()) + match iterate_one(iter, vars, ps.last()) {
            Some(q) => seq![q],
            None => Seq::empty(),
        }
    }
}

/// The guards that the partial operations inside an expression need.
pub open spec fn collect(e: ExpV) -> Seq<PremShape>
    decreases e,
{
    match e.node {
        ExpKindV::Bool(_) | ExpKindV::Num(_) | ExpKindV::Text(_) | ExpKindV::Var(_) => Seq::empty(),
        ExpKindV::Un(_, _, x) => collect(*x),
        ExpKindV::UpCast(_, x) => collect(*x),
        ExpKindV::DownCast(_, x) => collect(*x),
        ExpKindV::Sub(x, _) => collect(*x),
        ExpKindV::Match(x, _) => collect(*x),
        ExpKindV::Len(x) => collect(*x),
        ExpKindV::Dot(x, _) => collect(*x),
        ExpKindV::Bin(_, _, l, r) => collect(*l) + collect(*r),
        ExpKindV::Cmp(_, _, l, r) => collect(*l) + collect(*r),
        ExpKindV::Cons(l, r) => collect(*l) + collect(*r),
        ExpKindV::Cat(l, r) => collect(*l) + collect(*r),
        ExpKindV::Mem(l, r) => collect(*l) + collect(*r),
        ExpKindV::Tuple(es) => collects(es),
        ExpKindV::List(es) => collects(es),
        ExpKindV::Case(_, es) => collects(es),
        ExpKindV::Str(_, es) => collects(es),
        ExpKindV::Opt(o) => match o {
            Some(x) => collect(*x),
            None => Seq::empty(),
        },
        ExpKindV::Idx(b, i) => collect(*b) + collect(*i) + seq![index_guard(*b, *i)],
        ExpKindV::Slice(b, l, h) => collect(*b) + collect(*l) + collect(*h),
        ExpKindV::Upd(b, p, f) => collect(*b) + collect_pathv(p) + collect(*f),
        ExpKindV::Call(_, _, args) => collect_argsv(args),
        ExpKindV::Iter(x, it, vars) => iterate_all(it, vars, collect(*x)) + iter_guard(it, vars),
    }
}

pub open spec fn collects(es: Seq<ExpV>) -> Seq<PremShape>
    decreases es,
{
    if es.len() == 0 { Seq::empty() } else { collects(es.drop_last()) + collect(es.last()) }
}

pub open spec fn collect_pathv(p: PathV) -> Seq<PremShape>
    decreases p,
{
    match p {
        PathV::Root => Seq::empty(),
        PathV::Idx(q, x) => collect_pathv(*q) + collect(*x),
        PathV::Slice(q, l, h) => collect_pathv(*q) + collect(*l) + collect(*h),
        PathV::Dot(q, _) => collect_pathv(*q),
    }
}

pub open spec fn collect_argsv(args: Seq<ArgV>) -> Seq<PremShape>
    decreases args,
{
    if args.len() == 0 {
        Seq::empty()
    } else {
        collect_argsv(args.drop_last()) + match args.last() {
            ArgV::Exp(x) => collect(*x),
            ArgV::Def(_) => Seq::empty(),
        }
    }
}

/// What a premise establishes (the must-premises) and the guards it needs
/// (the insert-premises).
pub open spec fn collect_prem_v(p: PremShape) -> (Seq<PremShape>, Seq<PremShape>)
    decreases p,
{
    match p {
        PremShape::Rule(_, _, args) => (Seq::empty(), collects(args)),
        PremShape::If(e) => (Seq::empty(), collect(e)),
        PremShape::IfHold(_, _, args) => (Seq::empty(), collects(args)),
        PremShape::IfNotHold(_, _, args) => (Seq::empty(), collects(args)),
        PremShape::Let(l, r) => (collect(l), collect(r)),
        PremShape::Iter(inner, iter, vb, vbind) => {
            let vars_must = vb + vbind;
            let c = collect_prem_v(*inner);
            (
                iterate_all(iter, vars_must, c.0) + iter_guard(iter, vars_must),
                iterate_all(iter, vb, c.1) + iter_guard(iter, vb),
            )
        },
        PremShape::Debug(e) => (Seq::empty(), collect(e)),
    }
}

/// The guards of `ins` that neither the facts of `musts` entail nor any of
/// `musts` repeats.
pub open spec fn keep_new(ins: Seq<PremShape>, musts: Seq<PremShape>) -> Seq<PremShape>
    decreases ins.len(),
{
    if ins.len() == 0 {
        Seq::empty()
    } else {
        let rest = keep_new(ins.drop_last(), musts);
        let q = ins.last();
        if !entails_prem(add_prems(Seq::empty(), musts), q) && !musts.contains(q) { rest.push(q) } else { rest }
    }
}

/// The guards kept before a premise are exactly the collected guards that
/// the premises established before it neither contain nor entail.
pub proof fn lemma_keep_new_exactly_fresh(ins: Seq<PremShape>, musts: Seq<PremShape>)
    ensures
        forall|q: PremShape| #[trigger] keep_new(ins, musts).contains(q) <==>
            (ins.contains(q) && !entails_prem(add_prems(Seq::empty(), musts), q) && !musts.contains(q)),
    decreases ins.len(),
{
    if ins.len() > 0 {
        let rest = ins.drop_last();
        lemma_keep_new_exactly_fresh(rest, musts);
        let q0 = ins.last();
        assert forall|q: PremShape| #[trigger] keep_new(ins, musts).contains(q) <==>
            (ins.contains(q) && !entails_prem(add_prems(Seq::empty(), musts), q) && !musts.contains(q)) by {
            let kr = keep_new(rest, musts);
            if keep_new(ins, musts).contains(q) {
                let j = choose|j: int| 0 <= j < keep_new(ins, musts).len() && keep_new(ins, musts)[j] == q;
                if j < kr.len() {
                    assert(kr[j] == q);
                    assert(kr.contains(q));
                    let k = choose|k: int| 0 <= k < rest.len() && rest[k] == q;
                    assert(ins[k] == q);
                } else {
                    assert(q == q0);
                    assert(ins[ins.len() - 1] == q);
                }
            }
            if ins.contains(q) && !entails_prem(add_prems(Seq::empty(), musts), q) && !musts.contains(q) {
                let k = choose|k: int| 0 <= k < ins.len() && ins[k] == q;
                if k < ins.len() - 1 {
                    assert(rest[k] == q);
                    assert(rest.contains(q));
                    assert(kr.contains(q));
                    let j = choose|j: int| 0 <= j < kr.len() && kr[j] == q;
                    assert(keep_new(ins, musts)[j] == q);
                } else {
                    assert(q == q0);
                    assert(keep_new(ins, musts) == kr.push(q0));
                    assert(keep_new(ins, musts)[kr.len() as int] == q);
                }
            }
        }
    }
}

/// Every indexing `b[i]` occurring outside iterations in an expression,
/// inside call arguments, fields and update paths included, gets its bound
/// guard `i < |b|` among the expression's guards.
pub proof fn lemma_collect_index(s: ExpV, e: ExpV)
    requires
        occurs_flat(s, e),
        s.node is Idx,
    ensures
        s.node matches ExpKindV::Idx(b, i) && collect(e).contains(index_guard(*b, *i)),
    decreases e,
{
    let g = match s.node {
        ExpKindV::Idx(b, i) => index_guard(*b, *i),
        _ => arbitrary(),
    };
    if s == e {
        if let ExpKindV::Idx(b, i) = e.node {
            let c = collect(*b) + collect(*i) + seq![g];
            assert(c[c.len() - 1] == g);
        }
    } else {
        match e.node {
            ExpKindV::Un(_, _, x) => lemma_collect_index(s, *x),
            ExpKindV::UpCast(_, x) => lemma_collect_index(s, *x),
            ExpKindV::DownCast(_, x) => lemma_collect_index(s, *x),
            ExpKindV::Sub(x, _) => lemma_collect_index(s, *x),
            ExpKindV::Match(x, _) => lemma_collect_index(s, *x),
            ExpKindV::Len(x) => lemma_collect_index(s, *x),
            ExpKindV::Dot(x, _) => lemma_collect_index(s, *x),
            ExpKindV::Bin(_, _, l, r) => {
                if occurs_flat(s, *l) {
                    lemma_collect_index(s, *l);
                } else {
                    lemma_collect_index(s, *r);
                }
                lemma_contains_concat(collect(*l), collect(*r), g);
            },
            ExpKindV::Cmp(_, _, l, r) => {
                if occurs_flat(s, *l) {
                    lemma_collect_index(s, *l);
                } else {
                    lemma_collect_index(s, *r);
                }
                lemma_contains_concat(collect(*l), collect(*r), g);
            },
            ExpKindV::Cons(l, r) => {
                if occurs_flat(s, *l) {
                    lemma_collect_index(s, *l);
                } else {
                    lemma_collect_index(s, *r);
                }
                lemma_contains_concat(collect(*l), collect(*r), g);
            },
            ExpKindV::Cat(l, r) => {
                if occurs_flat(s, *l) {
                    lemma_collect_index(s, *l);
                } else {
                    lemma_collect_index(s, *r);
                }
                lemma_contains_concat(collect(*l), collect(*r), g);
            },
            ExpKindV::Mem(l, r) => {
                if occurs_flat(s, *l) {
                    lemma_collect_index(s, *l);
                } else {
                    lemma_collect_index(s, *r);
                }
                lemma_contains_concat(collect(*l), collect(*r), g);
            },
            ExpKindV::Idx(l, r) => {
                if occurs_flat(s, *l) {
                    lemma_collect_index(s, *l);
                } else {
                    lemma_collect_index(s, *r);
                }
                lemma_contains_concat(collect(*l), collect(*r), g);
                lemma_contains_concat(collect(*l) + collect(*r), seq![index_guard(*l, *r)], g);
            },
            ExpKindV::Tuple(es) => lemma_collect_index_exps(s, es),
            ExpKindV::List(es) => lemma_collect_index_exps(s, es),
            ExpKindV::Case(_, es) => lemma_collect_index_exps(s, es),
            ExpKindV::Str(_, es) => lemma_collect_index_exps(s, es),
            ExpKindV::Opt(o) => match o {
                Some(x) => lemma_collect_index(s, *x),
                None => {},
            },
            ExpKindV::Slice(b, l, h) => {
                if occurs_flat(s, *b) {
                    lemma_collect_index(s, *b);
                    lemma_contains_concat(collect(*b), collect(*l), g);
                } else if occurs_flat(s, *l) {
                    lemma_collect_index(s, *l);
                    lemma_contains_concat(collect(*b), collect(*l), g);
                } else {
                    lemma_collect_index(s, *h);
                }
                lemma_contains_concat(collect(*b) + collect(*l), collect(*h), g);
            },
            ExpKindV::Upd(b, p, f) => {
                if occurs_flat(s, *b) {
                    lemma_collect_index(s, *b);
                    lemma_contains_concat(collect(*b), collect_pathv(p), g);
                } else if occurs_flat_in_path(s, p) {
                    lemma_collect_index_path(s, p);
                    lemma_contains_concat(collect(*b), collect_pathv(p), g);
                } else {
                    lemma_collect_index(s, *f);
                }
                lemma_contains_concat(collect(*b) + collect_pathv(p), collect(*f), g);
            },
            ExpKindV::Call(_, _, args) => lemma_collect_index_args(s, args),
            _ => {},
        }
    }
}

/// What either of two sequences contains, their concatenation contains.
proof fn lemma_contains_concat(a: Seq<PremShape>, b: Seq<PremShape>, g: PremShape)
    requires
        a.contains(g) || b.contains(g),
    ensures
        (a + b).contains(g),
{
    if a.contains(g) {
        let k = choose|k: int| 0 <= k < a.len() && a[k] == g;
        assert((a + b)[k] == g);
    } else {
        let k = choose|k: int| 0 <= k < b.len() && b[k] == g;
        assert((a + b)[a.len() + k] == g);
    }
}

/// An indexing in one of a list of expressions is guarded in the list's guards.
proof fn lemma_collect_index_exps(s: ExpV, es: Seq<ExpV>)
    requires
        occurs_flat_in(s, es),
        s.node is Idx,
    ensures
        s.node matches ExpKindV::Idx(b, i) && collects(es).contains(index_guard(*b, *i)),
    decreases es,
{
    let g = match s.node {
        ExpKindV::Idx(b, i) => index_guard(*b, *i),
        _ => arbitrary(),
    };
    if occurs_flat_in(s, es.drop_last()) {
        lemma_collect_index_exps(s, es.drop_last());
    } else {
        lemma_collect_index(s, es.last());
    }
    lemma_contains_concat(collects(es.drop_last()), collect(es.last()), g);
}

/// An indexing in an update path is guarded in the path's guards.
proof fn lemma_collect_index_path(s: ExpV, p: PathV)
    requires
        occurs_flat_in_path(s, p),
        s.node is Idx,
    ensures
        s.node matches ExpKindV::Idx(b, i) && collect_pathv(p).contains(index_guard(*b, *i)),
    decreases p,
{
    let g = match s.node {
        ExpKindV::Idx(b, i) => index_guard(*b, *i),
        _ => arbitrary(),
    };
    match p {
        PathV::Root => {},
        PathV::Idx(q, x) => {
            if occurs_flat_in_path(s, *q) {
                lemma_collect_index_path(s, *q);
            } else {
                lemma_collect_index(s, *x);
            }
            lemma_contains_concat(collect_pathv(*q), collect(*x), g);
        },
        PathV::Slice(q, l, h) => {
            if occurs_flat_in_path(s, *q) {
                lemma_collect_index_path(s, *q);
                lemma_contains_concat(collect_pathv(*q), collect(*l), g);
            } else if occurs_flat(s, *l) {
                lemma_collect_index(s, *l);
                lemma_contains_concat(collect_pathv(*q), collect(*l), g);
            } else {
                lemma_collect_index(s, *h);
            }
            lemma_contains_concat(collect_pathv(*q) + collect(*l), collect(*h), g);
        },
        PathV::Dot(q, _) => lemma_collect_index_path(s, *q),
    }
}

/// An indexing in an expression argument is guarded in the arguments' guards.
proof fn lemma_collect_index_args(s: ExpV, args: Seq<ArgV>)
    requires
        occurs_flat_in_args(s, args),
        s.node is Idx,
    ensures
        s.node matches ExpKindV::Idx(b, i) && collect_argsv(args).contains(index_guard(*b, *i)),
    decreases args,
{
    let g = match s.node {
        ExpKindV::Idx(b, i) => index_guard(*b, *i),
        _ => arbitrary(),
    };
    let last = match args.last() {
        ArgV::Exp(x) => collect(*x),
        ArgV::Def(_) => Seq::empty(),
    };
    if occurs_flat_in_args(s, args.drop_last()) {
        lemma_collect_index_args(s, args.drop_last());
    } else {
        match args.last() {
            ArgV::Exp(x) => lemma_collect_index(s, *x),
            ArgV::Def(_) => {},
        }
    }
    lemma_contains_concat(collect_argsv(args.drop_last()), last, g);
}

/// Inserting guards before a condition leaves no indexing in it, outside
/// iterations, unguarded: its bound guard is output before the condition,
/// is among the premises before it, or follows from them.
pub proof fn lemma_index_guarded(base: Seq<PremShape>, st: (Seq<PremShape>, Seq<PremShape>), e: ExpV, s: ExpV)
    requires
        occurs_flat(s, e),
        s.node is Idx,
    ensures
        s.node matches ExpKindV::Idx(b, i) && {
            let g = index_guard(*b, *i);
            let musts = base + st.0 + st.1;
            let out = insert_step(base, st, PremShape::If(e)).1;
            out.last() == PremShape::If(e)
                && (out.drop_last().contains(g) || musts.contains(g) || entails_prem(add_prems(Seq::empty(), musts), g))
        },
{
    let g = match s.node {
        ExpKindV::Idx(b, i) => index_guard(*b, *i),
        _ => arbitrary(),
    };
    let musts = base + st.0 + st.1;
    lemma_collect_index(s, e);
    lemma_keep_new_exactly_fresh(collect(e), musts);
    let kept = keep_new(collect(e), musts);
    let out = insert_step(base, st, PremShape::If(e)).1;
    assert(out == st.1 + kept.push(PremShape::If(e)));
    assert(out.drop_last() =~= st.1 + kept);
    if kept.contains(g) {
        lemma_contains_concat(st.1, kept, g);
    }
}

/// One step of guard insertion: the premises established so far and those
/// output so far, after premise `p` under the base premises `base`.
pub open spec fn insert_step(base: Seq<PremShape>, st: (Seq<PremShape>, Seq<PremShape>), p: PremShape) -> (Seq<PremShape>, Seq<PremShape>) {
    let c = collect_prem_v(p);
    let musts = base + st.0 + st.1;
    (st.0 + c.0, st.1 + keep_new(c.1, musts).push(p))
}

/// Guard insertion over a list of premises, in order.
pub open spec fn insert_all(base: Seq<PremShape>, ps: Seq<PremShape>) -> (Seq<PremShape>, Seq<PremShape>)
    decreases ps.len(),
{
    if ps.len() == 0 {
        (Seq::empty(), Seq::empty())
    } else {
        insert_step(base, insert_all(base, ps.drop_last()), ps.last())
    }
}

// == Guard generation

proof fn lemma_prems_view_concat(a: Seq<Prem>, b: Seq<Prem>)
    ensures
        prems_view(a + b) == prems_view(a) + prems_view(b),
{
    assert(prems_view(a + b) =~= prems_view(a) + prems_view(b));
}

/// Appends `b` to `a`.
fn extend_prems(a: &mut Vec<Prem>, b: Vec<Prem>)
    ensures
        prems_view(final(a)@) == prems_view(old(a)@) + prems_view(b@),
{
    let mut b = b;
    let ghost a0 = a@;
    let ghost b0 = b@;
    a.append(&mut b);
    proof {
        lemma_prems_view_concat(a0, b0);
    }
}

/// The condition `exp`, as a premise at its location.
fn cond_prem(exp: Exp) -> (p: Prem)
    ensures
        p@ == PremShape::If(exp_view(exp)),
{
    let span = exp.span;
    Prem { node: PremKind::If(IfPrem { exp }), span }
}

fn one(p: Prem) -> (v: Vec<Prem>)
    ensures
        prems_view(v@) == seq![p@],
{
    let mut v: Vec<Prem> = Vec::new();
    v.push(p);
    assert(prems_view(v@) =~= seq![p@]);
    v
}

fn none() -> (v: Vec<Prem>)
    ensures
        prems_view(v@) == Seq::<PremShape>::empty(),
{
    let v: Vec<Prem> = Vec::new();
    assert(prems_view(v@) =~= Seq::<PremShape>::empty());
    v
}

/// `index < |base|`, at the location of the indexing `exp`.
fn gen_index_guard(exp: &Exp, base: &Exp, index: &Exp) -> (r: Vec<Prem>)
    ensures
        prems_view(r@) == seq![index_guard(exp_view(*base), exp_view(*index))],
{
    let span = exp.span;
    let exp_len = Exp { node: ExpKind::Len(Box::new(clone_exp(base))), note: TypKind::Num(NumTyp::Nat), span };
    let exp_guard = Exp {
        node: ExpKind::Cmp(CmpOp::Lt, OpTyp::Bool, Box::new(clone_exp(index)), Box::new(exp_len)),
        note: TypKind::Bool,
        span,
    };
    proof {
        assert(typ_kind_view(TypKind::Bool) == TypV::Bool);
        assert(typ_kind_view(TypKind::Num(NumTyp::Nat)) == TypV::Num(NumTyp::Nat));
        assert(exp_view(exp_len) == (ExpV { node: ExpKindV::Len(Box::new(exp_view(*base))), note: TypV::Num(NumTyp::Nat) }));
        assert(exp_view(exp_guard) == bool_exp(ExpKindV::Cmp(CmpOp::Lt, OpTyp::Bool, Box::new(exp_view(*index)), Box::new(exp_view(exp_len)))));
    }
    one(cond_prem(exp_guard))
}

fn push_iter(var: &Var, iter: Iter) -> (v: Var)
    ensures
        v@ == iterated(var@, iter),
{
    let mut v = clone_var(var);
    v.iters.push(iter);
    v
}

/// `v? = eps` for the variable `var` under the iteration.
fn gen_exp_eq_epsilon(iter: Iter, var: &Var) -> (e: Exp)
    ensures
        exp_view(e) == bool_exp(ExpKindV::Cmp(
            CmpOp::Eq,
            OpTyp::Bool,
            Box::new(var_exp(iterated(var@, iter))),
            Box::new(ExpV { node: ExpKindV::Opt(None), note: var_exp(iterated(var@, iter)).note }),
        )),
{
    let v = push_iter(var, iter);
    let exp = as_exp(&v);
    let span = exp.span;
    let exp_epsilon = Exp { node: ExpKind::Opt(None), note: crate::il_typ::clone_typ_kind(&exp.note), span };
    proof {
        assert(typ_kind_view(TypKind::Bool) == TypV::Bool);
        assert(exp_view(exp_epsilon) == (ExpV { node: ExpKindV::Opt(None), note: exp_view(exp).note }));
    }
    Exp { node: ExpKind::Cmp(CmpOp::Eq, OpTyp::Bool, Box::new(exp), Box::new(exp_epsilon)), note: TypKind::Bool, span }
}

/// `|v*|` for the variable `var` under the iteration.
fn gen_exp_len(iter: Iter, var: &Var) -> (e: Exp)
    ensures
        exp_view(e) == (ExpV { node: ExpKindV::Len(Box::new(var_exp(iterated(var@, iter)))), note: TypV::Num(NumTyp::Nat) }),
{
    let v = push_iter(var, iter);
    let exp = as_exp(&v);
    let span = exp.span;
    proof {
        assert(typ_kind_view(TypKind::Num(NumTyp::Nat)) == TypV::Num(NumTyp::Nat));
    }
    Exp { node: ExpKind::Len(Box::new(exp)), note: TypKind::Num(NumTyp::Nat), span }
}

fn gen_measure(iter: Iter, var: &Var) -> (e: Exp)
    ensures
        exp_view(e) == iter_measure(iter, var@),
{
    match iter {
        Iter::Opt => gen_exp_eq_epsilon(iter, var),
        Iter::List => gen_exp_len(iter, var),
    }
}

fn span_over(a: Span, b: Span) -> (s: Span) {
    let lo = if a.lo <= b.lo { a.lo } else { b.lo };
    let hi = if a.hi >= b.hi { a.hi } else { b.hi };
    Span { lo, hi }
}

/// The agreement of two measures.
fn gen_exp_pair(iter: Iter, l: Exp, r: Exp) -> (e: Exp)
    ensures
        exp_view(e) == pair_exp(iter, exp_view(l), exp_view(r)),
{
    let span = span_over(l.span, r.span);
    proof {
        assert(typ_kind_view(TypKind::Bool) == TypV::Bool);
    }
    let node = match iter {
        Iter::Opt => ExpKind::Bin(BinOp::Equiv, OpTyp::Bool, Box::new(l), Box::new(r)),
        Iter::List => ExpKind::Cmp(CmpOp::Eq, OpTyp::Bool, Box::new(l), Box::new(r)),
    };
    Exp { node, note: TypKind::Bool, span }
}

/// `l /\ r`.
fn gen_exp_and(l: Exp, r: Exp) -> (e: Exp)
    ensures
        exp_view(e) == bool_exp(ExpKindV::Bin(BinOp::And, OpTyp::Bool, Box::new(exp_view(l)), Box::new(exp_view(r)))),
{
    let span = span_over(l.span, r.span);
    proof {
        assert(typ_kind_view(TypKind::Bool) == TypV::Bool);
    }
    Exp { node: ExpKind::Bin(BinOp::And, OpTyp::Bool, Box::new(l), Box::new(r)), note: TypKind::Bool, span }
}

/// The guard that the variables of an iteration agree in length.
fn gen_iter_guard(iter: Iter, vars: &Vec<Var>) -> (r: Vec<Prem>)
    ensures
        prems_view(r@) == iter_guard(iter, vars_view(vars@)),
{
    let ghost vs = vars_view(vars@);
    if vars.len() < 2 {
        return none();
    }
    let first = gen_measure(iter, &vars[0]);
    let mut prev = gen_measure(iter, &vars[1]);
    let mut guard = gen_exp_pair(iter, first, clone_exp(&prev));
    let mut k: usize = 2;
    while k < vars.len()
        invariant
            2 <= k <= vars@.len(),
            vs == vars_view(vars@),
            exp_view(guard) == agree_chain(iter, vs, k as int),
            exp_view(prev) == iter_measure(iter, vs[k - 1]),
        decreases vars@.len() - k,
    {
        let cur = gen_measure(iter, &vars[k]);
        let pair = gen_exp_pair(iter, prev, clone_exp(&cur));
        guard = gen_exp_and(guard, pair);
        prev = cur;
        k = k + 1;
    }
    one(cond_prem(guard))
}

// == Guard collection

/// A premise iterated over those of `vars` that it mentions.
fn iterate_prem(iter: Iter, vars: &Vec<Var>, prem: Prem) -> (r: Option<Prem>)
    ensures
        match r {
            Some(q) => iterate_one(iter, vars_view(vars@), prem@) == Some(q@),
            None => iterate_one(iter, vars_view(vars@), prem@) is None,
        },
{
    let frees = free_prem(&prem);
    proof {
        lemma_prem_free_view(prem);
    }
    let ghost vs = vars_view(vars@);
    let ghost f = mentions(prem@);
    let mut bound: Vec<Var> = Vec::new();
    proof {
        assert(vs.take(0) =~= Seq::<VarV>::empty());
        assert(vars_view(bound@) =~= Seq::<VarV>::empty());
    }
    for i in 0..vars.len()
        invariant
            vs == vars_view(vars@),
            f == mentions(prem@),
            frees@ == shape_free(prem@),
            vars_view(bound@) == keep_vars(vs.take(i as int), f),
    {
        proof {
            assert(vs.take(i + 1).drop_last() =~= vs.take(i as int));
            assert(vs.take(i + 1).last() == var_view(vars@[i as int]));
        }
        if frees.contains(&vars[i].id) {
            let ghost b0 = bound@;
            bound.push(clone_var(&vars[i]));
            proof {
                assert(vars_view(bound@) =~= vars_view(b0).push(var_view(vars@[i as int])));
            }
        }
    }
    proof {
        assert(vs.take(vars@.len() as int) =~= vs);
    }
    if bound.len() == 0 {
        proof {
            assert(vars_view(bound@).len() == 0);
        }
        return None;
    }
    let span = prem.span;
    let ghost pv = prem@;
    let prem_iter = PremIter { iter, vars_bound: bound, vars_bind: Vec::new() };
    proof {
        assert(vars_view(prem_iter.vars_bind@) =~= Seq::<VarV>::empty());
    }
    Some(Prem { node: PremKind::Iter(IterPrem { prem: Box::new(prem), prem_iter }), span })
}

/// Each premise iterated over the variables it mentions, those mentioning
/// none dropped.
fn iterate_prems(iter: Iter, vars: &Vec<Var>, prems: Vec<Prem>) -> (r: Vec<Prem>)
    ensures
        prems_view(r@) == iterate_all(iter, vars_view(vars@), prems_view(prems@)),
{
    let ghost ps = prems_view(prems@);
    let mut out = none();
    proof {
        assert(ps.take(0) =~= Seq::<PremShape>::empty());
    }
    let n = prems.len();
    let mut i: usize = 0;
    let mut src = prems;
    while i < n
        invariant
            i <= n,
            n == ps.len(),
            src@.len() == n - i,
            forall|j: int| 0 <= j < src@.len() ==> (#[trigger] src@[j])@ == ps[i + j],
            prems_view(out@) == iterate_all(iter, vars_view(vars@), ps.take(i as int)),
        decreases n - i,
    {
        let ghost s0 = src@;
        let p = src.remove(0);
        proof {
            assert(p@ == ps[i as int]);
            assert(ps.take(i + 1).drop_last() =~= ps.take(i as int));
            assert(ps.take(i + 1).last() == ps[i as int]);
            assert forall|j: int| 0 <= j < src@.len() implies (#[trigger] src@[j])@ == ps[i + 1 + j] by {
                assert(src@[j] == s0[j + 1]);
            }
        }
        match iterate_prem(iter, vars, p) {
            Some(q) => {
                let ghost o0 = prems_view(out@);
                out.push(q);
                proof {
                    assert(prems_view(out@) =~= o0 + seq![q@]);
                }
            },
            None => {
                proof {
                    assert(prems_view(out@) =~= prems_view(out@) + Seq::<PremShape>::empty());
                }
            },
        }
        i = i + 1;
    }
    proof {
        assert(ps.take(n as int) =~= ps);
    }
    out
}

/// The guards of an expression.
fn collect_exp(exp: &Exp) -> (r: Vec<Prem>)
    ensures
        prems_view(r@) == collect(exp_view(*exp)),
    decreases exp,
{
    match &exp.node {
        ExpKind::Bool(_) | ExpKind::Num(_) | ExpKind::Text(_) | ExpKind::Var(_) => none(),
        ExpKind::Un(_, _, x) | ExpKind::UpCast(_, x) | ExpKind::DownCast(_, x) | ExpKind::Sub(x, _)
        | ExpKind::Match(x, _) | ExpKind::Len(x) | ExpKind::Dot(x, _) => collect_exp(x),
        ExpKind::Bin(_, _, l, r) | ExpKind::Cmp(_, _, l, r) | ExpKind::Cons(l, r) | ExpKind::Cat(l, r)
        | ExpKind::Mem(l, r) => {
            let mut out = collect_exp(l);
            extend_prems(&mut out, collect_exp(r));
            out
        },
        ExpKind::Tuple(es) | ExpKind::List(es) => collect_exps(es),
        ExpKind::Case(n) => collect_exps(&n.args),
        ExpKind::Str(fs) => collect_fields(fs),
        ExpKind::Opt(o) => match o {
            Some(x) => collect_exp(x),
            None => none(),
        },
        ExpKind::Idx(b, i) => {
            let mut out = collect_exp(b);
            extend_prems(&mut out, collect_exp(i));
            extend_prems(&mut out, gen_index_guard(exp, b, i));
            out
        },
        ExpKind::Slice(b, l, h) => {
            let mut out = collect_exp(b);
            extend_prems(&mut out, collect_exp(l));
            extend_prems(&mut out, collect_exp(h));
            out
        },
        ExpKind::Upd(b, p, f) => {
            let mut out = collect_exp(b);
            extend_prems(&mut out, collect_path(p));
            extend_prems(&mut out, collect_exp(f));
            out
        },
        ExpKind::Call(_, _, args) => collect_args(args),
        ExpKind::Iter(x, it) => {
            let inner = collect_exp(x);
            let mut out = iterate_prems(it.iter, &it.vars, inner);
            extend_prems(&mut out, gen_iter_guard(it.iter, &it.vars));
            out
        },
    }
}

#[verifier::loop_isolation(false)]
fn collect_exps(exps: &Vec<Exp>) -> (r: Vec<Prem>)
    ensures
        prems_view(r@) == collects(exps_view(exps@)),
    decreases exps,
{
    let ghost xs = exps_view(exps@);
    proof {
        crate::il_exp::lemma_exps_view(exps@);
        assert(xs.take(0) =~= Seq::<ExpV>::empty());
    }
    let mut out = none();
    for i in 0..exps.len()
        invariant
            xs == exps_view(exps@),
            prems_view(out@) == collects(xs.take(i as int)),
    {
        proof {
            assert(decreases_to!(exps => exps@[i as int]));
            assert(xs.take(i + 1).drop_last() =~= xs.take(i as int));
            assert(xs.take(i + 1).last() == exp_view(exps@[i as int]));
        }
        extend_prems(&mut out, collect_exp(&exps[i]));
    }
    proof {
        assert(xs.take(exps@.len() as int) =~= xs);
    }
    out
}

#[verifier::loop_isolation(false)]
fn collect_fields(fields: &Vec<ExpField>) -> (r: Vec<Prem>)
    ensures
        prems_view(r@) == collects(fields_view(fields@)),
    decreases fields,
{
    let ghost xs = fields_view(fields@);
    proof {
        crate::il_exp::lemma_fields_view(fields@);
        assert(xs.take(0) =~= Seq::<ExpV>::empty());
    }
    let mut out = none();
    for i in 0..fields.len()
        invariant
            xs == fields_view(fields@),
            prems_view(out@) == collects(xs.take(i as int)),
    {
        proof {
            assert(decreases_to!(fields => fields@[i as int]));
            assert(decreases_to!(fields@[i as int] => fields@[i as int].exp));
            assert(xs.take(i + 1).drop_last() =~= xs.take(i as int));
            assert(xs.take(i + 1).last() == exp_view(fields@[i as int].exp));
        }
        extend_prems(&mut out, collect_exp(&fields[i].exp));
    }
    proof {
        assert(xs.take(fields@.len() as int) =~= xs);
    }
    out
}

/// The guards of an update path.
fn collect_path(path: &Path) -> (r: Vec<Prem>)
    ensures
        prems_view(r@) == collect_pathv(path_view(*path)),
    decreases path,
{
    match &path.node {
        PathKind::Root => none(),
        PathKind::Idx(q, x) => {
            let mut out = collect_path(q);
            extend_prems(&mut out, collect_exp(x));
            out
        },
        PathKind::Slice(q, l, h) => {
            let mut out = collect_path(q);
            extend_prems(&mut out, collect_exp(l));
            extend_prems(&mut out, collect_exp(h));
            out
        },
        PathKind::Dot(q, _) => collect_path(q),
    }
}

/// The guards of an argument.
fn collect_arg(arg: &Arg) -> (r: Vec<Prem>)
    ensures
        prems_view(r@) == match arg_view(*arg) {
            ArgV::Exp(x) => collect(*x),
            ArgV::Def(_) => Seq::<PremShape>::empty(),
        },
    decreases arg,
{
    match &arg.node {
        ArgKind::Exp(x) => collect_exp(x),
        ArgKind::Def(_) => none(),
    }
}

#[verifier::loop_isolation(false)]
fn collect_args(args: &Vec<Arg>) -> (r: Vec<Prem>)
    ensures
        prems_view(r@) == collect_argsv(args_view(args@)),
    decreases args,
{
    let ghost xs = args_view(args@);
    proof {
        crate::il_exp::lemma_args_view(args@);
        assert(xs.take(0) =~= Seq::<ArgV>::empty());
    }
    let mut out = none();
    for i in 0..args.len()
        invariant
            xs == args_view(args@),
            prems_view(out@) == collect_argsv(xs.take(i as int)),
    {
        proof {
            assert(decreases_to!(args => args@[i as int]));
            assert(xs.take(i + 1).drop_last() =~= xs.take(i as int));
            assert(xs.take(i + 1).last() == arg_view(args@[i as int]));
        }
        extend_prems(&mut out, collect_arg(&args[i]));
    }
    proof {
        assert(xs.take(args@.len() as int) =~= xs);
    }
    out
}

// == Premise collection

/// What a premise establishes before evaluation (its must-premises) and the
/// guards that its partial operations need (its insert-premises).
pub struct Collected {
    pub prems_must: Vec<Prem>,
    pub prems_insert: Vec<Prem>,
}

/// The views of a collection.
pub open spec fn collected_view(c: Collected) -> (Seq<PremShape>, Seq<PremShape>) {
    (prems_view(c.prems_must@), prems_view(c.prems_insert@))
}

impl Collected {
    /// Both collections, this one's first.
    fn compose(self, other: Collected) -> (c: Collected)
        ensures
            collected_view(c) == (collected_view(self).0 + collected_view(other).0, collected_view(self).1 + collected_view(other).1),
    {
        let mut this = self;
        extend_prems(&mut this.prems_must, other.prems_must);
        extend_prems(&mut this.prems_insert, other.prems_insert);
        this
    }
}

/// Iterates the must-premises over `vars_must` and the insert-premises over
/// `vars_insert`.
fn iterate_collected(iter: Iter, vars_must: &Vec<Var>, vars_insert: &Vec<Var>, collected: Collected) -> (c: Collected)
    ensures
        collected_view(c) == (
            iterate_all(iter, vars_view(vars_must@), collected_view(collected).0),
            iterate_all(iter, vars_view(vars_insert@), collected_view(collected).1),
        ),
{
    Collected {
        prems_must: iterate_prems(iter, vars_must, collected.prems_must),
        prems_insert: iterate_prems(iter, vars_insert, collected.prems_insert),
    }
}

fn only_insert(prems_insert: Vec<Prem>) -> (c: Collected)
    ensures
        collected_view(c) == (Seq::<PremShape>::empty(), prems_view(prems_insert@)),
{
    Collected { prems_must: none(), prems_insert }
}

fn collect_rule_prem(rule_prem: &RulePrem) -> (c: Collected)
    ensures
        collected_view(c) == (Seq::<PremShape>::empty(), collects(exps_view(rule_prem.not_exp.args@))),
{
    only_insert(collect_exps(&rule_prem.not_exp.args))
}

fn collect_if_prem(if_prem: &IfPrem) -> (c: Collected)
    ensures
        collected_view(c) == (Seq::<PremShape>::empty(), collect(exp_view(if_prem.exp))),
{
    only_insert(collect_exp(&if_prem.exp))
}

fn collect_if_hold_prem(rule_prem: &RulePrem) -> (c: Collected)
    ensures
        collected_view(c) == (Seq::<PremShape>::empty(), collects(exps_view(rule_prem.not_exp.args@))),
{
    only_insert(collect_exps(&rule_prem.not_exp.args))
}

fn collect_if_not_hold_prem(rule_prem: &RulePrem) -> (c: Collected)
    ensures
        collected_view(c) == (Seq::<PremShape>::empty(), collects(exps_view(rule_prem.not_exp.args@))),
{
    only_insert(collect_exps(&rule_prem.not_exp.args))
}

/// A binding establishes the guards of its pattern and needs those of its value.
fn collect_let_prem(let_prem: &LetPrem) -> (c: Collected)
    ensures
        collected_view(c) == (collect(exp_view(let_prem.exp_l)), collect(exp_view(let_prem.exp_r))),
{
    Collected { prems_must: collect_exp(&let_prem.exp_l), prems_insert: collect_exp(&let_prem.exp_r) }
}

fn collect_debug_prem(debug_prem: &IfPrem) -> (c: Collected)
    ensures
        collected_view(c) == (Seq::<PremShape>::empty(), collect(exp_view(debug_prem.exp))),
{
    only_insert(collect_exp(&debug_prem.exp))
}

fn concat_vars(a: &Vec<Var>, b: &Vec<Var>) -> (r: Vec<Var>)
    ensures
        vars_view(r@) == vars_view(a@) + vars_view(b@),
{
    let mut r = crate::il_typ::clone_vars(a);
    let mut c = crate::il_typ::clone_vars(b);
    let ghost r0 = r@;
    let ghost c0 = c@;
    r.append(&mut c);
    assert(vars_view(r@) =~= vars_view(r0) + vars_view(c0));
    r
}

/// An iterated premise establishes and needs the guards of its body, iterated,
/// and the agreement of the lengths of its variables.
fn collect_iter_prem(iter_prem: &IterPrem) -> (c: Collected)
    ensures
        collected_view(c) == collect_prem_v(PremShape::Iter(
            Box::new(iter_prem.prem@),
            iter_prem.prem_iter.iter,
            vars_view(iter_prem.prem_iter.vars_bound@),
            vars_view(iter_prem.prem_iter.vars_bind@),
        )),
    decreases iter_prem,
{
    let prem_iter = &iter_prem.prem_iter;
    let vars_must = concat_vars(&prem_iter.vars_bound, &prem_iter.vars_bind);
    let collected = collect_prem(&iter_prem.prem);
    let collected = iterate_collected(prem_iter.iter, &vars_must, &prem_iter.vars_bound, collected);
    let collected_guard = Collected {
        prems_must: gen_iter_guard(prem_iter.iter, &vars_must),
        prems_insert: gen_iter_guard(prem_iter.iter, &prem_iter.vars_bound),
    };
    collected.compose(collected_guard)
}

/// What a premise establishes and needs.
fn collect_prem(prem: &Prem) -> (c: Collected)
    ensures
        collected_view(c) == collect_prem_v(prem@),
    decreases prem,
{
    match &prem.node {
        PremKind::Rule(r) => collect_rule_prem(r),
        PremKind::If(i) => collect_if_prem(i),
        PremKind::IfHold(r) => collect_if_hold_prem(r),
        PremKind::IfNotHold(r) => collect_if_not_hold_prem(r),
        PremKind::Let(l) => collect_let_prem(l),
        PremKind::Iter(it) => collect_iter_prem(it),
        PremKind::Debug(d) => collect_debug_prem(d),
    }
}

// == Guard insertion

fn contains_prem(prems: &Vec<Prem>, p: &Prem) -> (r: bool)
    ensures
        r == prems_view(prems@).contains(p@),
{
    let mut i: usize = 0;
    while i < prems.len()
        invariant
            i <= prems@.len(),
            forall|j: int| 0 <= j < i ==> prems_view(prems@)[j] != p@,
        decreases prems@.len() - i,
    {
        if prem_eq(&prems[i], p) {
            assert(prems_view(prems@)[i as int] == p@);
            return true;
        }
        i = i + 1;
    }
    false
}

/// The guards of `prems_insert` that the facts of `prems_must` do not entail
/// and that none of `prems_must` repeats.
fn filter_prems_insert(prems_must: &Vec<Prem>, prems_insert: Vec<Prem>) -> (r: Vec<Prem>)
    ensures
        prems_view(r@) == keep_new(prems_view(prems_insert@), prems_view(prems_must@)),
{
    let table = EquivalenceTable::from_prems(prems_must);
    let ghost ms = prems_view(prems_must@);
    let ghost ps = prems_view(prems_insert@);
    let mut out = none();
    proof {
        assert(ps.take(0) =~= Seq::<PremShape>::empty());
    }
    let n = prems_insert.len();
    let mut src = prems_insert;
    let mut i: usize = 0;
    while i < n
        invariant
            i <= n,
            n == ps.len(),
            ms == prems_view(prems_must@),
            table@ == add_prems(Seq::empty(), ms),
            src@.len() == n - i,
            forall|j: int| 0 <= j < src@.len() ==> (#[trigger] src@[j])@ == ps[i + j],
            prems_view(out@) == keep_new(ps.take(i as int), ms),
        decreases n - i,
    {
        let ghost s0 = src@;
        let p = src.remove(0);
        proof {
            assert(p@ == ps[i as int]);
            assert(ps.take(i + 1).drop_last() =~= ps.take(i as int));
            assert(ps.take(i + 1).last() == ps[i as int]);
            assert forall|j: int| 0 <= j < src@.len() implies (#[trigger] src@[j])@ == ps[i + 1 + j] by {
                assert(src@[j] == s0[j + 1]);
            }
        }
        let implied = table.implies(&p);
        let duplicated = contains_prem(prems_must, &p);
        if !implied && !duplicated {
            let ghost o0 = prems_view(out@);
            out.push(p);
            proof {
                assert(prems_view(out@) =~= o0.push(ps[i as int]));
            }
        }
        i = i + 1;
    }
    proof {
        assert(ps.take(n as int) =~= ps);
    }
    out
}

fn clone_prems(prems: &Vec<Prem>) -> (r: Vec<Prem>)
    ensures
        prems_view(r@) == prems_view(prems@),
{
    let mut r: Vec<Prem> = Vec::new();
    for i in 0..prems.len()
        invariant
            r@.len() == i,
            forall|j: int| 0 <= j < i ==> (#[trigger] r@[j])@ == prems@[j]@,
    {
        r.push(clone_prem(&prems[i]));
    }
    assert(prems_view(r@) =~= prems_view(prems@));
    r
}

/// Inserts before `prem` the guards it needs that are not established
/// already, and records what it establishes.
fn insert_prem(prems_base: &Vec<Prem>, prems_derived: &mut Vec<Prem>, prems_output: &mut Vec<Prem>, prem: Prem)
    ensures
        (prems_view(final(prems_derived)@), prems_view(final(prems_output)@))
            == insert_step(prems_view(prems_base@), (prems_view(old(prems_derived)@), prems_view(old(prems_output)@)), prem@),
{
    let collected = collect_prem(&prem);
    let mut musts = clone_prems(prems_base);
    extend_prems(&mut musts, clone_prems(prems_derived));
    extend_prems(&mut musts, clone_prems(prems_output));
    let ghost pv = prem@;
    let mut prems_insert = filter_prems_insert(&musts, collected.prems_insert);
    let ghost i0 = prems_view(prems_insert@);
    prems_insert.push(prem);
    proof {
        assert(prems_view(prems_insert@) =~= i0.push(pv));
    }
    extend_prems(prems_derived, collected.prems_must);
    extend_prems(prems_output, prems_insert);
}

/// The premises established along the way and the premises with their guards.
pub struct InsertedPrems {
    pub derived: Vec<Prem>,
    pub output: Vec<Prem>,
}

/// Inserts guards before each premise, under the base premises that hold
/// before all of them.
pub fn insert_prems(prems_base: &Vec<Prem>, prems: Vec<Prem>) -> (r: InsertedPrems)
    ensures
        (prems_view(r.derived@), prems_view(r.output@)) == insert_all(prems_view(prems_base@), prems_view(prems@)),
{
    let ghost base = prems_view(prems_base@);
    let ghost ps = prems_view(prems@);
    let mut derived = none();
    let mut output = none();
    proof {
        assert(ps.take(0) =~= Seq::<PremShape>::empty());
    }
    let n = prems.len();
    let mut src = prems;
    let mut i: usize = 0;
    while i < n
        invariant
            i <= n,
            n == ps.len(),
            base == prems_view(prems_base@),
            src@.len() == n - i,
            forall|j: int| 0 <= j < src@.len() ==> (#[trigger] src@[j])@ == ps[i + j],
            (prems_view(derived@), prems_view(output@)) == insert_all(base, ps.take(i as int)),
        decreases n - i,
    {
        let ghost s0 = src@;
        let p = src.remove(0);
        proof {
            assert(p@ == ps[i as int]);
            assert(ps.take(i + 1).drop_last() =~= ps.take(i as int));
            assert(ps.take(i + 1).last() == ps[i as int]);
            assert forall|j: int| 0 <= j < src@.len() implies (#[trigger] src@[j])@ == ps[i + 1 + j] by {
                assert(src@[j] == s0[j + 1]);
            }
        }
        insert_prem(prems_base, &mut derived, &mut output, p);
        i = i + 1;
    }
    proof {
        assert(ps.take(n as int) =~= ps);
    }
    InsertedPrems { derived, output }
}

// == Insertion into definitions

/// The premises of a rule path after guard insertion under the base
/// premises `base`: its own premises with their guards, then the guards of
/// its outputs that are not established already.
pub open spec fn path_prems_after(base: Seq<PremShape>, prems: Seq<PremShape>, outputs: Seq<ExpV>) -> Seq<PremShape> {
    let p = insert_all(base, prems);
    p.1 + keep_new(collects(outputs), base + p.0 + p.1)
}

/// Whether rule group `r` is `g` with guards inserted: the input guards hold
/// for the match premises, and the guards of the inputs and of the match
/// hold for each path.
pub open spec fn rule_group_inserted(g: RuleGroup, r: RuleGroup) -> bool {
    let input = collects(exps_view(g.rule_match.exps_input@));
    let m = insert_all(input, prems_view(g.rule_match.prems@));
    &&& r.id == g.id
    &&& r.span == g.span
    &&& r.rule_match.exps_signature == g.rule_match.exps_signature
    &&& r.rule_match.exps_input == g.rule_match.exps_input
    &&& prems_view(r.rule_match.prems@) == m.1
    &&& r.rule_paths@.len() == g.rule_paths@.len()
    &&& forall|i: int| 0 <= i < g.rule_paths@.len() ==> {
        &&& (#[trigger] r.rule_paths@[i]).exps_output == g.rule_paths@[i].exps_output
        &&& prems_view(r.rule_paths@[i].prems@)
            == path_prems_after(input + m.0 + m.1, prems_view(g.rule_paths@[i].prems@), exps_view(g.rule_paths@[i].exps_output@))
    }
}

/// Whether `otherwise` group `r` is `g` with guards inserted.
pub open spec fn else_group_inserted(g: ElseGroup, r: ElseGroup) -> bool {
    let input = collects(exps_view(g.rule_match.exps_input@));
    let m = insert_all(input, prems_view(g.rule_match.prems@));
    &&& r.span == g.span
    &&& r.rule_match.exps_signature == g.rule_match.exps_signature
    &&& r.rule_match.exps_input == g.rule_match.exps_input
    &&& prems_view(r.rule_match.prems@) == m.1
    &&& r.rule_path.exps_output == g.rule_path.exps_output
    &&& prems_view(r.rule_path.prems@)
        == path_prems_after(input + m.0 + m.1, prems_view(g.rule_path.prems@), exps_view(g.rule_path.exps_output@))
}

/// Whether clause `r` is `c` with guards inserted: the guards of the
/// arguments hold for the premises and the result.
pub open spec fn clause_inserted(c: Clause, r: Clause) -> bool {
    let args = collect_argsv(args_view(c.args@));
    &&& r.span == c.span
    &&& r.args == c.args
    &&& r.expression == c.expression
    &&& prems_view(r.premises@) == path_prems_after(args, prems_view(c.premises@), seq![exp_view(c.expression)])
}

pub open spec fn rel_def_inserted(d: RelDef, r: RelDef) -> bool {
    &&& r.id == d.id
    &&& r.rule_groups@.len() == d.rule_groups@.len()
    &&& forall|i: int| 0 <= i < d.rule_groups@.len() ==> rule_group_inserted(d.rule_groups@[i], #[trigger] r.rule_groups@[i])
    &&& match (d.else_group, r.else_group) {
        (Some(a), Some(b)) => else_group_inserted(a, b),
        (None, None) => true,
        _ => false,
    }
}

pub open spec fn func_dec_inserted(d: FuncDecDef, r: FuncDecDef) -> bool {
    &&& r.id == d.id
    &&& r.clauses@.len() == d.clauses@.len()
    &&& forall|i: int| 0 <= i < d.clauses@.len() ==> clause_inserted(d.clauses@[i], #[trigger] r.clauses@[i])
    &&& match (d.else_clause, r.else_clause) {
        (Some(a), Some(b)) => clause_inserted(a, b),
        (None, None) => true,
        _ => false,
    }
}

/// Whether definition `r` is `d` with guards inserted into its rules and clauses.
pub open spec fn def_inserted(d: Def, r: Def) -> bool {
    &&& r.span == d.span
    &&& match (d.node, r.node) {
        (DefKind::Rel(a), DefKind::Rel(b)) => rel_def_inserted(a, b),
        (DefKind::FuncDec(a), DefKind::FuncDec(b)) => func_dec_inserted(a, b),
        (DefKind::Other(a), DefKind::Other(b)) => a == b,
        _ => false,
    }
}

/// The premises of a path with their guards, then the guards of its outputs.
fn insert_path(base: &Vec<Prem>, prems: Vec<Prem>, outputs: Vec<Prem>) -> (r: Vec<Prem>)
    ensures
        prems_view(r@) == {
            let p = insert_all(prems_view(base@), prems_view(prems@));
            p.1 + keep_new(prems_view(outputs@), prems_view(base@) + p.0 + p.1)
        },
{
    let inserted = insert_prems(base, prems);
    let InsertedPrems { derived, output } = inserted;
    let mut musts = clone_prems(base);
    extend_prems(&mut musts, clone_prems(&derived));
    extend_prems(&mut musts, clone_prems(&output));
    let filtered = filter_prems_insert(&musts, outputs);
    let mut out = output;
    extend_prems(&mut out, filtered);
    out
}

fn insert_rule_group(group: RuleGroup) -> (r: RuleGroup)
    ensures
        rule_group_inserted(group, r),
{
    let ghost g = group;
    let RuleGroup { id, rule_match, rule_paths, span } = group;
    let RuleMatch { exps_signature, exps_input, prems } = rule_match;
    let prems_input = collect_exps(&exps_input);
    let InsertedPrems { derived, output } = insert_prems(&prems_input, prems);
    let mut base = clone_prems(&prems_input);
    extend_prems(&mut base, clone_prems(&derived));
    extend_prems(&mut base, clone_prems(&output));
    let ghost bv = prems_view(base@);
    let mut paths: Vec<RulePath> = Vec::new();
    let n = rule_paths.len();
    let mut src = rule_paths;
    let mut i: usize = 0;
    while i < n
        invariant
            i <= n,
            n == g.rule_paths@.len(),
            src@.len() == n - i,
            forall|j: int| 0 <= j < src@.len() ==> #[trigger] src@[j] == g.rule_paths@[i + j],
            bv == prems_view(base@),
            paths@.len() == i,
            forall|j: int| 0 <= j < i ==> {
                &&& (#[trigger] paths@[j]).exps_output == g.rule_paths@[j].exps_output
                &&& prems_view(paths@[j].prems@) == path_prems_after(bv, prems_view(g.rule_paths@[j].prems@), exps_view(g.rule_paths@[j].exps_output@))
            },
        decreases n - i,
    {
        let ghost s0 = src@;
        let path = src.remove(0);
        proof {
            assert forall|j: int| 0 <= j < src@.len() implies #[trigger] src@[j] == g.rule_paths@[i + 1 + j] by {
                assert(src@[j] == s0[j + 1]);
            }
        }
        let RulePath { prems, exps_output } = path;
        let outputs = collect_exps(&exps_output);
        let prems2 = insert_path(&base, prems, outputs);
        paths.push(RulePath { prems: prems2, exps_output });
        i = i + 1;
    }
    RuleGroup { id, rule_match: RuleMatch { exps_signature, exps_input, prems: output }, rule_paths: paths, span }
}

fn insert_else_group(group: ElseGroup) -> (r: ElseGroup)
    ensures
        else_group_inserted(group, r),
{
    let ElseGroup { rule_match, rule_path, span } = group;
    let RuleMatch { exps_signature, exps_input, prems } = rule_match;
    let prems_input = collect_exps(&exps_input);
    let InsertedPrems { derived, output } = insert_prems(&prems_input, prems);
    let mut base = clone_prems(&prems_input);
    extend_prems(&mut base, clone_prems(&derived));
    extend_prems(&mut base, clone_prems(&output));
    let RulePath { prems: path_prems, exps_output } = rule_path;
    let outputs = collect_exps(&exps_output);
    let prems2 = insert_path(&base, path_prems, outputs);
    ElseGroup { rule_match: RuleMatch { exps_signature, exps_input, prems: output }, rule_path: RulePath { prems: prems2, exps_output }, span }
}

fn insert_clause(clause: Clause) -> (r: Clause)
    ensures
        clause_inserted(clause, r),
{
    let Clause { args, premises, expression, span } = clause;
    let prems_args = collect_args(&args);
    let outputs = collect_exp(&expression);
    let premises2 = insert_path(&prems_args, premises, outputs);
    proof {
        assert(collects(seq![exp_view(expression)]) == collect(exp_view(expression))) by {
            assert(seq![exp_view(expression)].drop_last() =~= Seq::<ExpV>::empty());
            assert(collects(Seq::<ExpV>::empty()) == Seq::<PremShape>::empty());
            assert(Seq::<PremShape>::empty() + collect(exp_view(expression)) =~= collect(exp_view(expression)));
        }
    }
    Clause { args, premises: premises2, expression, span }
}

fn insert_rel_def(def: RelDef) -> (r: RelDef)
    ensures
        rel_def_inserted(def, r),
{
    let ghost d = def;
    let RelDef { id, rule_groups, else_group } = def;
    let mut groups: Vec<RuleGroup> = Vec::new();
    let n = rule_groups.len();
    let mut src = rule_groups;
    let mut i: usize = 0;
    while i < n
        invariant
            i <= n,
            n == d.rule_groups@.len(),
            src@.len() == n - i,
            forall|j: int| 0 <= j < src@.len() ==> #[trigger] src@[j] == d.rule_groups@[i + j],
            groups@.len() == i,
            forall|j: int| 0 <= j < i ==> rule_group_inserted(d.rule_groups@[j], #[trigger] groups@[j]),
        decreases n - i,
    {
        let ghost s0 = src@;
        let g = src.remove(0);
        proof {
            assert forall|j: int| 0 <= j < src@.len() implies #[trigger] src@[j] == d.rule_groups@[i + 1 + j] by {
                assert(src@[j] == s0[j + 1]);
            }
        }
        groups.push(insert_rule_group(g));
        i = i + 1;
    }
    let else_group = match else_group {
        Some(e) => Some(insert_else_group(e)),
        None => None,
    };
    RelDef { id, rule_groups: groups, else_group }
}

fn insert_func_dec_def(def: FuncDecDef) -> (r: FuncDecDef)
    ensures
        func_dec_inserted(def, r),
{
    let ghost d = def;
    let FuncDecDef { id, clauses, else_clause } = def;
    let mut out: Vec<Clause> = Vec::new();
    let n = clauses.len();
    let mut src = clauses;
    let mut i: usize = 0;
    while i < n
        invariant
            i <= n,
            n == d.clauses@.len(),
            src@.len() == n - i,
            forall|j: int| 0 <= j < src@.len() ==> #[trigger] src@[j] == d.clauses@[i + j],
            out@.len() == i,
            forall|j: int| 0 <= j < i ==> clause_inserted(d.clauses@[j], #[trigger] out@[j]),
        decreases n - i,
    {
        let ghost s0 = src@;
        let c = src.remove(0);
        proof {
            assert forall|j: int| 0 <= j < src@.len() implies #[trigger] src@[j] == d.clauses@[i + 1 + j] by {
                assert(src@[j] == s0[j + 1]);
            }
        }
        out.push(insert_clause(c));
        i = i + 1;
    }
    let else_clause = match else_clause {
        Some(c) => Some(insert_clause(c)),
        None => None,
    };
    FuncDecDef { id, clauses: out, else_clause }
}

fn insert_def(def: Def) -> (r: Def)
    ensures
        def_inserted(def, r),
{
    let Def { node, span } = def;
    let node = match node {
        DefKind::Rel(d) => DefKind::Rel(insert_rel_def(d)),
        DefKind::FuncDec(d) => DefKind::FuncDec(insert_func_dec_def(d)),
        DefKind::Other(id) => DefKind::Other(id),
    };
    Def { node, span }
}

/// Inserts guards throughout an analysed specification.
pub fn insert_spec(spec: Vec<Def>) -> (r: Vec<Def>)
    ensures
        r@.len() == spec@.len(),
        forall|i: int| 0 <= i < spec@.len() ==> def_inserted(spec@[i], #[trigger] r@[i]),
{
    let ghost d = spec@;
    let mut out: Vec<Def> = Vec::new();
    let n = spec.len();
    let mut src = spec;
    let mut i: usize = 0;
    while i < n
        invariant
            i <= n,
            n == d.len(),
            src@.len() == n - i,
            forall|j: int| 0 <= j < src@.len() ==> #[trigger] src@[j] == d[i + j],
            out@.len() == i,
            forall|j: int| 0 <= j < i ==> def_inserted(d[j], #[trigger] out@[j]),
        decreases n - i,
    {
        let ghost s0 = src@;
        let x = src.remove(0);
        proof {
            assert forall|j: int| 0 <= j < src@.len() implies #[trigger] src@[j] == d[i + 1 + j] by {
                assert(src@[j] == s0[j + 1]);
            }
        }
        out.push(insert_def(x));
        i = i + 1;
    }
    out
}

} // verus!
