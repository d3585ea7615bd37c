//! Pattern-set operations for table exclusiveness and exhaustiveness.
//!
//! A `PatternSet` holds the notation-type alternatives for one argument;
//! a `PatternSets` stands for their Cartesian product across one table row.

use vstd::prelude::*;
use crate::span::Span;
use crate::il::{NotTyp, NotTypV, not_typ_view};
use crate::il_typ::{clone_not_typ, not_typ_eq};
use crate::algo::error::{AlgoError, AlgoErrorKind};

verus! {

// == Pattern sets

/// A set of notation types compared by syntax; no alternative occurs twice.
pub struct PatternSet {
    pub not_typs: Vec<NotTyp>,
}

/// The alternatives denoted by a list of notation types.
pub open spec fn not_typs_set(s: Seq<NotTyp>) -> Set<NotTypV> {
    Set::new(|x: NotTypV| exists|i: int| 0 <= i < s.len() && not_typ_view(s[i]) == x)
}

pub proof fn lemma_not_typs_set_push(s: Seq<NotTyp>, n: NotTyp)
    ensures
        not_typs_set(s.push(n)) == not_typs_set(s).insert(not_typ_view(n)),
{
    assert forall|x: NotTypV| not_typs_set(s.push(n)).contains(x) <==> not_typs_set(s).insert(not_typ_view(n)).contains(x) by {
        if not_typs_set(s.push(n)).contains(x) {
            let j = choose|j: int| 0 <= j < s.push(n).len() && not_typ_view(s.push(n)[j]) == x;
            if j < s.len() {
                assert(not_typ_view(s[j]) == x);
            }
        }
        if not_typs_set(s).contains(x) {
            let j = choose|j: int| 0 <= j < s.len() && not_typ_view(s[j]) == x;
            assert(not_typ_view(s.push(n)[j]) == x);
        }
        if x == not_typ_view(n) {
            assert(not_typ_view(s.push(n)[s.len() as int]) == x);
        }
    }
    assert(not_typs_set(s.push(n)) =~= not_typs_set(s).insert(not_typ_view(n)));
}

impl View for PatternSet {
    type V = Set<NotTypV>;

    open spec fn view(&self) -> Set<NotTypV> {
        not_typs_set(self.not_typs@)
    }
}

impl PatternSet {
    /// No alternative occurs twice.
    pub open spec fn wf(&self) -> bool {
        forall|i: int, j: int|
            0 <= i < j < self.not_typs@.len() ==> not_typ_view(self.not_typs@[i]) != not_typ_view(self.not_typs@[j])
    }

    /// Whether `n` is one of the alternatives.
    pub fn contains(&self, n: &NotTyp) -> (b: bool)
        ensures
            b == self@.contains(not_typ_view(*n)),
    {
        for i in 0..self.not_typs.len()
            invariant
                forall|j: int| 0 <= j < i ==> not_typ_view(self.not_typs@[j]) != not_typ_view(*n),
        {
            if not_typ_eq(&self.not_typs[i], n) {
                return true;
            }
        }
        false
    }

    /// The set of the given alternatives, each kept once, in first-occurrence order.
    pub fn from_not_typs(not_typs: &Vec<NotTyp>) -> (p: PatternSet)
        ensures
            p.wf(),
            p@ == not_typs_set(not_typs@),
    {
        let mut p = PatternSet { not_typs: Vec::new() };
        proof {
            assert(not_typs@.take(0) =~= Seq::<NotTyp>::empty());
            assert(p@ =~= not_typs_set(not_typs@.take(0)));
        }
        for i in 0..not_typs.len()
            invariant
                p.wf(),
                p@ == not_typs_set(not_typs@.take(i as int)),
        {
            proof {
                assert(not_typs@.take(i + 1) =~= not_typs@.take(i as int).push(not_typs@[i as int]));
                lemma_not_typs_set_push(not_typs@.take(i as int), not_typs@[i as int]);
            }
            if !p.contains(&not_typs[i]) {
                let ghost old_p = p.not_typs@;
                p.not_typs.push(clone_not_typ(&not_typs[i]));
                proof {
                    lemma_not_typs_set_push(old_p, p.not_typs@.last());
                    assert(p.not_typs@ =~= old_p.push(p.not_typs@.last()));
                    assert forall|a: int, b: int| 0 <= a < b < p.not_typs@.len() implies
                        not_typ_view(p.not_typs@[a]) != not_typ_view(p.not_typs@[b]) by {
                        if b == old_p.len() {
                            assert(not_typs_set(old_p).contains(not_typ_view(old_p[a])));
                        }
                    }
                }
            } else {
                assert(not_typs_set(not_typs@.take(i + 1)) =~= p@);
            }
        }
        assert(not_typs@.take(not_typs@.len() as int) =~= not_typs@);
        p
    }

    /// Whether no alternative remains.
    pub fn is_empty(&self) -> (b: bool)
        ensures
            b == (self@ == Set::<NotTypV>::empty()),
    {
        if self.not_typs.len() == 0 {
            assert(self@ =~= Set::<NotTypV>::empty());
            true
        } else {
            assert(self@.contains(not_typ_view(self.not_typs@[0])));
            false
        }
    }

    /// The alternatives of `self` whose membership in `other` is `inside`.
    fn filter_by(&self, other: &Self, inside: bool) -> (p: PatternSet)
        requires
            self.wf(),
        ensures
            p.wf(),
            forall|x: NotTypV| #[trigger] p@.contains(x) <==> (self@.contains(x) && other@.contains(x) == inside),
    {
        let mut res: Vec<NotTyp> = Vec::new();
        let ghost mut idx: Seq<int> = Seq::empty();
        for i in 0..self.not_typs.len()
            invariant
                self.wf(),
                idx.len() == res@.len(),
                forall|a: int| 0 <= a < idx.len() ==> 0 <= #[trigger] idx[a] < i,
                forall|a: int, b: int| 0 <= a < b < idx.len() ==> idx[a] < idx[b],
                forall|a: int| 0 <= a < idx.len() ==> not_typ_view(#[trigger] res@[a]) == not_typ_view(self.not_typs@[idx[a]]),
                forall|a: int| 0 <= a < idx.len() ==> other@.contains(not_typ_view(self.not_typs@[#[trigger] idx[a]])) == inside,
                forall|j: int| 0 <= j < i && other@.contains(not_typ_view(#[trigger] self.not_typs@[j])) == inside ==>
                    exists|a: int| 0 <= a < idx.len() && idx[a] == j,
        {
            if other.contains(&self.not_typs[i]) == inside {
                res.push(clone_not_typ(&self.not_typs[i]));
                proof {
                    let ghost old_idx = idx;
                    idx = idx.push(i as int);
                    assert(idx[idx.len() - 1] == i);
                    assert(forall|a: int| 0 <= a < old_idx.len() ==> idx[a] == old_idx[a]);
                }
            }
        }
        let p = PatternSet { not_typs: res };
        proof {
            assert forall|a: int, b: int| 0 <= a < b < p.not_typs@.len() implies
                not_typ_view(p.not_typs@[a]) != not_typ_view(p.not_typs@[b]) by {
                assert(idx[a] < idx[b]);
            }
            assert forall|x: NotTypV| #[trigger] p@.contains(x) <==> (self@.contains(x) && other@.contains(x) == inside) by {
                if p@.contains(x) {
                    let a = choose|a: int| 0 <= a < p.not_typs@.len() && not_typ_view(p.not_typs@[a]) == x;
                    assert(not_typ_view(self.not_typs@[idx[a]]) == x);
                }
                if self@.contains(x) && other@.contains(x) == inside {
                    let j = choose|j: int| 0 <= j < self.not_typs@.len() && not_typ_view(self.not_typs@[j]) == x;
                    let a = choose|a: int| 0 <= a < idx.len() && idx[a] == j;
                    assert(not_typ_view(p.not_typs@[a]) == x);
                }
            }
        }
        p
    }

    /// The alternatives of `self` that are also in `other`.
    pub fn intersection(&self, other: &Self) -> (p: PatternSet)
        requires
            self.wf(),
        ensures
            p.wf(),
            p@ == self@.intersect(other@),
    {
        let p = self.filter_by(other, true);
        assert(p@ =~= self@.intersect(other@));
        p
    }

    /// The alternatives of `self` that are not in `other`.
    pub fn difference(&self, other: &Self) -> (p: PatternSet)
        requires
            self.wf(),
        ensures
            p.wf(),
            p@ == self@.difference(other@),
    {
        let p = self.filter_by(other, false);
        assert(p@ =~= self@.difference(other@));
        p
    }

    /// Copies a pattern set.
    pub fn clone_set(&self) -> (p: PatternSet)
        requires
            self.wf(),
        ensures
            p.wf(),
            p@ == self@,
    {
        let mut res: Vec<NotTyp> = Vec::new();
        for i in 0..self.not_typs.len()
            invariant
                self.wf(),
                res@.len() == i,
                forall|a: int| 0 <= a < i ==> not_typ_view(#[trigger] res@[a]) == not_typ_view(self.not_typs@[a]),
        {
            res.push(clone_not_typ(&self.not_typs[i]));
        }
        let p = PatternSet { not_typs: res };
        proof {
            assert forall|x: NotTypV| p@.contains(x) <==> self@.contains(x) by {
                if self@.contains(x) {
                    let j = choose|j: int| 0 <= j < self.not_typs@.len() && not_typ_view(self.not_typs@[j]) == x;
                    assert(not_typ_view(p.not_typs@[j]) == x);
                }
            }
            assert(p@ =~= self@);
        }
        p
    }
}

// == Table rows

/// Ordered pattern sets for the arguments of one table row.
pub struct PatternSets {
    pub sets: Vec<PatternSet>,
}

impl View for PatternSets {
    type V = Seq<Set<NotTypV>>;

    open spec fn view(&self) -> Seq<Set<NotTypV>> {
        Seq::new(self.sets@.len(), |i: int| self.sets@[i]@)
    }
}

/// `t` picks one alternative of each pattern set: it lies in their product.
pub open spec fn prod_contains(ps: Seq<Set<NotTypV>>, t: Seq<NotTypV>) -> bool {
    t.len() == ps.len() && forall|i: int| 0 <= i < t.len() ==> #[trigger] ps[i].contains(t[i])
}

/// Two pattern sets share an alternative.
pub open spec fn share(a: Set<NotTypV>, b: Set<NotTypV>) -> bool {
    exists|x: NotTypV| a.contains(x) && b.contains(x)
}

/// Corresponding pattern sets pairwise share an alternative.
pub open spec fn sets_overlap(l: Seq<Set<NotTypV>>, r: Seq<Set<NotTypV>>) -> bool {
    forall|i: int| 0 <= i < l.len() ==> #[trigger] share(l[i], r[i])
}

/// `t` lies in the product of one of the rows.
pub open spec fn group_contains(g: Seq<PatternSets>, t: Seq<NotTypV>) -> bool {
    exists|k: int| 0 <= k < g.len() && #[trigger] prod_contains(g[k]@, t)
}

/// A pattern set with at least one alternative.
pub open spec fn nonempty(s: Set<NotTypV>) -> bool {
    exists|x: NotTypV| s.contains(x)
}

/// No tuple lies in the products of two rows.
pub open spec fn rows_disjoint(g: Seq<PatternSets>) -> bool {
    forall|a: int, b: int, t: Seq<NotTypV>|
        0 <= a < b < g.len() && #[trigger] prod_contains(g[a]@, t) ==> !#[trigger] prod_contains(g[b]@, t)
}

/// Each set of each row lies within the corresponding set of `total`.
pub open spec fn rows_within(g: Seq<PatternSets>, total: Seq<Set<NotTypV>>) -> bool {
    forall|k: int, i: int| 0 <= k < g.len() && 0 <= i < total.len() ==> (#[trigger] g[k]@[i]).subset_of(total[i])
}

/// Every pattern set of a row has an alternative.
pub open spec fn all_nonempty(row: Seq<Set<NotTypV>>) -> bool {
    forall|i: int| 0 <= i < row.len() ==> nonempty(#[trigger] row[i])
}

/// The error for rows of different widths.
pub open spec fn arity_error(span: Span, expected: usize, actual: usize) -> AlgoError {
    AlgoError { kind: AlgoErrorKind::PatternArityMismatch { expected, actual }, span }
}

/// Two rows of one width overlap exactly when their products share a tuple.
pub proof fn lemma_overlap_product(l: Seq<Set<NotTypV>>, r: Seq<Set<NotTypV>>)
    requires
        l.len() == r.len(),
    ensures
        sets_overlap(l, r) <==> exists|t: Seq<NotTypV>| prod_contains(l, t) && prod_contains(r, t),
{
    if sets_overlap(l, r) {
        let t = Seq::new(l.len(), |i: int| choose|x: NotTypV| l[i].contains(x) && r[i].contains(x));
        assert forall|i: int| #![trigger t[i]] 0 <= i < t.len() implies l[i].contains(t[i]) && r[i].contains(t[i]) by {
            assert(share(l[i], r[i]));
        }
        assert(t.len() == l.len());
        assert(forall|i: int| 0 <= i < t.len() ==> #[trigger] l[i].contains(t[i]));
        assert(prod_contains(l, t));
        assert(forall|i: int| 0 <= i < t.len() ==> #[trigger] r[i].contains(t[i]));
        assert(prod_contains(r, t));
    }
    if exists|t: Seq<NotTypV>| prod_contains(l, t) && prod_contains(r, t) {
        let t = choose|t: Seq<NotTypV>| prod_contains(l, t) && prod_contains(r, t);
        assert forall|i: int| 0 <= i < l.len() implies #[trigger] share(l[i], r[i]) by {
            assert(l[i].contains(t[i]) && r[i].contains(t[i]));
        }
    }
}

impl PatternSets {
    /// Every pattern set is well formed.
    pub open spec fn wf(&self) -> bool {
        forall|i: int| 0 <= i < self.sets@.len() ==> (#[trigger] self.sets@[i]).wf()
    }

    pub fn from_sets(sets: Vec<PatternSet>) -> (p: PatternSets)
        ensures
            p.sets == sets,
    {
        PatternSets { sets }
    }

    /// Copies a row.
    pub fn clone_sets(&self) -> (p: PatternSets)
        requires
            self.wf(),
        ensures
            p.wf(),
            p@ == self@,
    {
        let mut sets: Vec<PatternSet> = Vec::new();
        for i in 0..self.sets.len()
            invariant
                self.wf(),
                sets@.len() == i,
                forall|a: int| 0 <= a < i ==> (#[trigger] sets@[a]).wf() && sets@[a]@ == self.sets@[a]@,
        {
            sets.push(self.sets[i].clone_set());
        }
        let p = PatternSets { sets };
        assert(p@ =~= self@);
        p
    }
}

// == Exclusiveness checks

fn check_arity(span: &Span, l: &PatternSets, r: &PatternSets) -> (res: Result<(), AlgoError>)
    ensures
        res is Ok <==> l.sets@.len() == r.sets@.len(),
        res matches Err(e) ==> e == arity_error(*span, l.sets@.len() as usize, r.sets@.len() as usize),
{
    let expected = l.sets.len();
    let actual = r.sets.len();
    if expected == actual {
        return Ok(());
    }
    Err(AlgoError::new(AlgoErrorKind::PatternArityMismatch { expected, actual }, *span))
}

/// Whether two rows of one width overlap; fails when their widths differ.
pub fn has_overlap(span: &Span, l: &PatternSets, r: &PatternSets) -> (res: Result<bool, AlgoError>)
    requires
        l.wf(),
        r.wf(),
    ensures
        res is Ok <==> l.sets@.len() == r.sets@.len(),
        res matches Err(e) ==> e == arity_error(*span, l.sets@.len() as usize, r.sets@.len() as usize),
        res matches Ok(b) ==> (b <==> sets_overlap(l@, r@)),
{
    match check_arity(span, l, r) {
        Err(e) => return Err(e),
        Ok(()) => {},
    }
    for i in 0..l.sets.len()
        invariant
            l.wf(),
            l.sets@.len() == r.sets@.len(),
            forall|j: int| 0 <= j < i ==> #[trigger] share(l@[j], r@[j]),
    {
        let inter = l.sets[i].intersection(&r.sets[i]);
        if inter.is_empty() {
            proof {
                assert(l@[i as int] == l.sets@[i as int]@);
                assert(r@[i as int] == r.sets@[i as int]@);
                let a = l.sets@[i as int]@;
                let b = r.sets@[i as int]@;
                assert(inter@ == a.intersect(b));
                if share(a, b) {
                    let x = choose|x: NotTypV| a.contains(x) && b.contains(x);
                    assert(a.intersect(b).contains(x));
                    assert(inter@.contains(x));
                }
            }
            return Ok(false);
        }
        proof {
            if !(exists|x: NotTypV| inter@.contains(x)) {
                assert(inter@ =~= Set::<NotTypV>::empty());
            }
            let x = choose|x: NotTypV| inter@.contains(x);
            assert(inter@.contains(x));
            assert(l@[i as int].contains(x) && r@[i as int].contains(x));
            assert(share(l@[i as int], r@[i as int]));
        }
    }
    Ok(true)
}

/// Each of the first `k` alternatives of `t` lies in the corresponding set of `w`.
pub open spec fn all_in(w: Seq<Set<NotTypV>>, t: Seq<NotTypV>, k: int) -> bool {
    forall|i: int| 0 <= i < k ==> #[trigger] w[i].contains(t[i])
}

/// The row of the `k`-th fragment of `tot - w`:
/// `(tot_0 ∩ w_0) × … × (tot_k - w_k) × tot_k+1 × …`.
pub open spec fn fragment(tot: Seq<Set<NotTypV>>, w: Seq<Set<NotTypV>>, k: int) -> Seq<Set<NotTypV>> {
    Seq::new(
        tot.len(),
        |i: int|
            if i < k {
                tot[i].intersect(w[i])
            } else if i == k {
                tot[i].difference(w[i])
            } else {
                tot[i]
            },
    )
}

/// The fragments of `tot - w` at the first `k` positions, in order: the
/// `i`-th fragment is there when `tot_i - w_i` is not empty.
pub open spec fn fragments(tot: Seq<Set<NotTypV>>, w: Seq<Set<NotTypV>>, k: int) -> Seq<Seq<Set<NotTypV>>>
    decreases k,
{
    if k <= 0 {
        Seq::empty()
    } else {
        let prev = fragments(tot, w, k - 1);
        if nonempty(tot[k - 1].difference(w[k - 1])) {
            prev.push(fragment(tot, w, k - 1))
        } else {
            prev
        }
    }
}

/// The rows `subtract` gives for `tot - w`: `tot` itself when the two do not
/// overlap, else `(F - W) × F'` then `(F ∩ W) × (F' - W')`, position by
/// position, leaving out empty pieces.
pub open spec fn subtraction(tot: Seq<Set<NotTypV>>, w: Seq<Set<NotTypV>>) -> Seq<Seq<Set<NotTypV>>> {
    if !sets_overlap(tot, w) {
        seq![tot]
    } else {
        fragments(tot, w, tot.len() as int)
    }
}

pub proof fn lemma_group_push(g: Seq<PatternSets>, f: PatternSets, t: Seq<NotTypV>)
    ensures
        group_contains(g.push(f), t) <==> (group_contains(g, t) || prod_contains(f@, t)),
{
    if group_contains(g, t) {
        let k = choose|k: int| 0 <= k < g.len() && #[trigger] prod_contains(g[k]@, t);
        assert(g.push(f)[k] == g[k]);
    }
    if prod_contains(f@, t) {
        assert(g.push(f)[g.len() as int] == f);
    }
    if group_contains(g.push(f), t) {
        let k = choose|k: int| 0 <= k < g.push(f).len() && #[trigger] prod_contains(g.push(f)[k]@, t);
        if k < g.len() {
            assert(g.push(f)[k] == g[k]);
        }
    }
}

/// Builds the row `fragment(total, p, k)` from the intersections so far.
fn build_fragment(total: &PatternSets, p: &PatternSets, prefix: &PatternSets, diff: PatternSet, k: usize) -> (f: PatternSets)
    requires
        total.wf(),
        prefix.wf(),
        diff.wf(),
        total.sets@.len() == p.sets@.len(),
        k < total.sets@.len(),
        prefix@.len() == k,
        forall|i: int| 0 <= i < k ==> #[trigger] prefix@[i] == total@[i].intersect(p@[i]),
        diff@ == total@[k as int].difference(p@[k as int]),
    ensures
        f.wf(),
        f@ == fragment(total@, p@, k as int),
{
    let mut f = prefix.clone_sets();
    let ghost f0 = f@;
    let ghost dv = diff@;
    f.sets.push(diff);
    proof {
        assert(f@ =~= f0.push(dv));
    }
    let n = total.sets.len();
    let mut j = k + 1;
    while j < n
        invariant
            total.wf(),
            n == total.sets@.len(),
            k + 1 <= j <= n,
            f.wf(),
            f@.len() == j,
            forall|i: int| 0 <= i < j ==> #[trigger] f@[i] == fragment(total@, p@, k as int)[i],
        decreases n - j,
    {
        let ghost f1 = f@;
        let c = total.sets[j].clone_set();
        let ghost cv = c@;
        f.sets.push(c);
        proof {
            assert(f@ =~= f1.push(cv));
        }
        j = j + 1;
    }
    assert(f@ =~= fragment(total@, p@, k as int));
    f
}

/// `total - p` as a list of rows whose products cover exactly the tuples of
/// `total` outside `p`: `F × F' - W × W' = (F - W) × F' ∪ (F ∩ W) × (F' - W')`.
pub fn subtract(span: &Span, total: &PatternSets, p: &PatternSets) -> (res: Result<Vec<PatternSets>, AlgoError>)
    requires
        total.wf(),
        p.wf(),
    ensures
        res is Ok <==> total.sets@.len() == p.sets@.len(),
        res matches Err(e) ==> e == arity_error(*span, total.sets@.len() as usize, p.sets@.len() as usize),
        res matches Ok(fs) ==> {
            &&& forall|k: int| 0 <= k < fs@.len() ==> (#[trigger] fs@[k]).wf() && fs@[k]@.len() == total@.len()
            &&& forall|t: Seq<NotTypV>| #[trigger] group_contains(fs@, t) <==> (prod_contains(total@, t) && !prod_contains(p@, t))
            &&& all_nonempty(total@) ==> forall|k: int| 0 <= k < fs@.len() ==> all_nonempty(#[trigger] fs@[k]@)
            &&& !all_nonempty(total@) ==> fs@.len() == 1 && fs@[0]@ == total@
            &&& !sets_overlap(total@, p@) ==> fs@.len() == 1 && fs@[0]@ == total@
            &&& group_view(fs@) == subtraction(total@, p@)
            &&& rows_disjoint(fs@)
            &&& rows_within(fs@, total@)
        },
{
    let overlap = match has_overlap(span, total, p) {
        Err(e) => return Err(e),
        Ok(b) => b,
    };
    if !overlap {
        let row = total.clone_sets();
        let ghost rv = row;
        let fs = vec![row];
        proof {
            lemma_overlap_product(total@, p@);
            assert(fs@ =~= seq![rv]);
            assert forall|t: Seq<NotTypV>| #[trigger] group_contains(fs@, t) <==> (prod_contains(total@, t) && !prod_contains(p@, t)) by {
                if prod_contains(total@, t) {
                    assert(prod_contains(fs@[0]@, t));
                }
            }
            assert(fs@[0]@ == total@);
            assert(group_view(fs@) =~= subtraction(total@, p@));
            assert forall|k: int, i: int| 0 <= k < fs@.len() && 0 <= i < total@.len() implies (#[trigger] fs@[k]@[i]).subset_of(total@[i]) by {
                assert(fs@[k]@ == total@);
            }
        }
        return Ok(fs);
    }
    proof {
        assert forall|i: int| 0 <= i < total@.len() implies nonempty(#[trigger] total@[i]) by {
            assert(share(total@[i], p@[i]));
        }
    }
    let mut frags: Vec<PatternSets> = Vec::new();
    let mut prefix = PatternSets { sets: Vec::new() };
    let n = total.sets.len();
    let mut k: usize = 0;
    proof {
        assert(prefix@ =~= Seq::<Set<NotTypV>>::empty());
        assert forall|t: Seq<NotTypV>| #[trigger] group_contains(frags@, t) <==> (prod_contains(total@, t) && !all_in(p@, t, 0)) by {}
        assert(group_view(frags@) =~= fragments(total@, p@, 0));
    }
    while k < n
        invariant_except_break
            forall|j: int| 0 <= j < frags@.len() ==> exists|kj: int| 0 <= kj < k && (#[trigger] frags@[j])@ == fragment(total@, p@, kj),
        invariant
            total.wf(),
            p.wf(),
            n == total.sets@.len() == p.sets@.len(),
            sets_overlap(total@, p@),
            k <= n,
            prefix.wf(),
            prefix@.len() == k,
            forall|i: int| 0 <= i < k ==> #[trigger] prefix@[i] == total@[i].intersect(p@[i]),
            forall|i: int| 0 <= i < frags@.len() ==> (#[trigger] frags@[i]).wf() && frags@[i]@.len() == n,
            forall|i: int| 0 <= i < frags@.len() ==> all_nonempty(#[trigger] frags@[i]@),
            forall|t: Seq<NotTypV>| #[trigger] group_contains(frags@, t) <==> (prod_contains(total@, t) && !all_in(p@, t, k as int)),
            rows_disjoint(frags@),
            rows_within(frags@, total@),
            group_view(frags@) == fragments(total@, p@, k as int),
        ensures
            group_view(frags@) == fragments(total@, p@, n as int),
            rows_disjoint(frags@),
            rows_within(frags@, total@),
            k == n,
            forall|t: Seq<NotTypV>| #[trigger] group_contains(frags@, t) <==> (prod_contains(total@, t) && !all_in(p@, t, k as int)),
            forall|i: int| 0 <= i < frags@.len() ==> (#[trigger] frags@[i]).wf() && frags@[i]@.len() == n,
            forall|i: int| 0 <= i < frags@.len() ==> all_nonempty(#[trigger] frags@[i]@),
        decreases n - k,
    {
        let diff = total.sets[k].difference(&p.sets[k]);
        let inter = total.sets[k].intersection(&p.sets[k]);
        let ghost old_frags = frags@;
        let ghost tk = total@[k as int];
        let ghost wk = p@[k as int];
        proof {
            assert(tk == total.sets@[k as int]@);
            assert(wk == p.sets@[k as int]@);
        }
        if !diff.is_empty() {
            let frag = build_fragment(total, p, &prefix, diff, k);
            let ghost fv = frag;
            frags.push(frag);
            proof {
                assert(frags@ =~= old_frags.push(fv));
                let fr = fragment(total@, p@, k as int);
                assert(nonempty(tk.difference(wk))) by {
                    assert(diff@ != Set::<NotTypV>::empty());
                    if !(exists|y: NotTypV| diff@.contains(y)) {
                        assert(diff@ =~= Set::<NotTypV>::empty());
                    }
                }
                assert(group_view(frags@) =~= group_view(old_frags).push(fr));
                assert forall|a: int, b: int, t: Seq<NotTypV>|
                    0 <= a < b < frags@.len() && #[trigger] prod_contains(frags@[a]@, t) implies !#[trigger] prod_contains(frags@[b]@, t) by {
                    if b == old_frags.len() {
                        assert(frags@[a] == old_frags[a]);
                        let ka = choose|kj: int| 0 <= kj < k && (#[trigger] old_frags[a])@ == fragment(total@, p@, kj);
                        assert(old_frags[a]@[ka].contains(t[ka]));
                        assert(!p@[ka].contains(t[ka]));
                        assert(!fr[ka].contains(t[ka]));
                    } else {
                        assert(frags@[a] == old_frags[a]);
                        assert(frags@[b] == old_frags[b]);
                    }
                }
                assert forall|k2: int, i: int| 0 <= k2 < frags@.len() && 0 <= i < total@.len() implies (#[trigger] frags@[k2]@[i]).subset_of(total@[i]) by {
                    if k2 < old_frags.len() {
                        assert(frags@[k2] == old_frags[k2]);
                    }
                }
                assert forall|j: int| 0 <= j < frags@.len() implies exists|kj: int| 0 <= kj < k + 1 && (#[trigger] frags@[j])@ == fragment(total@, p@, kj) by {
                    if j < old_frags.len() {
                        assert(frags@[j] == old_frags[j]);
                    } else {
                        assert(frags@[j]@ == fragment(total@, p@, k as int));
                    }
                }
                assert forall|i: int| 0 <= i < fr.len() implies nonempty(#[trigger] fr[i]) by {
                    assert(share(total@[i], p@[i]));
                    let x = choose|x: NotTypV| total@[i].contains(x) && p@[i].contains(x);
                    if i < k {
                        assert(fr[i].contains(x));
                    } else if i == k {
                        assert(diff@ != Set::<NotTypV>::empty());
                        if !(exists|y: NotTypV| diff@.contains(y)) {
                            assert(diff@ =~= Set::<NotTypV>::empty());
                        }
                        let y = choose|y: NotTypV| diff@.contains(y);
                        assert(fr[i].contains(y));
                    } else {
                        assert(fr[i].contains(x));
                    }
                }
                assert forall|i: int| 0 <= i < frags@.len() implies all_nonempty(#[trigger] frags@[i]@) by {
                    if i < old_frags.len() {
                        assert(frags@[i] == old_frags[i]);
                    }
                }
                assert forall|t: Seq<NotTypV>| #[trigger] group_contains(frags@, t) <==> (prod_contains(total@, t) && !all_in(p@, t, k + 1)) by {
                    lemma_group_push(old_frags, fv, t);
                    let fr = fragment(total@, p@, k as int);
                    if prod_contains(fr, t) {
                        assert forall|i: int| 0 <= i < t.len() implies #[trigger] total@[i].contains(t[i]) by {
                            assert(fr[i].contains(t[i]));
                        }
                        assert(fr[k as int].contains(t[k as int]));
                        assert(!p@[k as int].contains(t[k as int]));
                    }
                    if prod_contains(total@, t) && !all_in(p@, t, k + 1) && all_in(p@, t, k as int) {
                        assert(!p@[k as int].contains(t[k as int]));
                        assert forall|i: int| 0 <= i < t.len() implies #[trigger] fr[i].contains(t[i]) by {
                            assert(total@[i].contains(t[i]));
                            if i < k {
                                assert(p@[i].contains(t[i]));
                            }
                        }
                        assert(prod_contains(fr, t));
                    }
                    if prod_contains(total@, t) && !all_in(p@, t, k as int) {
                        let i0 = choose|i: int| 0 <= i < k && !#[trigger] p@[i].contains(t[i]);
                        assert(!all_in(p@, t, k + 1));
                    }
                }
            }
        } else {
            proof {
                assert(!nonempty(tk.difference(wk))) by {
                    if nonempty(tk.difference(wk)) {
                        let y = choose|y: NotTypV| tk.difference(wk).contains(y);
                        assert(diff@.contains(y));
                    }
                }
                assert forall|j: int| 0 <= j < frags@.len() implies exists|kj: int| 0 <= kj < k + 1 && (#[trigger] frags@[j])@ == fragment(total@, p@, kj) by {
                    let kj = choose|kj: int| 0 <= kj < k && (#[trigger] frags@[j])@ == fragment(total@, p@, kj);
                    assert(0 <= kj < k + 1);
                }
                assert forall|t: Seq<NotTypV>| #[trigger] group_contains(frags@, t) <==> (prod_contains(total@, t) && !all_in(p@, t, k + 1)) by {
                    if prod_contains(total@, t) {
                        assert(tk.contains(t[k as int]));
                        if !wk.contains(t[k as int]) {
                            assert(tk.difference(wk).contains(t[k as int]));
                            assert(diff@.contains(t[k as int]));
                        }
                        if !all_in(p@, t, k as int) {
                            let i0 = choose|i: int| 0 <= i < k && !#[trigger] p@[i].contains(t[i]);
                            assert(!all_in(p@, t, k + 1));
                        }
                    }
                }
            }
        }
        if inter.is_empty() {
            proof {
                assert(share(tk, wk));
                let x = choose|x: NotTypV| tk.contains(x) && wk.contains(x);
                assert(inter@.contains(x));
            }
            break;
        }
        let ghost old_prefix = prefix@;
        prefix.sets.push(inter);
        proof {
            assert forall|i: int| 0 <= i < k + 1 implies #[trigger] prefix@[i] == total@[i].intersect(p@[i]) by {
                if i < k {
                    assert(prefix@[i] == old_prefix[i]);
                }
            }
        }
        k = k + 1;
    }
    proof {
        assert forall|t: Seq<NotTypV>| #[trigger] group_contains(frags@, t) <==> (prod_contains(total@, t) && !prod_contains(p@, t)) by {
            if prod_contains(total@, t) {
                if all_in(p@, t, n as int) {
                    assert(prod_contains(p@, t));
                }
                if prod_contains(p@, t) {
                    assert(all_in(p@, t, n as int));
                }
            }
        }
    }
    Ok(frags)
}

pub proof fn lemma_group_append(a: Seq<PatternSets>, b: Seq<PatternSets>, t: Seq<NotTypV>)
    ensures
        group_contains(a + b, t) <==> (group_contains(a, t) || group_contains(b, t)),
{
    if group_contains(a, t) {
        let k = choose|k: int| 0 <= k < a.len() && #[trigger] prod_contains(a[k]@, t);
        assert((a + b)[k] == a[k]);
    }
    if group_contains(b, t) {
        let k = choose|k: int| 0 <= k < b.len() && #[trigger] prod_contains(b[k]@, t);
        assert((a + b)[a.len() + k] == b[k]);
    }
    if group_contains(a + b, t) {
        let k = choose|k: int| 0 <= k < (a + b).len() && #[trigger] prod_contains((a + b)[k]@, t);
        if k < a.len() {
            assert((a + b)[k] == a[k]);
        } else {
            assert((a + b)[k] == b[k - a.len()]);
        }
    }
}

pub proof fn lemma_group_take_step(g: Seq<PatternSets>, j: int, t: Seq<NotTypV>)
    requires
        0 <= j < g.len(),
    ensures
        group_contains(g.take(j + 1), t) <==> (group_contains(g.take(j), t) || prod_contains(g[j]@, t)),
{
    assert(g.take(j + 1) =~= g.take(j).push(g[j]));
    lemma_group_push(g.take(j), g[j], t);
}

/// No row of `g` covers `t`.
pub open spec fn uncovered(g: Seq<PatternSets>, t: Seq<NotTypV>) -> bool {
    forall|k: int| 0 <= k < g.len() ==> !#[trigger] prod_contains(g[k]@, t)
}

/// The tuples of `total` that no row of `group` covers, as a list of rows.
pub fn find_missing(span: &Span, total: &PatternSets, group: &[PatternSets]) -> (res: Result<Vec<PatternSets>, AlgoError>)
    requires
        total.wf(),
        forall|k: int| 0 <= k < group@.len() ==> (#[trigger] group@[k]).wf(),
    ensures
        (forall|k: int| 0 <= k < group@.len() ==> (#[trigger] group@[k]).sets@.len() == total.sets@.len()) ==> res is Ok,
        res matches Err(e) ==> e.kind is PatternArityMismatch && e.span == *span,
        res matches Ok(ms) ==> {
            &&& forall|k: int| 0 <= k < ms@.len() ==> (#[trigger] ms@[k]).wf() && ms@[k]@.len() == total@.len()
            &&& forall|t: Seq<NotTypV>| #[trigger] group_contains(ms@, t) <==> (prod_contains(total@, t) && uncovered(group@, t))
            &&& all_nonempty(total@) ==> forall|k: int| 0 <= k < ms@.len() ==> all_nonempty(#[trigger] ms@[k]@)
            &&& !all_nonempty(total@) ==> ms@.len() == 1 && ms@[0]@ == total@
            &&& group@.len() == 0 ==> ms@.len() == 1 && ms@[0]@ == total@
            &&& rows_disjoint(ms@)
            &&& rows_within(ms@, total@)
        },
        group@.len() > 0 && group@[0].sets@.len() != total.sets@.len() ==> res is Err,
{
    let row = total.clone_sets();
    let ghost rv = row;
    let mut missing: Vec<PatternSets> = vec![row];
    proof {
        assert(missing@ =~= seq![rv]);
        assert forall|t: Seq<NotTypV>| #[trigger] group_contains(missing@, t) <==> (prod_contains(total@, t) && uncovered(group@.take(0), t)) by {
            if prod_contains(total@, t) {
                assert(prod_contains(missing@[0]@, t));
            }
        }
    }
    for g in 0..group.len()
        invariant
            total.wf(),
            forall|k: int| 0 <= k < group@.len() ==> (#[trigger] group@[k]).wf(),
            forall|k: int| 0 <= k < missing@.len() ==> (#[trigger] missing@[k]).wf() && missing@[k]@.len() == total@.len(),
            forall|t: Seq<NotTypV>| #[trigger] group_contains(missing@, t) <==> (prod_contains(total@, t) && uncovered(group@.take(g as int), t)),
            all_nonempty(total@) ==> forall|k: int| 0 <= k < missing@.len() ==> all_nonempty(#[trigger] missing@[k]@),
            !all_nonempty(total@) ==> missing@.len() == 1 && missing@[0]@ == total@,
            g == 0 ==> missing@.len() == 1,
            g == 0 ==> missing@[0]@ == total@,
            g > 0 ==> group@[0].sets@.len() == total.sets@.len(),
            rows_disjoint(missing@),
            rows_within(missing@, total@),
    {
        let p = &group[g];
        let mut remaining: Vec<PatternSets> = Vec::new();
        for m in 0..missing.len()
            invariant
                total.wf(),
                all_nonempty(total@) ==> forall|k: int| 0 <= k < missing@.len() ==> all_nonempty(#[trigger] missing@[k]@),
                !all_nonempty(total@) ==> missing@.len() == 1 && missing@[0]@ == total@,
                all_nonempty(total@) ==> forall|k: int| 0 <= k < remaining@.len() ==> all_nonempty(#[trigger] remaining@[k]@),
                !all_nonempty(total@) ==> remaining@.len() == m && (m == 1 ==> remaining@[0]@ == total@),
                g == 0 ==> missing@.len() == 1,
                (g == 0 && m > 0) ==> group@[0].sets@.len() == total.sets@.len(),
                p.wf(),
                g < group@.len(),
                *p == group@[g as int],
                forall|k: int| 0 <= k < missing@.len() ==> (#[trigger] missing@[k]).wf() && missing@[k]@.len() == total@.len(),
                forall|k: int| 0 <= k < remaining@.len() ==> (#[trigger] remaining@[k]).wf() && remaining@[k]@.len() == total@.len(),
                forall|t: Seq<NotTypV>| #[trigger] group_contains(remaining@, t) <==> (group_contains(missing@.take(m as int), t) && !prod_contains(p@, t)),
                rows_disjoint(missing@),
                rows_within(missing@, total@),
                rows_disjoint(remaining@),
                rows_within(remaining@, total@),
        {
            let fragments = subtract(span, &missing[m], p);
            let mut fragments = match fragments {
                Err(e) => {
                    proof {
                        assert(missing@[m as int].sets@.len() == missing@[m as int]@.len());
                        assert(total.sets@.len() == total@.len());
                        assert(p.sets@.len() != total.sets@.len());
                    }
                    return Err(e);
                },
                Ok(fs) => fs,
            };
            let ghost r0 = remaining@;
            let ghost fv = fragments@;
            remaining.append(&mut fragments);
            proof {
                assert(missing@[m as int].sets@.len() == missing@[m as int]@.len());
                assert(total.sets@.len() == total@.len());
                assert(remaining@ =~= r0 + fv);
                if all_nonempty(total@) {
                    assert(all_nonempty(missing@[m as int]@));
                    assert forall|k: int| 0 <= k < remaining@.len() implies all_nonempty(#[trigger] remaining@[k]@) by {
                        if k < r0.len() {
                            assert(remaining@[k] == r0[k]);
                        } else {
                            assert(remaining@[k] == fv[k - r0.len()]);
                        }
                    }
                } else {
                    assert(m == 0);
                    assert(missing@[0]@ == total@);
                    assert(remaining@[0] == fv[0]);
                }
                assert forall|t: Seq<NotTypV>| #[trigger] group_contains(remaining@, t) <==> (group_contains(missing@.take(m + 1), t) && !prod_contains(p@, t)) by {
                    lemma_group_append(r0, fv, t);
                    lemma_group_take_step(missing@, m as int, t);
                }
                let mm = missing@[m as int]@;
                assert forall|a: int, b: int, t: Seq<NotTypV>|
                    0 <= a < b < remaining@.len() && #[trigger] prod_contains(remaining@[a]@, t) implies !#[trigger] prod_contains(remaining@[b]@, t) by {
                    if b < r0.len() {
                        assert(remaining@[a] == r0[a]);
                        assert(remaining@[b] == r0[b]);
                    } else if a >= r0.len() {
                        assert(remaining@[a] == fv[a - r0.len()]);
                        assert(remaining@[b] == fv[b - r0.len()]);
                    } else {
                        assert(remaining@[a] == r0[a]);
                        assert(remaining@[b] == fv[b - r0.len()]);
                        if prod_contains(remaining@[b]@, t) {
                            assert(group_contains(r0, t));
                            assert(group_contains(missing@.take(m as int), t));
                            let m2 = choose|k: int| 0 <= k < missing@.take(m as int).len() && #[trigger] prod_contains(missing@.take(m as int)[k]@, t);
                            assert(missing@.take(m as int)[m2] == missing@[m2]);
                            assert(group_contains(fv, t));
                            assert(prod_contains(mm, t));
                            assert(!prod_contains(missing@[m as int]@, t));
                        }
                    }
                }
                assert forall|k: int, i: int| 0 <= k < remaining@.len() && 0 <= i < total@.len() implies (#[trigger] remaining@[k]@[i]).subset_of(total@[i]) by {
                    if k < r0.len() {
                        assert(remaining@[k] == r0[k]);
                    } else {
                        assert(remaining@[k] == fv[k - r0.len()]);
                        assert(fv[k - r0.len()]@[i].subset_of(mm[i]));
                        assert(mm[i].subset_of(total@[i]));
                    }
                }
            }
        }
        proof {
            assert(missing@.take(missing@.len() as int) =~= missing@);
            assert forall|t: Seq<NotTypV>| #[trigger] group_contains(remaining@, t) <==> (prod_contains(total@, t) && uncovered(group@.take(g + 1), t)) by {
                assert(group@.take(g + 1)[g as int] == group@[g as int]);
                if uncovered(group@.take(g as int), t) && !prod_contains(p@, t) {
                    assert forall|k: int| 0 <= k < g + 1 implies !#[trigger] prod_contains(group@.take(g + 1)[k]@, t) by {
                        if k < g {
                            assert(group@.take(g + 1)[k] == group@.take(g as int)[k]);
                        }
                    }
                }
                if uncovered(group@.take(g + 1), t) {
                    assert forall|k: int| 0 <= k < g implies !#[trigger] prod_contains(group@.take(g as int)[k]@, t) by {
                        assert(group@.take(g + 1)[k] == group@.take(g as int)[k]);
                    }
                    assert(!prod_contains(group@.take(g + 1)[g as int]@, t));
                }
            }
        }
        missing = remaining;
    }
    proof {
        assert(group@.take(group@.len() as int) =~= group@);
    }
    Ok(missing)
}

/// The views of a list of rows of pattern sets.
pub open spec fn group_view(g: Seq<PatternSets>) -> Seq<Seq<Set<NotTypV>>> {
    Seq::new(g.len(), |k: int| g[k]@)
}

/// The overlap scan stops at rows `i` and `j`: they differ in width, or
/// their products share a tuple.
pub open spec fn stops_at(g: Seq<Seq<Set<NotTypV>>>, i: int, j: int) -> bool {
    g[i].len() != g[j].len() || sets_overlap(g[i], g[j])
}

/// `(i, j)` is the first pair of rows, in order (by `i`, then by `j`), at
/// which the overlap scan stops.
pub open spec fn first_stop(g: Seq<Seq<Set<NotTypV>>>, i: int, j: int) -> bool {
    &&& 0 <= i < j < g.len()
    &&& stops_at(g, i, j)
    &&& forall|a: int, b: int| 0 <= a < b < g.len() && (a < i || (a == i && b < j)) ==> !#[trigger] stops_at(g, a, b)
}

/// At most one pair is the first at which the scan stops.
pub proof fn lemma_first_stop_unique(g: Seq<Seq<Set<NotTypV>>>, i: int, j: int, a: int, b: int)
    requires
        first_stop(g, i, j),
        first_stop(g, a, b),
    ensures
        i == a && j == b,
{
    if a < i || (a == i && b < j) {
        assert(!stops_at(g, a, b));
    } else if i < a || (i == a && j < b) {
        assert(!stops_at(g, i, j));
    }
}

/// The indices of the first pair of rows, in order, that differ in width
/// (an error) or whose products overlap.
pub fn first_overlap(span: &Span, group: &[PatternSets]) -> (res: Result<Option<(usize, usize)>, AlgoError>)
    requires
        forall|k: int| 0 <= k < group@.len() ==> (#[trigger] group@[k]).wf(),
    ensures
        res matches Ok(None) ==> forall|a: int, b: int| 0 <= a < b < group@.len() ==> !#[trigger] stops_at(group_view(group@), a, b),
        res matches Ok(Some(p)) ==> first_stop(group_view(group@), p.0 as int, p.1 as int)
            && group@[p.0 as int].sets@.len() == group@[p.1 as int].sets@.len(),
        res matches Err(e) ==> exists|i: int, j: int| #[trigger] first_stop(group_view(group@), i, j)
            && group@[i].sets@.len() != group@[j].sets@.len()
            && e == arity_error(*span, group@[i].sets@.len() as usize, group@[j].sets@.len() as usize),
{
    let ghost g = group_view(group@);
    proof {
        assert forall|k: int| 0 <= k < group@.len() implies #[trigger] g[k] == group@[k]@ by {}
    }
    for index in 0..group.len()
        invariant
            forall|k: int| 0 <= k < group@.len() ==> (#[trigger] group@[k]).wf(),
            g == group_view(group@),
            forall|a: int, b: int| 0 <= a < b < group@.len() && a < index ==> !#[trigger] stops_at(g, a, b),
    {
        for other in index + 1..group.len()
            invariant
                forall|k: int| 0 <= k < group@.len() ==> (#[trigger] group@[k]).wf(),
                g == group_view(group@),
                index < group@.len(),
                forall|a: int, b: int| 0 <= a < b < group@.len() && (a < index || (a == index && b < other))
                    ==> !#[trigger] stops_at(g, a, b),
        {
            proof {
                assert(g[index as int] == group@[index as int]@);
                assert(g[other as int] == group@[other as int]@);
            }
            let overlap = match has_overlap(span, &group[index], &group[other]) {
                Err(e) => {
                    proof {
                        assert(stops_at(g, index as int, other as int));
                        assert(first_stop(g, index as int, other as int));
                    }
                    return Err(e);
                },
                Ok(b) => b,
            };
            if overlap {
                proof {
                    assert(stops_at(g, index as int, other as int));
                }
                return Ok(Some((index, other)));
            }
            proof {
                assert(!stops_at(g, index as int, other as int));
            }
        }
    }
    Ok(None)
}

/// The first pair of rows, in order, that differ in width (an error) or
/// whose products overlap.
pub fn find_overlap<'a>(span: &Span, group: &'a [PatternSets]) -> (res: Result<Option<(&'a PatternSets, &'a PatternSets)>, AlgoError>)
    requires
        forall|k: int| 0 <= k < group@.len() ==> (#[trigger] group@[k]).wf(),
    ensures
        res matches Ok(None) ==> forall|a: int, b: int| 0 <= a < b < group@.len() ==> !#[trigger] stops_at(group_view(group@), a, b),
        res matches Ok(Some(pair)) ==> exists|i: int, j: int| #[trigger] first_stop(group_view(group@), i, j)
            && *pair.0 == group@[i] && *pair.1 == group@[j] && sets_overlap(group@[i]@, group@[j]@),
        res matches Err(e) ==> exists|i: int, j: int| #[trigger] first_stop(group_view(group@), i, j)
            && group@[i].sets@.len() != group@[j].sets@.len()
            && e == arity_error(*span, group@[i].sets@.len() as usize, group@[j].sets@.len() as usize),
{
    match first_overlap(span, group) {
        Err(e) => Err(e),
        Ok(None) => Ok(None),
        Ok(Some((i, j))) => {
            proof {
                let g = group_view(group@);
                assert(g[i as int] == group@[i as int]@);
                assert(g[j as int] == group@[j as int]@);
                assert(first_stop(g, i as int, j as int));
            }
            Ok(Some((&group[i], &group[j])))
        },
    }
}

} // verus!
