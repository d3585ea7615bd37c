//! Iteration state surrounding a binding operation.
//!
//! `ICtx` is the stack of iterations enclosing the expression under analysis,
//! innermost first. Each `Iteration` accumulates the variables it ranges over
//! (`vars_bound`) and the variables it binds (`vars_bind`); `iterate_prem`
//! finally wraps a premise in one iterated premise per level.

use vstd::prelude::*;
use crate::span::Span;
use crate::il::{Id, Iter, Typ, Var, VarV, TypV, var_view, vars_view, typ_view};
use crate::il_typ::{clone_id, clone_typ, clone_var, clone_vars};
use crate::al::{Prem, PremKind, PremIter, IterPrem, PremShape, prem_shape};
use crate::assoc::{assoc_map, keys_unique};
use crate::algo::dim::{Dim, DimV, VEnv, venv_entries, dim_sub};
use crate::algo::error::{AlgoError, AlgoErrorKind};
use crate::ids::IdSet;

verus! {

/// One enclosing iteration with the variables it ranges over and binds.
pub struct Iteration {
    pub iter: Iter,
    /// Variables bound outside that this iteration ranges over.
    pub vars_bound: Vec<Var>,
    /// Variables this iteration binds.
    pub vars_bind: Vec<Var>,
}

/// An iteration without locations.
pub struct IterationV {
    pub iter: Iter,
    pub vars_bound: Seq<VarV>,
    pub vars_bind: Seq<VarV>,
}

impl View for Iteration {
    type V = IterationV;

    open spec fn view(&self) -> IterationV {
        IterationV { iter: self.iter, vars_bound: vars_view(self.vars_bound@), vars_bind: vars_view(self.vars_bind@) }
    }
}

/// Enclosing iterations, innermost first.
pub struct ICtx {
    pub iterations: Vec<Iteration>,
}

/// The views of a list of iterations.
pub open spec fn iterations_view(s: Seq<Iteration>) -> Seq<IterationV> {
    Seq::new(s.len(), |i: int| s[i]@)
}

impl View for ICtx {
    type V = Seq<IterationV>;

    open spec fn view(&self) -> Seq<IterationV> {
        iterations_view(self.iterations@)
    }
}

/// The iterations of the first `l` levels, innermost first.
pub open spec fn levels_iters(c: Seq<IterationV>, l: int) -> Seq<Iter> {
    Seq::new(l as nat, |i: int| c[i].iter)
}

/// The binders of an environment's entries, each under `extra` more iterations.
pub open spec fn env_vars(es: Seq<(Seq<char>, DimV)>, extra: Seq<Iter>) -> Seq<VarV> {
    Seq::new(es.len(), |i: int| VarV { id: es[i].0, typ: es[i].1.typ, iters: es[i].1.iters + extra })
}

/// An iteration that also ranges over `vs`.
pub open spec fn with_bound(it: IterationV, vs: Seq<VarV>) -> IterationV {
    IterationV { vars_bound: it.vars_bound + vs, ..it }
}

/// An iteration that also binds `vs`.
pub open spec fn with_bind(it: IterationV, vs: Seq<VarV>) -> IterationV {
    IterationV { vars_bind: it.vars_bind + vs, ..it }
}

/// An iteration extended with `vs`, as ranged-over or as bound variables.
pub open spec fn with_vars(it: IterationV, vs: Seq<VarV>, bound: bool) -> IterationV {
    if bound { with_bound(it, vs) } else { with_bind(it, vs) }
}

/// A binder view.
pub open spec fn var_v(id: Seq<char>, typ: TypV, iters: Seq<Iter>) -> VarV {
    VarV { id, typ, iters }
}

/// An iteration ranging over exactly `vs`.
pub open spec fn with_bound_only(it: IterationV, vs: Seq<VarV>) -> IterationV {
    IterationV { vars_bound: vs, ..it }
}

/// The binders of `vs` that satisfy `keep`, in order.
pub open spec fn keep_vars(vs: Seq<VarV>, keep: spec_fn(VarV) -> bool) -> Seq<VarV>
    decreases vs.len(),
{
    if vs.len() == 0 {
        Seq::empty()
    } else if keep(vs.last()) {
        keep_vars(vs.drop_last(), keep).push(vs.last())
    } else {
        keep_vars(vs.drop_last(), keep)
    }
}

/// Keeps a binder whose dimension in `venv` is no deeper than its own.
pub open spec fn dims_keep(venv: Map<Seq<char>, DimV>) -> spec_fn(VarV) -> bool {
    |v: VarV| venv.contains_key(v.id) && dim_sub(venv[v.id], DimV { typ: v.typ, iters: v.iters })
}

/// Keeps a binder whose name is not in `ids`.
pub open spec fn not_in_keep(ids: Set<Seq<char>>) -> spec_fn(VarV) -> bool {
    |v: VarV| !ids.contains(v.id)
}

pub open spec fn filter_keep(venv: Map<Seq<char>, DimV>, ids: Set<Seq<char>>, by_dims: bool) -> spec_fn(VarV) -> bool {
    if by_dims { dims_keep(venv) } else { not_in_keep(ids) }
}

/// The premise inside `n` nested iterated premises.
pub open spec fn unwrap_n(p: Prem, n: nat) -> Prem
    decreases n,
{
    if n == 0 {
        p
    } else {
        match p.node {
            PremKind::Iter(ip) => unwrap_n(*ip.prem, (n - 1) as nat),
            _ => p,
        }
    }
}

/// `p` stands at `s`, and so does every iterated premise nested in it,
/// down to the first premise of another kind.
pub open spec fn stands_at(p: Prem, s: Span) -> bool
    decreases p,
{
    &&& p.span == s
    &&& p.node matches PremKind::Iter(ip) ==> stands_at(*ip.prem, s)
}

/// Wrappers at `s` around a premise of another kind at `s` stand at `s`.
pub proof fn lemma_stands_at(p: Prem, n: nat, s: Span)
    requires
        wrapped_at(p, n, s),
        !(unwrap_n(p, n).node is Iter),
        unwrap_n(p, n).span == s,
    ensures
        stands_at(p, s),
    decreases n,
{
    if n > 0 {
        if let PremKind::Iter(ip) = p.node {
            lemma_stands_at(*ip.prem, (n - 1) as nat, s);
        }
    }
}

/// `p` stands at `s`, and so does each of the `n` iterated premises nested
/// in it, outermost first.
pub open spec fn wrapped_at(p: Prem, n: nat, s: Span) -> bool
    decreases n,
{
    &&& p.span == s
    &&& n > 0 ==> (p.node matches PremKind::Iter(ip) && wrapped_at(*ip.prem, (n - 1) as nat, s))
}

/// `p` wrapped in the first `k` levels of `c`, innermost first.
pub open spec fn iterate_shape(p: PremShape, c: Seq<IterationV>, k: int) -> PremShape
    decreases k,
{
    if k <= 0 {
        p
    } else {
        PremShape::Iter(Box::new(iterate_shape(p, c, k - 1)), c[k - 1].iter, c[k - 1].vars_bound, c[k - 1].vars_bind)
    }
}

/// A pending iteration scope: the context as it was before the scope was entered.
pub struct IterationScope {
    original: ICtx,
}

impl IterationScope {
    /// The context to restore when the scope is abandoned.
    pub closed spec fn original(&self) -> Seq<IterationV> {
        self.original@
    }

    /// Commits the scope, removing and returning the innermost iteration.
    pub fn finish(self, ctx: &mut ICtx) -> (it: Iteration)
        requires
            old(ctx).iterations@.len() > 0,
        ensures
            it@ == old(ctx)@[0],
            final(ctx)@ == old(ctx)@.drop_first(),
    {
        let it = ctx.iterations.remove(0);
        proof {
            assert(final(ctx)@ =~= old(ctx)@.drop_first());
        }
        it
    }

    /// Abandons the scope, restoring the context as it was before it was entered.
    pub fn rollback(self, ctx: &mut ICtx)
        ensures
            final(ctx)@ == self.original(),
    {
        *ctx = self.original;
    }
}

/// Entering an iteration and finishing it with nothing changed in between
/// gives the iteration back and leaves the context as it was.
pub proof fn lemma_scope_round_trip(c: Seq<IterationV>, it: IterationV)
    ensures
        (seq![it] + c)[0] == it,
        (seq![it] + c).drop_first() == c,
{
    assert((seq![it] + c).drop_first() =~= c);
}

impl ICtx {
    pub fn new() -> (c: ICtx)
        ensures
            c@ == Seq::<IterationV>::empty(),
    {
        let c = ICtx { iterations: Vec::new() };
        assert(c@ =~= Seq::<IterationV>::empty());
        c
    }

    pub fn from_iterations(iterations: Vec<Iteration>) -> (c: ICtx)
        ensures
            c.iterations == iterations,
    {
        ICtx { iterations }
    }

    pub fn as_slice(&self) -> (s: &Vec<Iteration>)
        ensures
            s == &self.iterations,
    {
        &self.iterations
    }

    /// The iterations, innermost first.
    pub fn iters(&self) -> (v: Vec<Iter>)
        ensures
            v@ == levels_iters(self@, self@.len() as int),
    {
        let mut v: Vec<Iter> = Vec::new();
        for i in 0..self.iterations.len()
            invariant
                v@ == levels_iters(self@, i as int),
        {
            v.push(self.iterations[i].iter);
            assert(v@ =~= levels_iters(self@, i + 1));
        }
        v
    }

    /// Copies an iteration context.
    pub fn clone_ctx(&self) -> (c: ICtx)
        ensures
            c@ == self@,
    {
        let mut its: Vec<Iteration> = Vec::new();
        for i in 0..self.iterations.len()
            invariant
                its@.len() == i,
                forall|j: int| 0 <= j < i ==> (#[trigger] its@[j])@ == self.iterations@[j]@,
        {
            let it = &self.iterations[i];
            its.push(Iteration { iter: it.iter, vars_bound: clone_vars(&it.vars_bound), vars_bind: clone_vars(&it.vars_bind) });
        }
        let c = ICtx { iterations: its };
        assert(c@ =~= self@);
        c
    }

    /// Enters an iteration; the returned scope restores the context unless finished.
    pub fn scope(&mut self, iteration: Iteration) -> (s: IterationScope)
        ensures
            final(self)@ == seq![iteration@] + old(self)@,
            s.original() == old(self)@,
    {
        let original = self.clone_ctx();
        let ghost it = iteration@;
        self.iterations.insert(0, iteration);
        proof {
            assert(self@ =~= seq![it] + old(self)@);
        }
        IterationScope { original }
    }

    /// Registers the binders of `venv` as ranged over at every level, each outer
    /// level seeing them under one more iteration.
    pub fn add_vars_bound(&mut self, venv: &VEnv)
        ensures
            final(self)@.len() == old(self)@.len(),
            forall|l: int| 0 <= l < old(self)@.len() ==> #[trigger] final(self)@[l]
                == with_bound(old(self)@[l], env_vars(venv_entries(venv.entries@), levels_iters(old(self)@, l))),
    {
        self.add_vars(venv, true);
    }

    /// Registers the binders of `venv` as bound at every level, each outer level
    /// seeing them under one more iteration.
    pub fn add_vars_bind(&mut self, venv: &VEnv)
        ensures
            final(self)@.len() == old(self)@.len(),
            forall|l: int| 0 <= l < old(self)@.len() ==> #[trigger] final(self)@[l]
                == with_bind(old(self)@[l], env_vars(venv_entries(venv.entries@), levels_iters(old(self)@, l))),
    {
        self.add_vars(venv, false);
    }

    fn add_vars(&mut self, venv: &VEnv, bound: bool)
        ensures
            final(self)@.len() == old(self)@.len(),
            forall|l: int| 0 <= l < old(self)@.len() ==> #[trigger] final(self)@[l]
                == with_vars(old(self)@[l], env_vars(venv_entries(venv.entries@), levels_iters(old(self)@, l)), bound),
    {
        let ghost c0 = self@;
        let ghost es = venv_entries(venv.entries@);
        let n = self.iterations.len();
        let mut extra: Vec<Iter> = Vec::new();
        let mut l: usize = 0;
        while l < n
            invariant
                n == self.iterations@.len() == c0.len(),
                l <= n,
                es == venv_entries(venv.entries@),
                extra@ == levels_iters(c0, l as int),
                forall|k: int| l <= k < n ==> #[trigger] self@[k] == c0[k],
                forall|k: int| 0 <= k < l ==> #[trigger] self@[k] == with_vars(c0[k], env_vars(es, levels_iters(c0, k)), bound),
            decreases n - l,
        {
            let mut vars: Vec<Var> = Vec::new();
            let ghost extra_v = extra@;
            for e in 0..venv.entries.len()
                invariant
                    es == venv_entries(venv.entries@),
                    vars@.len() == e,
                    forall|a: int| 0 <= a < e ==> #[trigger] var_view(vars@[a]) == env_vars(es, extra@)[a],
            {
                let entry = &venv.entries[e];
                let mut iters = entry.1.iters.clone();
                let mut ex = extra.clone();
                iters.append(&mut ex);
                vars.push(Var { id: clone_id(&entry.0), typ: clone_typ(&entry.1.typ), iters });
            }
            let ghost vv = vars_view(vars@);
            proof {
                assert(vv =~= env_vars(es, extra@));
                assert(self@[l as int] == c0[l as int]);
            }
            let cur = &self.iterations[l];
            let mut vars_bound = clone_vars(&cur.vars_bound);
            let mut vars_bind = clone_vars(&cur.vars_bind);
            if bound {
                let ghost b0 = vars_bound@;
                vars_bound.append(&mut vars);
                proof {
                    assert(vars_view(vars_bound@) =~= vars_view(b0) + vv);
                }
            } else {
                let ghost b0 = vars_bind@;
                vars_bind.append(&mut vars);
                proof {
                    assert(vars_view(vars_bind@) =~= vars_view(b0) + vv);
                }
            }
            let iter = cur.iter;
            let ghost s1 = self.iterations@;
            proof {
                assert(iterations_view(s1) == self@);
            }
            self.iterations.set(l, Iteration { iter, vars_bound, vars_bind });
            extra.push(iter);
            proof {
                assert(extra@ =~= levels_iters(c0, l + 1));
                assert forall|k: int| 0 <= k < n implies #[trigger] self@[k] == (if k <= l {
                    with_vars(c0[k], env_vars(es, levels_iters(c0, k)), bound)
                } else {
                    c0[k]
                }) by {
                    if k < l {
                        assert(self.iterations@[k] == s1[k]);
                        assert(iterations_view(s1)[k] == with_vars(c0[k], env_vars(es, levels_iters(c0, k)), bound));
                    } else if k > l {
                        assert(self.iterations@[k] == s1[k]);
                        assert(iterations_view(s1)[k] == c0[k]);
                    } else {
                        assert(vars_view(cur.vars_bound@) == c0[k].vars_bound);
                        assert(vars_view(cur.vars_bind@) == c0[k].vars_bind);
                        assert(vv == env_vars(es, levels_iters(c0, k)));
                        assert(self@[k].iter == c0[k].iter);
                        if bound {
                            assert(self@[k].vars_bound == c0[k].vars_bound + vv);
                            assert(self@[k].vars_bind == c0[k].vars_bind);
                        } else {
                            assert(self@[k].vars_bind == c0[k].vars_bind + vv);
                            assert(self@[k].vars_bound == c0[k].vars_bound);
                        }
                    }
                }
            }
            l = l + 1;
        }
    }

    /// Registers one variable as ranged over at every level.
    pub fn add_var_bound(&mut self, id: Id, typ: Typ, iters: Vec<Iter>)
        ensures
            final(self)@.len() == old(self)@.len(),
            forall|l: int| 0 <= l < old(self)@.len() ==> #[trigger] final(self)@[l]
                == with_bound(old(self)@[l], seq![var_v(id@, typ_view(typ), iters@ + levels_iters(old(self)@, l))]),
    {
        let ghost k = id@;
        let ghost t = typ_view(typ);
        let ghost is = iters@;
        let mut venv = VEnv::new();
        venv.insert(id, Dim::new(typ, iters));
        proof {
            assert(venv.entries@.len() == 1);
        }
        self.add_vars_bound(&venv);
        proof {
            assert forall|l: int| 0 <= l < old(self)@.len() implies
                env_vars(venv_entries(venv.entries@), levels_iters(old(self)@, l)) =~= seq![var_v(k, t, is + levels_iters(old(self)@, l))] by {
                assert(venv_entries(venv.entries@).len() == 1);
            }
        }
    }

    /// Keeps the ranged-over variables whose dimension in `venv` is no deeper than theirs.
    pub fn filter_bound_by_dims(&mut self, venv: &VEnv)
        requires
            venv.wf(),
        ensures
            final(self)@.len() == old(self)@.len(),
            forall|l: int| 0 <= l < old(self)@.len() ==> #[trigger] final(self)@[l]
                == with_bound_only(old(self)@[l], keep_vars(old(self)@[l].vars_bound, dims_keep(venv@))),
    {
        let ids = IdSet::new();
        self.filter_bound(venv, &ids, true);
    }

    /// Keeps the ranged-over variables whose names are not in `ids`.
    pub fn filter_bound_not_in(&mut self, ids: &IdSet)
        ensures
            final(self)@.len() == old(self)@.len(),
            forall|l: int| 0 <= l < old(self)@.len() ==> #[trigger] final(self)@[l]
                == with_bound_only(old(self)@[l], keep_vars(old(self)@[l].vars_bound, not_in_keep(ids@))),
    {
        let venv = VEnv::new();
        self.filter_bound(&venv, ids, false);
    }

    fn keeps(venv: &VEnv, ids: &IdSet, by_dims: bool, var: &Var) -> (b: bool)
        requires
            venv.wf(),
        ensures
            b == filter_keep(venv@, ids@, by_dims)(var_view(*var)),
    {
        if by_dims {
            match venv.get(&var.id) {
                Some(dim_source) => {
                    let dim_var = Dim::new(clone_typ(&var.typ), var.iters.clone());
                    dim_source.sub(&dim_var)
                },
                None => false,
            }
        } else {
            !ids.contains(&var.id)
        }
    }

    pub fn filter_bound(&mut self, venv: &VEnv, ids: &IdSet, by_dims: bool)
        requires
            venv.wf(),
        ensures
            final(self)@.len() == old(self)@.len(),
            forall|l: int| 0 <= l < old(self)@.len() ==> #[trigger] final(self)@[l]
                == with_bound_only(old(self)@[l], keep_vars(old(self)@[l].vars_bound, filter_keep(venv@, ids@, by_dims))),
    {
        let ghost c0 = self@;
        let ghost f = filter_keep(venv@, ids@, by_dims);
        let n = self.iterations.len();
        for l in 0..n
            invariant
                venv.wf(),
                n == self.iterations@.len() == c0.len(),
                f == filter_keep(venv@, ids@, by_dims),
                forall|k: int| l <= k < n ==> #[trigger] self@[k] == c0[k],
                forall|k: int| 0 <= k < l ==> #[trigger] self@[k] == with_bound_only(c0[k], keep_vars(c0[k].vars_bound, f)),
        {
            let cur = &self.iterations[l];
            let mut kept: Vec<Var> = Vec::new();
            for v in 0..cur.vars_bound.len()
                invariant
                    venv.wf(),
                    f == filter_keep(venv@, ids@, by_dims),
                    vars_view(kept@) == keep_vars(vars_view(cur.vars_bound@.take(v as int)), f),
            {
                proof {
                    assert(vars_view(cur.vars_bound@.take(v + 1)).drop_last() =~= vars_view(cur.vars_bound@.take(v as int)));
                }
                if Self::keeps(venv, ids, by_dims, &cur.vars_bound[v]) {
                    let ghost k0 = kept@;
                    kept.push(clone_var(&cur.vars_bound[v]));
                    proof {
                        assert(vars_view(kept@) =~= vars_view(k0).push(var_view(cur.vars_bound@[v as int])));
                    }
                }
            }
            proof {
                assert(cur.vars_bound@.take(cur.vars_bound@.len() as int) =~= cur.vars_bound@);
                assert(self@[l as int] == c0[l as int]);
            }
            let it = Iteration { iter: cur.iter, vars_bound: kept, vars_bind: clone_vars(&cur.vars_bind) };
            let ghost s1 = self.iterations@;
            proof {
                assert(iterations_view(s1) == self@);
                assert(vars_view(cur.vars_bound@) == c0[l as int].vars_bound);
                assert(it@ == with_bound_only(c0[l as int], keep_vars(c0[l as int].vars_bound, f)));
            }
            self.iterations.set(l, it);
            proof {
                assert forall|k: int| 0 <= k < n implies #[trigger] self@[k] == (if k <= l {
                    with_bound_only(c0[k], keep_vars(c0[k].vars_bound, f))
                } else {
                    c0[k]
                }) by {
                    if k < l {
                        assert(self.iterations@[k] == s1[k]);
                        assert(iterations_view(s1)[k] == with_bound_only(c0[k], keep_vars(c0[k].vars_bound, f)));
                    } else if k > l {
                        assert(self.iterations@[k] == s1[k]);
                        assert(iterations_view(s1)[k] == c0[k]);
                    }
                }
            }
        }
    }

    /// Rejects the first level, innermost first, that ranges over nothing:
    /// an iteration that binds nothing either, or one whose binders' dimension
    /// cannot be determined.
    pub fn validate(&self, span: Span) -> (r: Result<(), AlgoError>)
        ensures
            r is Ok <==> forall|l: int| 0 <= l < self@.len() ==> (#[trigger] self@[l]).vars_bound.len() > 0,
            r matches Err(e) ==> e.span == span && exists|l: int| 0 <= l < self@.len()
                && (#[trigger] self@[l]).vars_bound.len() == 0
                && (forall|m: int| 0 <= m < l ==> (#[trigger] self@[m]).vars_bound.len() > 0)
                && e.kind == (if self@[l].vars_bind.len() == 0 {
                    AlgoErrorKind::EmptyIteration
                } else {
                    AlgoErrorKind::UndeterminedBindingDimension
                }),
    {
        for l in 0..self.iterations.len()
            invariant
                forall|m: int| 0 <= m < l ==> (#[trigger] self@[m]).vars_bound.len() > 0,
        {
            let entry = &self.iterations[l];
            if entry.vars_bound.len() == 0 {
                let kind = if entry.vars_bind.len() == 0 {
                    AlgoErrorKind::EmptyIteration
                } else {
                    AlgoErrorKind::UndeterminedBindingDimension
                };
                proof {
                    assert(self@[l as int].vars_bound.len() == 0);
                }
                return Err(AlgoError::new(kind, span));
            }
            assert(self@[l as int].vars_bound.len() > 0);
        }
        Ok(())
    }

    /// Wraps a premise in one iterated premise per level, innermost first;
    /// every wrapper stands at the premise's location.
    pub fn iterate_prem(&self, prem: Prem) -> (p: Prem)
        ensures
            p@ == iterate_shape(prem@, self@, self@.len() as int),
            wrapped_at(p, self@.len() as nat, prem.span),
            unwrap_n(p, self@.len() as nat) == prem,
    {
        let mut prem = prem;
        let ghost p0 = prem@;
        let ghost s0 = prem.span;
        let ghost whole = prem;
        for l in 0..self.iterations.len()
            invariant
                prem@ == iterate_shape(p0, self@, l as int),
                wrapped_at(prem, l as nat, s0),
                unwrap_n(prem, l as nat) == whole,
        {
            let entry = &self.iterations[l];
            let span = prem.span;
            let prem_iter = PremIter {
                iter: entry.iter,
                vars_bound: clone_vars(&entry.vars_bound),
                vars_bind: clone_vars(&entry.vars_bind),
            };
            let iter_prem = IterPrem { prem: Box::new(prem), prem_iter };
            prem = Prem { node: PremKind::Iter(iter_prem), span };
        }
        prem
    }
}

} // verus!
