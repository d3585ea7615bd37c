//! Dimension analysis of elaborated constructs.
//!
//! Every occurrence of an identifier in a rule, clause or table row has a
//! dimension: its type and the iterations it occurs under. The shallowest
//! occurrence gives the identifier's ambient dimension, which every other
//! occurrence must extend:
//!
//! ```text
//! -- if n_x* = [ 1, 1 ] ;; n_x : [ n_x* ]
//! -- if n_y = 1         ;; n_y : [ n_y ]
//! -- if (n_x = n_y)*    ;; n_x : [ n_x* ], n_y : [ n_y* ]
//! ```
//!
//! so `n_x : n_x*` and `n_y : n_y`. Each iteration construct is then
//! annotated with the identifiers it iterates over: those whose occurrences
//! inside it, taken under the iteration, stay within their ambient
//! dimension. An iteration over no identifier is invalid.

use vstd::prelude::*;
use crate::span::Span;
use crate::il::{Arg, ArgKind, ArgV, Exp, ExpField, ExpKind, ExpKindV, ExpV, Id, Iter, Path, PathKind, PathV, Typ, TypKind, Var, VarV,
    exp_kind_view, fields_atoms, mixop_view, pattern_view, typ_kind_view, typ_view, typs_view};
use crate::il_typ::{clone_id, clone_typ_kind};
use crate::il_free::{exp_free, exps_free, fields_free, path_free, args_free};
use crate::il::{exp_view, exps_view, fields_view, path_view, args_view, arg_view, vars_view, TableRow, Prem, PremKind, PremV, Rule,
    Clause, NotExp, prem_view, prems_view};
use vstd::string::StringExecFns;
use crate::assoc::{assoc_map, keys_unique, lemma_assoc_dom, lemma_assoc_index, lemma_assoc_push, lemma_assoc_update};
use crate::algo::dim::{Dim, DimV, VEnv, dim_sub, venv_entries};
use crate::elaborate::error::{ElabError, ElabErrorKind};
use crate::elaborate::report::named;

verus! {

// == Occurrences

/// The occurrences of identifiers in `e` under the iterations `iters`
/// (innermost first), left to right, each with its dimension.
pub open spec fn occs_exp(e: Exp, iters: Seq<Iter>) -> Seq<(Id, DimV)>
    decreases e,
{
    occs_kind(e.node, e.note, iters)
}

pub open spec fn occs_kind(k: ExpKind, note: TypKind, iters: Seq<Iter>) -> Seq<(Id, DimV)>
    decreases k,
{
    match k {
        ExpKind::Bool(_) | ExpKind::Num(_) | ExpKind::Text(_) => Seq::empty(),
        ExpKind::Var(id) => seq![(id, DimV { typ: typ_kind_view(note), iters })],
        ExpKind::Un(_, _, x) => occs_exp(*x, iters),
        ExpKind::UpCast(_, x) => occs_exp(*x, iters),
        ExpKind::DownCast(_, x) => occs_exp(*x, iters),
        ExpKind::Sub(x, _) => occs_exp(*x, iters),
        ExpKind::Match(x, _) => occs_exp(*x, iters),
        ExpKind::Len(x) => occs_exp(*x, iters),
        ExpKind::Dot(x, _) => occs_exp(*x, iters),
        ExpKind::Bin(_, _, l, r) => occs_exp(*l, iters) + occs_exp(*r, iters),
        ExpKind::Cmp(_, _, l, r) => occs_exp(*l, iters) + occs_exp(*r, iters),
        ExpKind::Cons(l, r) => occs_exp(*l, iters) + occs_exp(*r, iters),
        ExpKind::Cat(l, r) => occs_exp(*l, iters) + occs_exp(*r, iters),
        ExpKind::Mem(l, r) => occs_exp(*l, iters) + occs_exp(*r, iters),
        ExpKind::Idx(l, r) => occs_exp(*l, iters) + occs_exp(*r, iters),
        ExpKind::Tuple(es) => occs_exps(es@, iters),
        ExpKind::List(es) => occs_exps(es@, iters),
        ExpKind::Case(n) => occs_exps(n.args@, iters),
        ExpKind::Str(fs) => occs_fields(fs@, iters),
        ExpKind::Opt(o) => match o {
            Some(x) => occs_exp(*x, iters),
            None => Seq::empty(),
        },
        ExpKind::Slice(b, l, h) => occs_exp(*b, iters) + occs_exp(*l, iters) + occs_exp(*h, iters),
        ExpKind::Upd(b, p, f) => occs_exp(*b, iters) + occs_path(p, iters) + occs_exp(*f, iters),
        ExpKind::Call(_, _, args) => occs_args(args@, iters),
        ExpKind::Iter(x, it) => occs_exp(*x, seq![it.iter] + iters),
    }
}

pub open spec fn occs_exps(es: Seq<Exp>, iters: Seq<Iter>) -> Seq<(Id, DimV)>
    decreases es,
{
    if es.len() == 0 {
        Seq::empty()
    } else {
        occs_exps(es.drop_last(), iters) + occs_exp(es.last(), iters)
    }
}

pub open spec fn occs_fields(fs: Seq<ExpField>, iters: Seq<Iter>) -> Seq<(Id, DimV)>
    decreases fs,
{
    if fs.len() == 0 {
        Seq::empty()
    } else {
        occs_fields(fs.drop_last(), iters) + occs_exp(fs.last().exp, iters)
    }
}

pub open spec fn occs_path(p: Path, iters: Seq<Iter>) -> Seq<(Id, DimV)>
    decreases p,
{
    match p.node {
        PathKind::Root => Seq::empty(),
        PathKind::Idx(q, x) => occs_path(*q, iters) + occs_exp(*x, iters),
        PathKind::Slice(q, l, h) => occs_path(*q, iters) + occs_exp(*l, iters) + occs_exp(*h, iters),
        PathKind::Dot(q, _) => occs_path(*q, iters),
    }
}

pub open spec fn occs_args(args: Seq<Arg>, iters: Seq<Iter>) -> Seq<(Id, DimV)>
    decreases args,
{
    if args.len() == 0 {
        Seq::empty()
    } else {
        occs_args(args.drop_last(), iters) + match args.last().node {
            ArgKind::Exp(x) => occs_exp(*x, iters),
            ArgKind::Def(_) => Seq::empty(),
        }
    }
}

// == Collected occurrences

/// The occurrences of each identifier: their dimensions and locations, in order.
pub struct DimContext {
    pub entries: Vec<(Id, Vec<(Dim, Span)>)>,
}

/// The dimensions and locations of a list of occurrences.
pub open spec fn occ_view(s: Seq<(Dim, Span)>) -> Seq<(DimV, Span)> {
    Seq::new(s.len(), |i: int| (s[i].0@, s[i].1))
}

/// The names of the entries with their occurrences.
pub open spec fn dctx_entries(s: Seq<(Id, Vec<(Dim, Span)>)>) -> Seq<(Seq<char>, Seq<(DimV, Span)>)> {
    Seq::new(s.len(), |i: int| (s[i].0@, occ_view(s[i].1@)))
}

impl View for DimContext {
    type V = Map<Seq<char>, Seq<(DimV, Span)>>;

    open spec fn view(&self) -> Map<Seq<char>, Seq<(DimV, Span)>> {
        assoc_map(dctx_entries(self.entries@))
    }
}

/// Records one occurrence.
pub open spec fn dctx_add(m: Map<Seq<char>, Seq<(DimV, Span)>>, o: (Id, DimV)) -> Map<Seq<char>, Seq<(DimV, Span)>> {
    m.insert(o.0@, (if m.contains_key(o.0@) { m[o.0@] } else { Seq::empty() }).push((o.1, o.0.span)))
}

/// Records occurrences in order.
pub open spec fn dctx_add_all(m: Map<Seq<char>, Seq<(DimV, Span)>>, os: Seq<(Id, DimV)>) -> Map<Seq<char>, Seq<(DimV, Span)>>
    decreases os.len(),
{
    if os.len() == 0 {
        m
    } else {
        dctx_add(dctx_add_all(m, os.drop_last()), os.last())
    }
}

/// Recording two lists of occurrences one after the other records their
/// concatenation.
pub proof fn lemma_add_all_concat(m: Map<Seq<char>, Seq<(DimV, Span)>>, a: Seq<(Id, DimV)>, b: Seq<(Id, DimV)>)
    ensures
        dctx_add_all(m, a + b) == dctx_add_all(dctx_add_all(m, a), b),
    decreases b.len(),
{
    if b.len() == 0 {
        assert(a + b =~= a);
    } else {
        lemma_add_all_concat(m, a, b.drop_last());
        assert((a + b).drop_last() =~= a + b.drop_last());
        assert((a + b).last() == b.last());
    }
}

impl DimContext {
    /// No identifier has two entries, and each has an occurrence.
    pub open spec fn wf(&self) -> bool {
        &&& keys_unique(dctx_entries(self.entries@))
        &&& forall|i: int| 0 <= i < self.entries@.len() ==> (#[trigger] self.entries@[i]).1@.len() > 0
    }

    pub fn new() -> (c: DimContext)
        ensures
            c.wf(),
            c@ == Map::<Seq<char>, Seq<(DimV, Span)>>::empty(),
    {
        let c = DimContext { entries: Vec::new() };
        assert(dctx_entries(c.entries@) =~= Seq::empty());
        c
    }

    /// The position of the entry of `id`.
    fn find(&self, id: &Id) -> (r: Option<usize>)
        ensures
            match r {
                Some(i) => i < self.entries@.len() && dctx_entries(self.entries@)[i as int].0 == id@,
                None => forall|j: int| 0 <= j < self.entries@.len() ==> dctx_entries(self.entries@)[j].0 != id@,
            },
    {
        for i in 0..self.entries.len()
            invariant
                forall|j: int| 0 <= j < i ==> dctx_entries(self.entries@)[j].0 != id@,
        {
            if self.entries[i].0.node == id.node {
                return Some(i);
            }
        }
        None
    }

    /// Records an occurrence of `id` at dimension `dim`.
    pub fn add(&mut self, id: &Id, dim: Dim)
        requires
            old(self).wf(),
        ensures
            final(self).wf(),
            final(self)@ == dctx_add(old(self)@, (*id, dim@)),
    {
        let ghost s = dctx_entries(self.entries@);
        proof {
            lemma_assoc_dom(s);
        }
        let found = self.find(id);
        if let Some(i) = found {
            proof {
                assert(s[i as int].0 == id@);
                lemma_assoc_index(s, i as int);
            }
            let ghost w = occ_view(self.entries@[i as int].1@).push((dim@, id.span));
            let (k, mut occs) = self.entries.remove(i);
            occs.push((dim, id.span));
            self.entries.insert(i, (k, occs));
            proof {
                assert(occ_view(self.entries@[i as int].1@) =~= w);
                assert(dctx_entries(self.entries@) =~= s.update(i as int, (s[i as int].0, w)));
                lemma_assoc_update(s, i as int, w);
            }
        } else {
            proof {
                assert(!assoc_map(s).contains_key(id@));
                lemma_assoc_push(s, id@, seq![(dim@, id.span)]);
            }
            let mut occs: Vec<(Dim, Span)> = Vec::new();
            occs.push((dim, id.span));
            self.entries.push((clone_id(id), occs));
            proof {
                assert(occ_view(self.entries@.last().1@) =~= seq![(dim@, id.span)]);
                assert(dctx_entries(self.entries@) =~= s.push((id@, seq![(dim@, id.span)])));
                assert(Seq::<(DimV, Span)>::empty().push((dim@, id.span)) =~= seq![(dim@, id.span)]);
            }
        }
    }
}

// == Inference

/// A copy of the iterations `iters`.
fn copy_iters(iters: &Vec<Iter>) -> (r: Vec<Iter>)
    ensures
        r@ == iters@,
{
    let mut r: Vec<Iter> = Vec::new();
    for i in 0..iters.len()
        invariant
            r@ == iters@.take(i as int),
    {
        r.push(iters[i]);
        assert(r@ =~= iters@.take(i + 1));
    }
    assert(iters@.take(iters.len() as int) =~= iters@);
    r
}

/// `iter` around the iterations `iters`.
fn enclosed(iter: Iter, iters: &Vec<Iter>) -> (r: Vec<Iter>)
    ensures
        r@ == seq![iter] + iters@,
{
    let mut r: Vec<Iter> = Vec::new();
    r.push(iter);
    for i in 0..iters.len()
        invariant
            r@ == seq![iter] + iters@.take(i as int),
    {
        r.push(iters[i]);
        assert(r@ =~= seq![iter] + iters@.take(i + 1));
    }
    assert(iters@.take(iters.len() as int) =~= iters@);
    r
}

/// Records the occurrences of identifiers in `exp` under `iters`.
pub fn infer_exp(dim_ctx: &mut DimContext, exp: &Exp, iters: &Vec<Iter>)
    requires
        old(dim_ctx).wf(),
    ensures
        final(dim_ctx).wf(),
        final(dim_ctx)@ == dctx_add_all(old(dim_ctx)@, occs_exp(*exp, iters@)),
    decreases exp,
{
    let ghost m0 = dim_ctx@;
    match &exp.node {
        ExpKind::Bool(_) | ExpKind::Num(_) | ExpKind::Text(_) => {
            assert(dim_ctx@ == dctx_add_all(m0, occs_exp(*exp, iters@)));
        },
        ExpKind::Var(id) => {
            let typ = Typ { node: clone_typ_kind(&exp.note), span: exp.span };
            let dim = Dim::new(typ, copy_iters(iters));
            proof {
                let os = occs_exp(*exp, iters@);
                assert(dim@ == DimV { typ: typ_kind_view(exp.note), iters: iters@ });
                assert(os == seq![(*id, dim@)]);
                assert(os.drop_last() =~= Seq::<(Id, DimV)>::empty());
                reveal_with_fuel(dctx_add_all, 2);
                assert(dctx_add_all(m0, os) == dctx_add(m0, (*id, dim@)));
            }
            dim_ctx.add(id, dim);
            assert(dim_ctx@ == dctx_add_all(m0, occs_exp(*exp, iters@)));
        },
        ExpKind::Un(_, _, x) | ExpKind::UpCast(_, x) | ExpKind::DownCast(_, x) | ExpKind::Sub(x, _)
        | ExpKind::Match(x, _) | ExpKind::Len(x) | ExpKind::Dot(x, _) => {
            infer_exp(dim_ctx, x, iters);
            assert(dim_ctx@ == dctx_add_all(m0, occs_exp(*exp, iters@)));
        },
        ExpKind::Bin(_, _, l, r) | ExpKind::Cmp(_, _, l, r) | ExpKind::Cons(l, r) | ExpKind::Cat(l, r)
        | ExpKind::Mem(l, r) | ExpKind::Idx(l, r) => {
            infer_exp(dim_ctx, l, iters);
            infer_exp(dim_ctx, r, iters);
            proof {
                lemma_add_all_concat(m0, occs_exp(**l, iters@), occs_exp(**r, iters@));
            }
        },
        ExpKind::Tuple(es) | ExpKind::List(es) => {
            infer_exps(dim_ctx, es, iters);
        },
        ExpKind::Case(n) => {
            infer_exps(dim_ctx, &n.args, iters);
        },
        ExpKind::Str(fs) => {
            infer_fields(dim_ctx, fs, iters);
        },
        ExpKind::Opt(o) => match o {
            Some(x) => infer_exp(dim_ctx, x, iters),
            None => {
                assert(dim_ctx@ == dctx_add_all(m0, occs_exp(*exp, iters@)));
            },
        },
        ExpKind::Slice(b, l, h) => {
            infer_exp(dim_ctx, b, iters);
            infer_exp(dim_ctx, l, iters);
            infer_exp(dim_ctx, h, iters);
            proof {
                lemma_add_all_concat(m0, occs_exp(**b, iters@), occs_exp(**l, iters@));
                lemma_add_all_concat(m0, occs_exp(**b, iters@) + occs_exp(**l, iters@), occs_exp(**h, iters@));
            }
        },
        ExpKind::Upd(b, p, f) => {
            infer_exp(dim_ctx, b, iters);
            infer_path(dim_ctx, p, iters);
            infer_exp(dim_ctx, f, iters);
            proof {
                lemma_add_all_concat(m0, occs_exp(**b, iters@), occs_path(*p, iters@));
                lemma_add_all_concat(m0, occs_exp(**b, iters@) + occs_path(*p, iters@), occs_exp(**f, iters@));
            }
        },
        ExpKind::Call(_, _, args) => {
            infer_args(dim_ctx, args, iters);
        },
        ExpKind::Iter(x, it) => {
            let inner = enclosed(it.iter, iters);
            infer_exp(dim_ctx, x, &inner);
            assert(dim_ctx@ == dctx_add_all(m0, occs_exp(*exp, iters@)));
        },
    }
}

/// Records the occurrences of identifiers in `exps` under `iters`, left to right.
#[verifier::loop_isolation(false)]
pub fn infer_exps(dim_ctx: &mut DimContext, exps: &Vec<Exp>, iters: &Vec<Iter>)
    requires
        old(dim_ctx).wf(),
    ensures
        final(dim_ctx).wf(),
        final(dim_ctx)@ == dctx_add_all(old(dim_ctx)@, occs_exps(exps@, iters@)),
    decreases exps,
{
    let ghost m0 = dim_ctx@;
    for i in 0..exps.len()
        invariant
            dim_ctx.wf(),
            dim_ctx@ == dctx_add_all(m0, occs_exps(exps@.take(i as int), iters@)),
    {
        proof {
            assert(decreases_to!(exps => exps[i as int]));
            assert(exps@.take(i + 1).drop_last() =~= exps@.take(i as int));
            lemma_add_all_concat(m0, occs_exps(exps@.take(i as int), iters@), occs_exp(exps@[i as int], iters@));
        }
        infer_exp(dim_ctx, &exps[i], iters);
    }
    assert(exps@.take(exps.len() as int) =~= exps@);
}

/// Records the occurrences of identifiers in the fields `fields`.
#[verifier::loop_isolation(false)]
fn infer_fields(dim_ctx: &mut DimContext, fields: &Vec<ExpField>, iters: &Vec<Iter>)
    requires
        old(dim_ctx).wf(),
    ensures
        final(dim_ctx).wf(),
        final(dim_ctx)@ == dctx_add_all(old(dim_ctx)@, occs_fields(fields@, iters@)),
    decreases fields,
{
    let ghost m0 = dim_ctx@;
    for i in 0..fields.len()
        invariant
            dim_ctx.wf(),
            dim_ctx@ == dctx_add_all(m0, occs_fields(fields@.take(i as int), iters@)),
    {
        proof {
            assert(decreases_to!(fields => fields[i as int]));
            assert(decreases_to!(fields[i as int] => fields[i as int].exp));
            assert(fields@.take(i + 1).drop_last() =~= fields@.take(i as int));
            lemma_add_all_concat(m0, occs_fields(fields@.take(i as int), iters@), occs_exp(fields@[i as int].exp, iters@));
        }
        infer_exp(dim_ctx, &fields[i].exp, iters);
    }
    assert(fields@.take(fields.len() as int) =~= fields@);
}

/// Records the occurrences of identifiers in the update path `path`.
pub fn infer_path(dim_ctx: &mut DimContext, path: &Path, iters: &Vec<Iter>)
    requires
        old(dim_ctx).wf(),
    ensures
        final(dim_ctx).wf(),
        final(dim_ctx)@ == dctx_add_all(old(dim_ctx)@, occs_path(*path, iters@)),
    decreases path,
{
    let ghost m0 = dim_ctx@;
    match &path.node {
        PathKind::Root => {},
        PathKind::Idx(q, x) => {
            infer_path(dim_ctx, q, iters);
            infer_exp(dim_ctx, x, iters);
            proof {
                lemma_add_all_concat(m0, occs_path(**q, iters@), occs_exp(**x, iters@));
            }
        },
        PathKind::Slice(q, l, h) => {
            infer_path(dim_ctx, q, iters);
            infer_exp(dim_ctx, l, iters);
            infer_exp(dim_ctx, h, iters);
            proof {
                lemma_add_all_concat(m0, occs_path(**q, iters@), occs_exp(**l, iters@));
                lemma_add_all_concat(m0, occs_path(**q, iters@) + occs_exp(**l, iters@), occs_exp(**h, iters@));
            }
        },
        PathKind::Dot(q, _) => {
            infer_path(dim_ctx, q, iters);
        },
    }
}

/// Records the occurrences of identifiers in an argument; a function
/// argument has none.
pub fn infer_arg(dim_ctx: &mut DimContext, arg: &Arg, iters: &Vec<Iter>)
    requires
        old(dim_ctx).wf(),
    ensures
        final(dim_ctx).wf(),
        final(dim_ctx)@ == dctx_add_all(old(dim_ctx)@, occs_args(seq![*arg], iters@)),
    decreases arg,
{
    proof {
        assert(seq![*arg].drop_last() =~= Seq::<Arg>::empty());
        reveal_with_fuel(occs_args, 2);
    }
    match &arg.node {
        ArgKind::Exp(x) => {
            infer_exp(dim_ctx, x, iters);
            assert(Seq::<(Id, DimV)>::empty() + occs_exp(**x, iters@) =~= occs_exp(**x, iters@));
        },
        ArgKind::Def(_) => {
            assert(Seq::<(Id, DimV)>::empty() + Seq::<(Id, DimV)>::empty() =~= Seq::<(Id, DimV)>::empty());
        },
    }
}

/// Records the occurrences of identifiers in `args`, left to right.
#[verifier::loop_isolation(false)]
pub fn infer_args(dim_ctx: &mut DimContext, args: &Vec<Arg>, iters: &Vec<Iter>)
    requires
        old(dim_ctx).wf(),
    ensures
        final(dim_ctx).wf(),
        final(dim_ctx)@ == dctx_add_all(old(dim_ctx)@, occs_args(args@, iters@)),
    decreases args,
{
    let ghost m0 = dim_ctx@;
    for i in 0..args.len()
        invariant
            dim_ctx.wf(),
            dim_ctx@ == dctx_add_all(m0, occs_args(args@.take(i as int), iters@)),
    {
        proof {
            assert(decreases_to!(args => args[i as int]));
            assert(args@.take(i + 1).drop_last() =~= args@.take(i as int));
            assert(seq![args@[i as int]].drop_last() =~= Seq::<Arg>::empty());
            reveal_with_fuel(occs_args, 2);
            assert(occs_args(seq![args@[i as int]], iters@) =~= match args@[i as int].node {
                ArgKind::Exp(x) => occs_exp(*x, iters@),
                ArgKind::Def(_) => Seq::<(Id, DimV)>::empty(),
            });
            lemma_add_all_concat(m0, occs_args(args@.take(i as int), iters@), occs_args(seq![args@[i as int]], iters@));
        }
        infer_arg(dim_ctx, &args[i], iters);
    }
    assert(args@.take(args.len() as int) =~= args@);
}

// == Ambient dimensions

/// The position of the first occurrence under the fewest iterations.
pub open spec fn first_min(os: Seq<(DimV, Span)>) -> int
    decreases os.len(),
{
    if os.len() <= 1 {
        0
    } else {
        let j = first_min(os.drop_last());
        if os.last().0.iters.len() < os[j].0.iters.len() { os.len() - 1 } else { j }
    }
}

/// The ambient dimension of an identifier: that of its first shallowest occurrence.
pub open spec fn min_dim(os: Seq<(DimV, Span)>) -> DimV {
    os[first_min(os)].0
}

/// Every occurrence extends the ambient dimension.
pub open spec fn consistent(os: Seq<(DimV, Span)>) -> bool {
    forall|k: int| 0 <= k < os.len() ==> dim_sub(min_dim(os), #[trigger] os[k].0)
}

/// `k` is the first occurrence that does not extend the ambient dimension.
pub open spec fn conflict_at(os: Seq<(DimV, Span)>, k: int) -> bool {
    &&& 0 <= k < os.len()
    &&& !dim_sub(min_dim(os), os[k].0)
    &&& forall|j: int| 0 <= j < k ==> dim_sub(min_dim(os), #[trigger] os[j].0)
}

proof fn lemma_first_min(os: Seq<(DimV, Span)>)
    requires
        os.len() > 0,
    ensures
        0 <= first_min(os) < os.len(),
        forall|k: int| 0 <= k < os.len() ==> os[first_min(os)].0.iters.len() <= (#[trigger] os[k]).0.iters.len(),
    decreases os.len(),
{
    if os.len() > 1 {
        lemma_first_min(os.drop_last());
        assert forall|k: int| 0 <= k < os.len() implies os[first_min(os)].0.iters.len() <= (#[trigger] os[k]).0.iters.len() by {
            if k < os.len() - 1 {
                assert(os.drop_last()[k] == os[k]);
            }
        }
    }
}

impl DimContext {
    /// Each identifier's ambient dimension, if all its occurrences extend it;
    /// otherwise the first occurrence, of some identifier, that does not.
    #[verifier::loop_isolation(false)]
    pub fn into_bounds(self) -> (r: Result<VEnv, ElabError>)
        requires
            self.wf(),
        ensures
            match r {
                Ok(bounds) => bounds.wf()
                    && (forall|n: Seq<char>| #[trigger] self@.contains_key(n) ==> consistent(self@[n]))
                    && bounds@ == self@.map_values(|os: Seq<(DimV, Span)>| min_dim(os)),
                Err(e) => e.kind == ElabErrorKind::DimensionMismatch
                    && exists|n: Seq<char>, k: int| self@.contains_key(n) && #[trigger] conflict_at(self@[n], k)
                        && e.span == self@[n][k].1,
            },
    {
        let ghost s = dctx_entries(self.entries@);
        let ghost f = |os: Seq<(DimV, Span)>| min_dim(os);
        let mut bounds = VEnv::new();
        proof {
            assert(venv_entries(bounds.entries@) =~= crate::assoc::assoc_map_values(s.take(0), f));
        }
        for i in 0..self.entries.len()
            invariant
                self.wf(),
                s == dctx_entries(self.entries@),
                bounds.wf(),
                venv_entries(bounds.entries@) == crate::assoc::assoc_map_values(s.take(i as int), f),
                forall|j: int| 0 <= j < i ==> consistent(#[trigger] s[j].1),
        {
            let id = &self.entries[i].0;
            let occs = &self.entries[i].1;
            let ghost os = s[i as int].1;
            proof {
                assert(self.entries@[i as int].1@.len() > 0);
                assert(os == occ_view(occs@));
                lemma_first_min(os);
            }
            let n = occs.len();
            let mut m: usize = 0;
            for k in 1..n
                invariant
                    n == occs@.len(),
                    n > 0,
                    os == occ_view(occs@),
                    m as int == first_min(os.take(k as int)),
                    m < k,
            {
                proof {
                    lemma_first_min(os.take(k as int));
                    assert(os.take(k + 1).drop_last() =~= os.take(k as int));
                    assert(os.take(k + 1)[m as int] == os[m as int]);
                }
                if occs[k].0.iters.len() < occs[m].0.iters.len() {
                    m = k;
                }
            }
            proof {
                assert(os.take(n as int) =~= os);
            }
            for k in 0..n
                invariant
                    n == occs@.len(),
                    os == occ_view(occs@),
                    m as int == first_min(os),
                    m < n,
                    forall|j: int| 0 <= j < k ==> dim_sub(min_dim(os), #[trigger] os[j].0),
            {
                if !occs[m].0.sub(&occs[k].0) {
                    let e = ElabError::new(ElabErrorKind::DimensionMismatch, occs[k].1,
                        named("mismatched iteration dimensions for identifier `", &id.node, "`"));
                    proof {
                        assert(conflict_at(os, k as int));
                        lemma_assoc_index(s, i as int);
                        assert(self@.contains_key(s[i as int].0));
                        assert(self@[s[i as int].0] == os);
                        assert(conflict_at(self@[s[i as int].0], k as int));
                        assert(e.span == os[k as int].1);
                    }
                    return Err(e);
                }
            }
            proof {
                assert(consistent(os));
                lemma_assoc_dom(s.take(i as int));
                lemma_assoc_dom(venv_entries(bounds.entries@));
                crate::assoc::lemma_assoc_map_values(s.take(i as int), f);
                assert forall|j: int| 0 <= j < i implies s.take(i as int)[j].0 != id@ by {
                    assert(s[j].0 != s[i as int].0);
                }
                assert(!bounds@.contains_key(id@)) by {
                    if bounds@.contains_key(id@) {
                        let j = choose|j: int| 0 <= j < venv_entries(bounds.entries@).len() && venv_entries(bounds.entries@)[j].0 == id@;
                        assert(s.take(i as int)[j].0 == id@);
                    }
                }
            }
            let dim = occs[m].0.clone_dim();
            proof {
                assert(dim@ == os[m as int].0);
            }
            bounds.insert(clone_id(id), dim);
            proof {
                assert(s[i as int].0 == id@);
                assert(f(os) == min_dim(os));
                assert(s.take(i + 1)[i as int] == s[i as int]);
                assert(crate::assoc::assoc_map_values(s.take(i + 1), f) =~= crate::assoc::assoc_map_values(s.take(i as int), f).push((id@, min_dim(os))));
            }
        }
        proof {
            assert(s.take(self.entries@.len() as int) =~= s);
            crate::assoc::lemma_assoc_map_values(s, f);
            lemma_assoc_dom(s);
            assert forall|n: Seq<char>| #[trigger] self@.contains_key(n) implies consistent(self@[n]) by {
                let j = choose|j: int| 0 <= j < s.len() && s[j].0 == n;
                lemma_assoc_index(s, j);
            }
        }
        Ok(bounds)
    }
}

// == Occurrence sets of annotated constructs

/// The identifiers occurring in a construct, each with the shallowest
/// dimension seen relative to the construct, in order.
pub struct Occurrences(pub VEnv);

/// The identifiers and dimensions of an environment's entries.
pub open spec fn occ_entries(s: Seq<(Id, Dim)>) -> Seq<(Id, DimV)> {
    Seq::new(s.len(), |i: int| (s[i].0, s[i].1@))
}

impl View for Occurrences {
    type V = Seq<(Id, DimV)>;

    open spec fn view(&self) -> Seq<(Id, DimV)> {
        occ_entries(self.0.entries@)
    }
}

/// The position of the entry named `n`, or -1.
pub open spec fn occ_index(o: Seq<(Id, DimV)>, n: Seq<char>) -> int
    decreases o.len(),
{
    if o.len() == 0 {
        -1
    } else if o.last().0@ == n {
        o.len() - 1
    } else {
        occ_index(o.drop_last(), n)
    }
}

/// Adds one occurrence to a union: a name seen before must keep its type,
/// and the shallower of the two dimensions stays, the added one on a tie.
/// A type mismatch is reported at the added identifier.
pub open spec fn occ_put(acc: Seq<(Id, DimV)>, x: (Id, DimV)) -> Result<Seq<(Id, DimV)>, Span> {
    let i = occ_index(acc, x.0@);
    if i < 0 {
        Ok(acc.push(x))
    } else if acc[i].1.typ != x.1.typ {
        Err(x.0.span)
    } else if x.1.iters.len() <= acc[i].1.iters.len() {
        Ok(acc.update(i, x))
    } else {
        Ok(acc)
    }
}

/// The union of two occurrence sets, adding those of `b` in order.
pub open spec fn occ_union(a: Seq<(Id, DimV)>, b: Seq<(Id, DimV)>) -> Result<Seq<(Id, DimV)>, Span>
    decreases b.len(),
{
    if b.len() == 0 {
        Ok(a)
    } else {
        match occ_union(a, b.drop_last()) {
            Err(sp) => Err(sp),
            Ok(acc) => occ_put(acc, b.last()),
        }
    }
}

/// Binds `x`'s name to `x`, in place if it is already bound.
pub open spec fn occ_insert(acc: Seq<(Id, DimV)>, x: (Id, DimV)) -> Seq<(Id, DimV)> {
    let i = occ_index(acc, x.0@);
    if i < 0 { acc.push(x) } else { acc.update(i, x) }
}

/// The occurrences with the variables `vars` taken under one more iteration.
pub open spec fn occ_iterate(o: Seq<(Id, DimV)>, vars: Seq<(Id, DimV)>, iter: Iter) -> Seq<(Id, DimV)>
    decreases vars.len(),
{
    if vars.len() == 0 {
        o
    } else {
        let x = vars.last();
        occ_insert(occ_iterate(o, vars.drop_last(), iter), (x.0, DimV { typ: x.1.typ, iters: x.1.iters.push(iter) }))
    }
}

/// No name occurs twice.
pub open spec fn occ_unique(o: Seq<(Id, DimV)>) -> bool {
    forall|i: int, j: int| 0 <= i < j < o.len() ==> o[i].0@ != o[j].0@
}

proof fn lemma_occ_index(o: Seq<(Id, DimV)>, n: Seq<char>)
    requires
        occ_unique(o),
    ensures
        -1 <= occ_index(o, n) < o.len(),
        occ_index(o, n) >= 0 ==> o[occ_index(o, n)].0@ == n,
        occ_index(o, n) < 0 ==> forall|i: int| 0 <= i < o.len() ==> (#[trigger] o[i]).0@ != n,
        forall|i: int| 0 <= i < o.len() && (#[trigger] o[i]).0@ == n ==> occ_index(o, n) == i,
    decreases o.len(),
{
    if o.len() > 0 {
        let p = o.drop_last();
        assert forall|i: int, j: int| 0 <= i < j < p.len() implies p[i].0@ != p[j].0@ by {
            assert(p[i] == o[i] && p[j] == o[j]);
        }
        lemma_occ_index(p, n);
        if o.last().0@ == n {
            assert forall|i: int| 0 <= i < o.len() && (#[trigger] o[i]).0@ == n implies occ_index(o, n) == i by {
                if i < o.len() - 1 {
                    assert(o[i].0@ != o[o.len() - 1].0@);
                }
            }
        } else {
            assert forall|i: int| 0 <= i < o.len() && (#[trigger] o[i]).0@ == n implies occ_index(o, n) == i by {
                assert(i < o.len() - 1);
                assert(p[i] == o[i]);
            }
            if occ_index(o, n) < 0 {
                assert forall|i: int| 0 <= i < o.len() implies (#[trigger] o[i]).0@ != n by {
                    if i < o.len() - 1 {
                        assert(p[i] == o[i]);
                    }
                }
            } else {
                assert(p[occ_index(p, n)] == o[occ_index(o, n)]);
            }
        }
    }
}

proof fn lemma_occ_index_range(o: Seq<(Id, DimV)>, n: Seq<char>)
    ensures
        -1 <= occ_index(o, n) < o.len(),
    decreases o.len(),
{
    if o.len() > 0 {
        lemma_occ_index_range(o.drop_last(), n);
    }
}

/// The entries of an environment are unique exactly when its occurrences are.
proof fn lemma_occ_venv(v: VEnv)
    ensures
        v.wf() <==> occ_unique(occ_entries(v.entries@)),
{
    let e = venv_entries(v.entries@);
    let o = occ_entries(v.entries@);
    assert forall|i: int| 0 <= i < o.len() implies #[trigger] o[i].0@ == e[i].0 by {}
    if v.wf() {
        assert forall|i: int, j: int| 0 <= i < j < o.len() implies o[i].0@ != o[j].0@ by {
            assert(o[i].0@ == e[i].0 && o[j].0@ == e[j].0);
        }
    }
    if occ_unique(o) {
        assert forall|i: int, j: int| 0 <= i < j < e.len() implies e[i].0 != e[j].0 by {
            assert(o[i].0@ == e[i].0 && o[j].0@ == e[j].0);
        }
    }
}

/// The identifiers and dimensions of iteration variables.
pub open spec fn vars_occ(vs: Seq<Var>) -> Seq<(Id, DimV)> {
    Seq::new(vs.len(), |i: int| (vs[i].id, DimV { typ: typ_view(vs[i].typ), iters: vs[i].iters@ }))
}

/// A failed addition ends the union with its error.
proof fn lemma_union_err(a: Seq<(Id, DimV)>, b: Seq<(Id, DimV)>, i: int, sp: Span)
    requires
        0 <= i < b.len(),
        occ_union(a, b.take(i + 1)) == Err::<Seq<(Id, DimV)>, Span>(sp),
    ensures
        occ_union(a, b) == Err::<Seq<(Id, DimV)>, Span>(sp),
    decreases b.len() - i,
{
    if i + 1 < b.len() {
        assert(b.take(i + 2).drop_last() =~= b.take(i + 1));
        assert(occ_union(a, b.take(i + 2)) == Err::<Seq<(Id, DimV)>, Span>(sp));
        lemma_union_err(a, b, i + 1, sp);
    } else {
        assert(b.take(i + 1) =~= b);
    }
}

impl Occurrences {
    pub open spec fn wf(&self) -> bool {
        self.0.wf()
    }

    pub fn new() -> (o: Occurrences)
        ensures
            o.wf(),
            o@ == Seq::<(Id, DimV)>::empty(),
    {
        let o = Occurrences(VEnv::new());
        assert(o@ =~= Seq::<(Id, DimV)>::empty());
        o
    }

    /// One occurrence of `id`, of type `typ`, under no iteration.
    pub fn singleton(id: &Id, typ: Typ) -> (o: Occurrences)
        ensures
            o.wf(),
            o@ == seq![(*id, DimV { typ: typ_view(typ), iters: Seq::<Iter>::empty() })],
    {
        let mut v = VEnv::new();
        v.insert(clone_id(id), Dim::new(typ, Vec::new()));
        let o = Occurrences(v);
        assert(o@ =~= seq![(*id, DimV { typ: typ_view(typ), iters: Seq::<Iter>::empty() })]);
        o
    }

    /// Binds `id` to `dim`, in place if it is already bound.
    fn put(&mut self, id: Id, dim: Dim)
        requires
            old(self).wf(),
        ensures
            final(self).wf(),
            final(self)@ == occ_insert(old(self)@, (id, dim@)),
    {
        let ghost o = self@;
        proof {
            lemma_occ_venv(self.0);
            lemma_occ_index(o, id@);
            lemma_assoc_dom(venv_entries(self.0.entries@));
        }
        let ghost had = self.0@.contains_key(id@);
        proof {
            if had {
                let j = choose|j: int| 0 <= j < venv_entries(self.0.entries@).len() && venv_entries(self.0.entries@)[j].0 == id@;
                assert(o[j].0@ == id@);
            } else {
                assert forall|i: int| 0 <= i < o.len() implies o[i].0@ != id@ by {
                    assert(venv_entries(self.0.entries@)[i].0 == o[i].0@);
                }
            }
        }
        let ghost d = dim@;
        let ghost x = id;
        self.0.insert(id, dim);
        proof {
            if had {
                let i = choose|i: int| 0 <= i < old(self).0.entries@.len() && old(self).0.entries@[i].0@ == x@
                    && self.0.entries@ == old(self).0.entries@.update(i, (x, dim));
                assert(o[i].0@ == x@);
                assert(occ_index(o, x@) == i);
                assert(self@ =~= o.update(i, (x, d)));
                assert(occ_insert(o, (x, d)) == o.update(i, (x, d)));
            } else {
                assert(occ_index(o, x@) < 0);
                assert(self@ =~= o.push((x, d)));
            }
        }
    }

    /// The union of two occurrence sets: a name in both must have the same
    /// type in both, and the shallower dimension stays.
    pub fn union(self, occurs_other: Occurrences) -> (r: Result<Occurrences, ElabError>)
        requires
            self.wf(),
            occurs_other.wf(),
        ensures
            match occ_union(self@, occurs_other@) {
                Ok(o) => r matches Ok(u) && u.wf() && u@ == o,
                Err(sp) => r matches Err(e) && e.kind == ElabErrorKind::TypeMismatch && e.span == sp,
            },
    {
        let mut acc = self;
        let ghost b = occurs_other@;
        for i in 0..occurs_other.0.entries.len()
            invariant
                acc.wf(),
                b == occurs_other@,
                occ_union(self@, b.take(i as int)) == Ok::<Seq<(Id, DimV)>, Span>(acc@),
        {
            let id = &occurs_other.0.entries[i].0;
            let dim_other = &occurs_other.0.entries[i].1;
            proof {
                assert(b.take(i + 1).drop_last() =~= b.take(i as int));
                assert(b.take(i + 1).last() == b[i as int]);
                assert(b[i as int] == (*id, dim_other@));
                lemma_occ_venv(acc.0);
                lemma_occ_index(acc@, id@);
            }
            match acc.0.find(id) {
                Some(j) => {
                    proof {
                        assert(acc@[j as int].0@ == id@);
                    }
                    if !crate::il_typ::typ_eq(&acc.0.entries[j].1.typ, &dim_other.typ) {
                        let e = ElabError::new(ElabErrorKind::TypeMismatch, id.span,
                            named("type mismatch for identifier `", &id.node, "` in union"));
                        proof {
                            assert(occ_index(acc@, id@) == j as int);
                            assert(occ_put(acc@, b[i as int]) == Err::<Seq<(Id, DimV)>, Span>(id.span));
                            lemma_union_err(self@, b, i as int, id.span);
                        }
                        return Err(e);
                    }
                    if dim_other.iters.len() <= acc.0.entries[j].1.iters.len() {
                        acc.put(clone_id(id), dim_other.clone_dim());
                    }
                },
                None => {
                    proof {
                        assert forall|k: int| 0 <= k < acc@.len() implies acc@[k].0@ != id@ by {
                            lemma_assoc_dom(venv_entries(acc.0.entries@));
                            assert(venv_entries(acc.0.entries@)[k].0 == acc@[k].0@);
                        }
                    }
                    acc.put(clone_id(id), dim_other.clone_dim());
                },
            }
        }
        proof {
            assert(b.take(b.len() as int) =~= b);
        }
        Ok(acc)
    }

    /// The occurrences with the variables `vars` taken under one more
    /// iteration `iter`.
    pub fn iterate(self, vars: &Vec<Var>, iter: Iter) -> (r: Occurrences)
        requires
            self.wf(),
        ensures
            r.wf(),
            r@ == occ_iterate(self@, vars_occ(vars@), iter),
    {
        let mut acc = self;
        for i in 0..vars.len()
            invariant
                acc.wf(),
                acc@ == occ_iterate(self@, vars_occ(vars@.take(i as int)), iter),
        {
            let var = &vars[i];
            let mut iters = copy_iters(&var.iters);
            iters.push(iter);
            proof {
                assert(vars_occ(vars@.take(i + 1)).drop_last() =~= vars_occ(vars@.take(i as int)));
            }
            acc.put(clone_id(&var.id), Dim::new(crate::il_typ::clone_typ(&var.typ), iters));
        }
        proof {
            assert(vars@.take(vars.len() as int) =~= vars@);
        }
        acc
    }
}

// == Iteration variables

/// Taken under `iter`, the occurrence `x` stays within its ambient dimension.
pub open spec fn iter_cond(bounds: Map<Seq<char>, DimV>, x: (Id, DimV), iter: Iter) -> bool {
    dim_sub(DimV { typ: x.1.typ, iters: x.1.iters.push(iter) }, bounds[x.0@])
}

/// The occurrences that an iteration `iter` over them ranges over, in order.
pub open spec fn iter_vars(bounds: Map<Seq<char>, DimV>, o: Seq<(Id, DimV)>, iter: Iter) -> Seq<(Id, DimV)>
    decreases o.len(),
{
    if o.len() == 0 {
        Seq::empty()
    } else {
        let r = iter_vars(bounds, o.drop_last(), iter);
        if iter_cond(bounds, o.last(), iter) { r.push(o.last()) } else { r }
    }
}

/// The binders of iteration variables.
pub open spec fn occ_vars(vs: Seq<(Id, DimV)>) -> Seq<VarV> {
    Seq::new(vs.len(), |i: int| VarV { id: vs[i].0@, typ: vs[i].1.typ, iters: vs[i].1.iters })
}

/// The variables that an iteration `iter` over `occurs` ranges over: those
/// whose occurrence, taken under the iteration, stays within its bound.
pub fn collect_iter_vars(bounds: &VEnv, occurs: &Occurrences, iter: Iter) -> (r: Vec<Var>)
    requires
        bounds.wf(),
        forall|i: int| 0 <= i < occurs@.len() ==> bounds@.contains_key((#[trigger] occurs@[i]).0@),
    ensures
        vars_occ(r@) == iter_vars(bounds@, occurs@, iter),
{
    let ghost o = occurs@;
    let mut r: Vec<Var> = Vec::new();
    for i in 0..occurs.0.entries.len()
        invariant
            bounds.wf(),
            o == occurs@,
            forall|i: int| 0 <= i < o.len() ==> bounds@.contains_key((#[trigger] o[i]).0@),
            vars_occ(r@) == iter_vars(bounds@, o.take(i as int), iter),
    {
        let id = &occurs.0.entries[i].0;
        let dim = &occurs.0.entries[i].1;
        proof {
            assert(o.take(i + 1).drop_last() =~= o.take(i as int));
            assert(o.take(i + 1).last() == o[i as int]);
            assert(o[i as int] == (*id, dim@));
            assert(bounds@.contains_key(id@));
        }
        let dim_bound = match bounds.get(id) {
            Some(d) => d,
            None => {
                proof {
                    assert(false);
                }
                return r;
            },
        };
        let extended = dim.clone_dim().add_iter(iter);
        if extended.sub(dim_bound) {
            let ghost r0 = r@;
            r.push(Var { id: clone_id(id), typ: crate::il_typ::clone_typ(&dim.typ), iters: copy_iters(&dim.iters) });
            proof {
                assert(vars_occ(r@) =~= vars_occ(r0).push(o[i as int]));
            }
        }
    }
    proof {
        assert(o.take(o.len() as int) =~= o);
    }
    r
}

// == Annotation

/// An expression view of the node `k` with the type `note`.
pub open spec fn mk(k: ExpKindV, note: TypKind) -> ExpV {
    ExpV { node: k, note: typ_kind_view(note) }
}

/// A failed union, as an annotation failure.
pub open spec fn union_failure(sp: Span) -> (ElabErrorKind, Span) {
    (ElabErrorKind::TypeMismatch, sp)
}

/// Two annotated constructs, left then right, with the union of their occurrences.
pub open spec fn join2<A, B>(
    a: Result<(A, Seq<(Id, DimV)>), (ElabErrorKind, Span)>,
    c: Result<(B, Seq<(Id, DimV)>), (ElabErrorKind, Span)>,
) -> Result<(A, B, Seq<(Id, DimV)>), (ElabErrorKind, Span)> {
    match a {
        Err(f) => Err(f),
        Ok((av, ao)) => match c {
            Err(f) => Err(f),
            Ok((cv, co)) => match occ_union(ao, co) {
                Err(sp) => Err(union_failure(sp)),
                Ok(o) => Ok((av, cv, o)),
            },
        },
    }
}

/// Three annotated constructs, in order, with the union of their occurrences
/// taken left to right.
pub open spec fn join3<A, B, C>(
    a: Result<(A, Seq<(Id, DimV)>), (ElabErrorKind, Span)>,
    c: Result<(B, Seq<(Id, DimV)>), (ElabErrorKind, Span)>,
    d: Result<(C, Seq<(Id, DimV)>), (ElabErrorKind, Span)>,
) -> Result<(A, B, C, Seq<(Id, DimV)>), (ElabErrorKind, Span)> {
    match a {
        Err(f) => Err(f),
        Ok((av, ao)) => match c {
            Err(f) => Err(f),
            Ok((cv, co)) => match d {
                Err(f) => Err(f),
                Ok((dv, d_o)) => match occ_union(ao, co) {
                    Err(sp) => Err(union_failure(sp)),
                    Ok(o1) => match occ_union(o1, d_o) {
                        Err(sp) => Err(union_failure(sp)),
                        Ok(o) => Ok((av, cv, dv, o)),
                    },
                },
            },
        },
    }
}

/// An annotated construct rebuilt by `f`.
pub open spec fn map1<A, B>(a: Result<(A, Seq<(Id, DimV)>), (ElabErrorKind, Span)>, f: spec_fn(A) -> B) -> Result<(B, Seq<(Id, DimV)>), (ElabErrorKind, Span)> {
    match a {
        Err(e) => Err(e),
        Ok((v, o)) => Ok((f(v), o)),
    }
}

/// Annotating `e` with the identifiers each iteration ranges over, given the
/// ambient dimensions `bounds`: the annotated expression and the occurrences
/// of identifiers in it, or the failure and its location.
pub open spec fn ann(bounds: Map<Seq<char>, DimV>, e: Exp) -> Result<(ExpV, Seq<(Id, DimV)>), (ElabErrorKind, Span)>
    decreases e,
{
    ann_kind(bounds, e.node, e.note, e.span)
}

pub open spec fn ann_kind(bounds: Map<Seq<char>, DimV>, k: ExpKind, note: TypKind, span: Span) -> Result<(ExpV, Seq<(Id, DimV)>), (ElabErrorKind, Span)>
    decreases k,
{
    match k {
        ExpKind::Bool(_) | ExpKind::Num(_) | ExpKind::Text(_) => Ok((mk(exp_kind_view(k), note), Seq::empty())),
        ExpKind::Var(id) => Ok((mk(ExpKindV::Var(id@), note), seq![(id, DimV { typ: typ_kind_view(note), iters: Seq::empty() })])),
        ExpKind::Un(op, ot, x) => map1(ann(bounds, *x), |v: ExpV| mk(ExpKindV::Un(op, ot, Box::new(v)), note)),
        ExpKind::UpCast(t, x) => map1(ann(bounds, *x), |v: ExpV| mk(ExpKindV::UpCast(typ_view(t), Box::new(v)), note)),
        ExpKind::DownCast(t, x) => map1(ann(bounds, *x), |v: ExpV| mk(ExpKindV::DownCast(typ_view(t), Box::new(v)), note)),
        ExpKind::Sub(x, t) => map1(ann(bounds, *x), |v: ExpV| mk(ExpKindV::Sub(Box::new(v), typ_view(t)), note)),
        ExpKind::Match(x, p) => map1(ann(bounds, *x), |v: ExpV| mk(ExpKindV::Match(Box::new(v), pattern_view(p)), note)),
        ExpKind::Len(x) => map1(ann(bounds, *x), |v: ExpV| mk(ExpKindV::Len(Box::new(v)), note)),
        ExpKind::Dot(x, a) => map1(ann(bounds, *x), |v: ExpV| mk(ExpKindV::Dot(Box::new(v), a@), note)),
        ExpKind::Bin(op, ot, l, r) => match join2(ann(bounds, *l), ann(bounds, *r)) {
            Err(f) => Err(f),
            Ok((lv, rv, o)) => Ok((mk(ExpKindV::Bin(op, ot, Box::new(lv), Box::new(rv)), note), o)),
        },
        ExpKind::Cmp(op, ot, l, r) => match join2(ann(bounds, *l), ann(bounds, *r)) {
            Err(f) => Err(f),
            Ok((lv, rv, o)) => Ok((mk(ExpKindV::Cmp(op, ot, Box::new(lv), Box::new(rv)), note), o)),
        },
        ExpKind::Cons(l, r) => match join2(ann(bounds, *l), ann(bounds, *r)) {
            Err(f) => Err(f),
            Ok((lv, rv, o)) => Ok((mk(ExpKindV::Cons(Box::new(lv), Box::new(rv)), note), o)),
        },
        ExpKind::Cat(l, r) => match join2(ann(bounds, *l), ann(bounds, *r)) {
            Err(f) => Err(f),
            Ok((lv, rv, o)) => Ok((mk(ExpKindV::Cat(Box::new(lv), Box::new(rv)), note), o)),
        },
        ExpKind::Mem(l, r) => match join2(ann(bounds, *l), ann(bounds, *r)) {
            Err(f) => Err(f),
            Ok((lv, rv, o)) => Ok((mk(ExpKindV::Mem(Box::new(lv), Box::new(rv)), note), o)),
        },
        ExpKind::Idx(l, r) => match join2(ann(bounds, *l), ann(bounds, *r)) {
            Err(f) => Err(f),
            Ok((lv, rv, o)) => Ok((mk(ExpKindV::Idx(Box::new(lv), Box::new(rv)), note), o)),
        },
        ExpKind::Tuple(es) => map1(ann_exps(bounds, es@), |vs: Seq<ExpV>| mk(ExpKindV::Tuple(vs), note)),
        ExpKind::List(es) => map1(ann_exps(bounds, es@), |vs: Seq<ExpV>| mk(ExpKindV::List(vs), note)),
        ExpKind::Case(n) => map1(ann_exps(bounds, n.args@), |vs: Seq<ExpV>| mk(ExpKindV::Case(mixop_view(n.mixop), vs), note)),
        ExpKind::Str(fs) => map1(ann_fields(bounds, fs@), |vs: Seq<ExpV>| mk(ExpKindV::Str(fields_atoms(fs@), vs), note)),
        ExpKind::Opt(o) => match o {
            None => Ok((mk(ExpKindV::Opt(None), note), Seq::empty())),
            Some(x) => map1(ann(bounds, *x), |v: ExpV| mk(ExpKindV::Opt(Some(Box::new(v))), note)),
        },
        ExpKind::Slice(b, l, h) => match join3(ann(bounds, *b), ann(bounds, *l), ann(bounds, *h)) {
            Err(f) => Err(f),
            Ok((bv, lv, hv, o)) => Ok((mk(ExpKindV::Slice(Box::new(bv), Box::new(lv), Box::new(hv)), note), o)),
        },
        ExpKind::Upd(b, p, f) => match join3(ann(bounds, *b), ann(bounds, *f), ann_path(bounds, p)) {
            Err(e) => Err(e),
            Ok((bv, fv, pv, o)) => Ok((mk(ExpKindV::Upd(Box::new(bv), pv, Box::new(fv)), note), o)),
        },
        ExpKind::Call(id, targs, args) => map1(ann_args(bounds, args@), |vs: Seq<ArgV>| mk(ExpKindV::Call(id@, typs_view(targs@), vs), note)),
        ExpKind::Iter(x, it) => if it.vars@.len() > 0 {
            Err((ElabErrorKind::InvalidIteration, span))
        } else {
            match ann(bounds, *x) {
                Err(f) => Err(f),
                Ok((v, o)) => {
                    let vs = iter_vars(bounds, o, it.iter);
                    if vs.len() == 0 {
                        Err((ElabErrorKind::InvalidIteration, span))
                    } else {
                        Ok((mk(ExpKindV::Iter(Box::new(v), it.iter, occ_vars(vs)), note), occ_iterate(o, vs, it.iter)))
                    }
                },
            }
        },
    }
}

/// Annotating a list of expressions left to right, with the union of their occurrences.
pub open spec fn ann_exps(bounds: Map<Seq<char>, DimV>, es: Seq<Exp>) -> Result<(Seq<ExpV>, Seq<(Id, DimV)>), (ElabErrorKind, Span)>
    decreases es,
{
    if es.len() == 0 {
        Ok((Seq::empty(), Seq::empty()))
    } else {
        match join2(ann_exps(bounds, es.drop_last()), ann(bounds, es.last())) {
            Err(f) => Err(f),
            Ok((vs, v, o)) => Ok((vs.push(v), o)),
        }
    }
}

/// Annotating the expressions of record fields left to right.
pub open spec fn ann_fields(bounds: Map<Seq<char>, DimV>, fs: Seq<ExpField>) -> Result<(Seq<ExpV>, Seq<(Id, DimV)>), (ElabErrorKind, Span)>
    decreases fs,
{
    if fs.len() == 0 {
        Ok((Seq::empty(), Seq::empty()))
    } else {
        match join2(ann_fields(bounds, fs.drop_last()), ann(bounds, fs.last().exp)) {
            Err(f) => Err(f),
            Ok((vs, v, o)) => Ok((vs.push(v), o)),
        }
    }
}

/// Annotating an update path.
pub open spec fn ann_path(bounds: Map<Seq<char>, DimV>, p: Path) -> Result<(PathV, Seq<(Id, DimV)>), (ElabErrorKind, Span)>
    decreases p,
{
    match p.node {
        PathKind::Root => Ok((PathV::Root, Seq::empty())),
        PathKind::Idx(q, x) => match join2(ann_path(bounds, *q), ann(bounds, *x)) {
            Err(f) => Err(f),
            Ok((qv, xv, o)) => Ok((PathV::Idx(Box::new(qv), Box::new(xv)), o)),
        },
        PathKind::Slice(q, l, h) => match join3(ann_path(bounds, *q), ann(bounds, *l), ann(bounds, *h)) {
            Err(f) => Err(f),
            Ok((qv, lv, hv, o)) => Ok((PathV::Slice(Box::new(qv), Box::new(lv), Box::new(hv)), o)),
        },
        PathKind::Dot(q, a) => map1(ann_path(bounds, *q), |qv: PathV| PathV::Dot(Box::new(qv), a@)),
    }
}

/// Annotating call arguments left to right; a function argument has no occurrence.
pub open spec fn ann_args(bounds: Map<Seq<char>, DimV>, args: Seq<Arg>) -> Result<(Seq<ArgV>, Seq<(Id, DimV)>), (ElabErrorKind, Span)>
    decreases args,
{
    if args.len() == 0 {
        Ok((Seq::empty(), Seq::empty()))
    } else {
        let last = match args.last().node {
            ArgKind::Exp(x) => map1(ann(bounds, *x), |v: ExpV| ArgV::Exp(Box::new(v))),
            ArgKind::Def(id) => Ok((ArgV::Def(id@), Seq::empty())),
        };
        match join2(ann_args(bounds, args.drop_last()), last) {
            Err(f) => Err(f),
            Ok((vs, v, o)) => Ok((vs.push(v), o)),
        }
    }
}

// == Annotation lemmas

/// Every name of `o` is in `s`.
pub open spec fn names_within(o: Seq<(Id, DimV)>, s: Set<Seq<char>>) -> bool {
    forall|i: int| 0 <= i < o.len() ==> s.contains((#[trigger] o[i]).0@)
}

proof fn lemma_names_mono(o: Seq<(Id, DimV)>, s1: Set<Seq<char>>, s2: Set<Seq<char>>)
    requires
        names_within(o, s1),
        s1.subset_of(s2),
    ensures
        names_within(o, s2),
{
    assert forall|i: int| 0 <= i < o.len() implies s2.contains((#[trigger] o[i]).0@) by {
        assert(s1.contains(o[i].0@));
    }
}

proof fn lemma_insert_names(acc: Seq<(Id, DimV)>, x: (Id, DimV), s: Set<Seq<char>>)
    requires
        names_within(acc, s),
        s.contains(x.0@),
    ensures
        names_within(occ_insert(acc, x), s),
        occ_put(acc, x) matches Ok(o) ==> names_within(o, s),
{
    let i = occ_index(acc, x.0@);
    lemma_occ_index_range(acc, x.0@);
    if i >= 0 {
        let u = acc.update(i, x);
        assert forall|j: int| 0 <= j < u.len() implies s.contains((#[trigger] u[j]).0@) by {
            if j != i {
                assert(u[j] == acc[j]);
            }
        }
    }
    let p = acc.push(x);
    assert forall|j: int| 0 <= j < p.len() implies s.contains((#[trigger] p[j]).0@) by {
        if j < acc.len() {
            assert(p[j] == acc[j]);
        }
    }
}

proof fn lemma_union_names(a: Seq<(Id, DimV)>, b: Seq<(Id, DimV)>, s: Set<Seq<char>>)
    requires
        names_within(a, s),
        names_within(b, s),
    ensures
        occ_union(a, b) matches Ok(o) ==> names_within(o, s),
    decreases b.len(),
{
    if b.len() > 0 {
        let p = b.drop_last();
        assert forall|i: int| 0 <= i < p.len() implies s.contains((#[trigger] p[i]).0@) by {
            assert(p[i] == b[i]);
        }
        lemma_union_names(a, p, s);
        assert(s.contains(b.last().0@));
        if let Ok(acc) = occ_union(a, p) {
            lemma_insert_names(acc, b.last(), s);
        }
    }
}

proof fn lemma_iterate_names(o: Seq<(Id, DimV)>, vs: Seq<(Id, DimV)>, iter: Iter, s: Set<Seq<char>>)
    requires
        names_within(o, s),
        names_within(vs, s),
    ensures
        names_within(occ_iterate(o, vs, iter), s),
    decreases vs.len(),
{
    if vs.len() > 0 {
        let p = vs.drop_last();
        assert forall|i: int| 0 <= i < p.len() implies s.contains((#[trigger] p[i]).0@) by {
            assert(p[i] == vs[i]);
        }
        lemma_iterate_names(o, p, iter, s);
        assert(s.contains(vs.last().0@));
        let x = vs.last();
        lemma_insert_names(occ_iterate(o, p, iter), (x.0, DimV { typ: x.1.typ, iters: x.1.iters.push(iter) }), s);
    }
}

proof fn lemma_iter_vars_names(bounds: Map<Seq<char>, DimV>, o: Seq<(Id, DimV)>, iter: Iter, s: Set<Seq<char>>)
    requires
        names_within(o, s),
    ensures
        names_within(iter_vars(bounds, o, iter), s),
    decreases o.len(),
{
    if o.len() > 0 {
        let p = o.drop_last();
        assert forall|i: int| 0 <= i < p.len() implies s.contains((#[trigger] p[i]).0@) by {
            assert(p[i] == o[i]);
        }
        lemma_iter_vars_names(bounds, p, iter, s);
        assert(s.contains(o.last().0@));
    }
}

proof fn lemma_exps_free_elem(es: Seq<Exp>, i: int)
    requires
        0 <= i < es.len(),
    ensures
        exp_free(es[i]).subset_of(exps_free(es)),
    decreases es.len(),
{
    if i < es.len() - 1 {
        lemma_exps_free_elem(es.drop_last(), i);
        assert(es.drop_last()[i] == es[i]);
    }
}

proof fn lemma_fields_free_elem(fs: Seq<ExpField>, i: int)
    requires
        0 <= i < fs.len(),
    ensures
        exp_free(fs[i].exp).subset_of(fields_free(fs)),
    decreases fs.len(),
{
    if i < fs.len() - 1 {
        lemma_fields_free_elem(fs.drop_last(), i);
        assert(fs.drop_last()[i] == fs[i]);
    }
}

proof fn lemma_args_free_elem(args: Seq<Arg>, i: int)
    requires
        0 <= i < args.len(),
    ensures
        args[i].node matches ArgKind::Exp(x) ==> exp_free(*x).subset_of(args_free(args)),
    decreases args.len(),
{
    if i < args.len() - 1 {
        lemma_args_free_elem(args.drop_last(), i);
        assert(args.drop_last()[i] == args[i]);
    }
}

/// A failure in annotating a prefix of a list is the failure of the list.
proof fn lemma_ann_exps_err(bounds: Map<Seq<char>, DimV>, es: Seq<Exp>, i: int)
    requires
        0 <= i < es.len(),
        ann_exps(bounds, es.take(i + 1)) is Err,
    ensures
        ann_exps(bounds, es) == ann_exps(bounds, es.take(i + 1)),
    decreases es.len() - i,
{
    if i + 1 < es.len() {
        assert(es.take(i + 2).drop_last() =~= es.take(i + 1));
        lemma_ann_exps_err(bounds, es, i + 1);
    } else {
        assert(es.take(i + 1) =~= es);
    }
}

proof fn lemma_ann_fields_err(bounds: Map<Seq<char>, DimV>, fs: Seq<ExpField>, i: int)
    requires
        0 <= i < fs.len(),
        ann_fields(bounds, fs.take(i + 1)) is Err,
    ensures
        ann_fields(bounds, fs) == ann_fields(bounds, fs.take(i + 1)),
    decreases fs.len() - i,
{
    if i + 1 < fs.len() {
        assert(fs.take(i + 2).drop_last() =~= fs.take(i + 1));
        lemma_ann_fields_err(bounds, fs, i + 1);
    } else {
        assert(fs.take(i + 1) =~= fs);
    }
}

proof fn lemma_ann_args_err(bounds: Map<Seq<char>, DimV>, args: Seq<Arg>, i: int)
    requires
        0 <= i < args.len(),
        ann_args(bounds, args.take(i + 1)) is Err,
    ensures
        ann_args(bounds, args) == ann_args(bounds, args.take(i + 1)),
    decreases args.len() - i,
{
    if i + 1 < args.len() {
        assert(args.take(i + 2).drop_last() =~= args.take(i + 1));
        lemma_ann_args_err(bounds, args, i + 1);
    } else {
        assert(args.take(i + 1) =~= args);
    }
}

// == Annotation of expressions

/// The executable outcome `r`, with the annotated construct's view `view`,
/// is the annotation `a`; the identifiers occurring are among `s`.
pub open spec fn ann_outcome<T>(
    r: Result<Occurrences, ElabError>,
    a: Result<(T, Seq<(Id, DimV)>), (ElabErrorKind, Span)>,
    view: T,
    s: Set<Seq<char>>,
) -> bool {
    match a {
        Ok((v, o)) => r matches Ok(occ) && occ.wf() && occ@ == o && view == v && names_within(o, s),
        Err((k, sp)) => r matches Err(e) && e.kind == k && e.span == sp,
    }
}

/// Annotates the iterations in `exp` with the identifiers they range over,
/// given the ambient dimensions `bounds` of all identifiers of `exp`, and
/// returns the occurrences of identifiers in `exp`.
pub fn annotate_exp(bounds: &VEnv, exp: &mut Exp) -> (r: Result<Occurrences, ElabError>)
    requires
        bounds.wf(),
        exp_free(*old(exp)).subset_of(bounds@.dom()),
    ensures
        ann_outcome(r, ann(bounds@, *old(exp)), exp_view(*final(exp)), exp_free(*old(exp))),
        final(exp).span == old(exp).span,
    decreases *old(exp), 1nat,
{
    match &exp.node {
        ExpKind::Bool(_) | ExpKind::Num(_) | ExpKind::Text(_) | ExpKind::Var(_) => annotate_atom_exp(bounds, exp),
        ExpKind::Un(..) | ExpKind::UpCast(..) | ExpKind::DownCast(..) | ExpKind::Sub(..) | ExpKind::Match(..)
        | ExpKind::Len(..) | ExpKind::Dot(..) | ExpKind::Opt(..) => annotate_inner_exp(bounds, exp),
        ExpKind::Bin(..) | ExpKind::Cmp(..) | ExpKind::Cons(..) | ExpKind::Cat(..) | ExpKind::Mem(..)
        | ExpKind::Idx(..) => annotate_pair_exp(bounds, exp),
        ExpKind::Tuple(..) | ExpKind::List(..) | ExpKind::Case(..) | ExpKind::Str(..)
        | ExpKind::Call(..) => annotate_seq_exp(bounds, exp),
        ExpKind::Slice(..) => annotate_slice_exp(bounds, exp),
        ExpKind::Upd(..) => annotate_upd_exp(bounds, exp),
        ExpKind::Iter(..) => annotate_iter_exp(bounds, exp),
    }
}

/// Annotates a literal or a variable: a variable occurs once, under no iteration.
fn annotate_atom_exp(bounds: &VEnv, exp: &mut Exp) -> (r: Result<Occurrences, ElabError>)
    requires
        bounds.wf(),
        exp_free(*old(exp)).subset_of(bounds@.dom()),
        old(exp).node is Bool || old(exp).node is Num || old(exp).node is Text || old(exp).node is Var,
    ensures
        ann_outcome(r, ann(bounds@, *old(exp)), exp_view(*final(exp)), exp_free(*old(exp))),
        final(exp).span == old(exp).span,
    decreases *old(exp), 0nat,
{
    let ghost fr = exp_free(*exp);
    let span = exp.span;
    let note = clone_typ_kind(&exp.note);
    match &exp.node {
        ExpKind::Var(id) => {
            let o = Occurrences::singleton(id, Typ { node: note, span });
            proof {
                assert(fr.contains(id@));
            }
            Ok(o)
        },
        _ => Ok(Occurrences::new()),
    }
}

/// Annotates a construct over one expression.
fn annotate_inner_exp(bounds: &VEnv, exp: &mut Exp) -> (r: Result<Occurrences, ElabError>)
    requires
        bounds.wf(),
        exp_free(*old(exp)).subset_of(bounds@.dom()),
        old(exp).node is Un || old(exp).node is UpCast || old(exp).node is DownCast || old(exp).node is Sub
            || old(exp).node is Match || old(exp).node is Len || old(exp).node is Dot || old(exp).node is Opt,
    ensures
        ann_outcome(r, ann(bounds@, *old(exp)), exp_view(*final(exp)), exp_free(*old(exp))),
        final(exp).span == old(exp).span,
    decreases *old(exp), 0nat,
{
    match &mut exp.node {
        ExpKind::Un(_, _, x) => annotate_exp(bounds, x),
        ExpKind::UpCast(_, x) => annotate_exp(bounds, x),
        ExpKind::DownCast(_, x) => annotate_exp(bounds, x),
        ExpKind::Sub(x, _) => annotate_exp(bounds, x),
        ExpKind::Match(x, _) => annotate_exp(bounds, x),
        ExpKind::Len(x) => annotate_exp(bounds, x),
        ExpKind::Dot(x, _) => annotate_exp(bounds, x),
        ExpKind::Opt(o) => match o {
            Some(x) => annotate_exp(bounds, x),
            None => Ok(Occurrences::new()),
        },
        _ => Ok(Occurrences::new()),
    }
}

/// Annotates the two operands of a binary construct, left then right.
fn annotate_pair_exp(bounds: &VEnv, exp: &mut Exp) -> (r: Result<Occurrences, ElabError>)
    requires
        bounds.wf(),
        exp_free(*old(exp)).subset_of(bounds@.dom()),
        old(exp).node is Bin || old(exp).node is Cmp || old(exp).node is Cons || old(exp).node is Cat
            || old(exp).node is Mem || old(exp).node is Idx,
    ensures
        ann_outcome(r, ann(bounds@, *old(exp)), exp_view(*final(exp)), exp_free(*old(exp))),
        final(exp).span == old(exp).span,
    decreases *old(exp), 0nat,
{
    let ghost fr = exp_free(*exp);
    match &mut exp.node {
        ExpKind::Bin(_, _, l, r) => {
            let occ_l = match annotate_exp(bounds, l) {
                Ok(o) => o,
                Err(e) => return Err(e),
            };
            let occ_r = match annotate_exp(bounds, r) {
                Ok(o) => o,
                Err(e) => return Err(e),
            };
            proof {
                lemma_union_names(occ_l@, occ_r@, fr);
            }
            occ_l.union(occ_r)
        },
        ExpKind::Cmp(_, _, l, r) => {
            let occ_l = match annotate_exp(bounds, l) {
                Ok(o) => o,
                Err(e) => return Err(e),
            };
            let occ_r = match annotate_exp(bounds, r) {
                Ok(o) => o,
                Err(e) => return Err(e),
            };
            proof {
                lemma_union_names(occ_l@, occ_r@, fr);
            }
            occ_l.union(occ_r)
        },
        ExpKind::Cons(l, r) => {
            let occ_l = match annotate_exp(bounds, l) {
                Ok(o) => o,
                Err(e) => return Err(e),
            };
            let occ_r = match annotate_exp(bounds, r) {
                Ok(o) => o,
                Err(e) => return Err(e),
            };
            proof {
                lemma_union_names(occ_l@, occ_r@, fr);
            }
            occ_l.union(occ_r)
        },
        ExpKind::Cat(l, r) => {
            let occ_l = match annotate_exp(bounds, l) {
                Ok(o) => o,
                Err(e) => return Err(e),
            };
            let occ_r = match annotate_exp(bounds, r) {
                Ok(o) => o,
                Err(e) => return Err(e),
            };
            proof {
                lemma_union_names(occ_l@, occ_r@, fr);
            }
            occ_l.union(occ_r)
        },
        ExpKind::Mem(l, r) => {
            let occ_l = match annotate_exp(bounds, l) {
                Ok(o) => o,
                Err(e) => return Err(e),
            };
            let occ_r = match annotate_exp(bounds, r) {
                Ok(o) => o,
                Err(e) => return Err(e),
            };
            proof {
                lemma_union_names(occ_l@, occ_r@, fr);
            }
            occ_l.union(occ_r)
        },
        ExpKind::Idx(l, r) => {
            let occ_l = match annotate_exp(bounds, l) {
                Ok(o) => o,
                Err(e) => return Err(e),
            };
            let occ_r = match annotate_exp(bounds, r) {
                Ok(o) => o,
                Err(e) => return Err(e),
            };
            proof {
                lemma_union_names(occ_l@, occ_r@, fr);
            }
            occ_l.union(occ_r)
        },
        _ => Ok(Occurrences::new()),
    }
}

/// Annotates the expressions of a tuple, list, case, record or call.
fn annotate_seq_exp(bounds: &VEnv, exp: &mut Exp) -> (r: Result<Occurrences, ElabError>)
    requires
        bounds.wf(),
        exp_free(*old(exp)).subset_of(bounds@.dom()),
        old(exp).node is Tuple || old(exp).node is List || old(exp).node is Case || old(exp).node is Str
            || old(exp).node is Call,
    ensures
        ann_outcome(r, ann(bounds@, *old(exp)), exp_view(*final(exp)), exp_free(*old(exp))),
        final(exp).span == old(exp).span,
    decreases *old(exp), 0nat,
{
    match &mut exp.node {
        ExpKind::Tuple(es) => annotate_exps(bounds, es),
        ExpKind::List(es) => annotate_exps(bounds, es),
        ExpKind::Case(n) => annotate_exps(bounds, &mut n.args),
        ExpKind::Str(fs) => annotate_fields(bounds, fs),
        ExpKind::Call(_, _, args) => annotate_args(bounds, args),
        _ => Ok(Occurrences::new()),
    }
}

/// Annotates a slice: its base, then its bounds.
fn annotate_slice_exp(bounds: &VEnv, exp: &mut Exp) -> (r: Result<Occurrences, ElabError>)
    requires
        bounds.wf(),
        exp_free(*old(exp)).subset_of(bounds@.dom()),
        old(exp).node is Slice,
    ensures
        ann_outcome(r, ann(bounds@, *old(exp)), exp_view(*final(exp)), exp_free(*old(exp))),
        final(exp).span == old(exp).span,
    decreases *old(exp), 0nat,
{
    let ghost fr = exp_free(*exp);
    match &mut exp.node {
        ExpKind::Slice(b, l, h) => {
            let occ_b = match annotate_exp(bounds, b) {
                Ok(o) => o,
                Err(e) => return Err(e),
            };
            let occ_l = match annotate_exp(bounds, l) {
                Ok(o) => o,
                Err(e) => return Err(e),
            };
            let occ_h = match annotate_exp(bounds, h) {
                Ok(o) => o,
                Err(e) => return Err(e),
            };
            let ghost oh = occ_h@;
            proof {
                lemma_union_names(occ_b@, occ_l@, fr);
            }
            let occ = match occ_b.union(occ_l) {
                Ok(o) => o,
                Err(e) => return Err(e),
            };
            proof {
                lemma_union_names(occ@, oh, fr);
            }
            occ.union(occ_h)
        },
        _ => Ok(Occurrences::new()),
    }
}

/// Annotates an update: its base, its new value, then its path.
fn annotate_upd_exp(bounds: &VEnv, exp: &mut Exp) -> (r: Result<Occurrences, ElabError>)
    requires
        bounds.wf(),
        exp_free(*old(exp)).subset_of(bounds@.dom()),
        old(exp).node is Upd,
    ensures
        ann_outcome(r, ann(bounds@, *old(exp)), exp_view(*final(exp)), exp_free(*old(exp))),
        final(exp).span == old(exp).span,
    decreases *old(exp), 0nat,
{
    let ghost fr = exp_free(*exp);
    match &mut exp.node {
        ExpKind::Upd(b, p, f) => {
            let occ_b = match annotate_exp(bounds, b) {
                Ok(o) => o,
                Err(e) => return Err(e),
            };
            let occ_f = match annotate_exp(bounds, f) {
                Ok(o) => o,
                Err(e) => return Err(e),
            };
            let occ_p = match annotate_path(bounds, p) {
                Ok(o) => o,
                Err(e) => return Err(e),
            };
            let ghost op = occ_p@;
            proof {
                lemma_union_names(occ_b@, occ_f@, fr);
            }
            let occ = match occ_b.union(occ_f) {
                Ok(o) => o,
                Err(e) => return Err(e),
            };
            proof {
                lemma_union_names(occ@, op, fr);
            }
            occ.union(occ_p)
        },
        _ => Ok(Occurrences::new()),
    }
}

/// Annotates an iteration with the identifiers it ranges over: those of its
/// body that, taken under it, stay within their ambient dimension. It must
/// not be annotated yet, and must range over some identifier.
fn annotate_iter_exp(bounds: &VEnv, exp: &mut Exp) -> (r: Result<Occurrences, ElabError>)
    requires
        bounds.wf(),
        exp_free(*old(exp)).subset_of(bounds@.dom()),
        old(exp).node is Iter,
    ensures
        ann_outcome(r, ann(bounds@, *old(exp)), exp_view(*final(exp)), exp_free(*old(exp))),
        final(exp).span == old(exp).span,
    decreases *old(exp), 0nat,
{
    let ghost fr = exp_free(*exp);
    let span = exp.span;
    match &mut exp.node {
        ExpKind::Iter(x, it) => {
            if it.vars.len() > 0 {
                return Err(ElabError::new(ElabErrorKind::InvalidIteration, span,
                    String::from_str("iterated expression should initially have no annotations")));
            }
            let occ = match annotate_exp(bounds, x) {
                Ok(o) => o,
                Err(e) => return Err(e),
            };
            let ghost o = occ@;
            let vars = collect_iter_vars(bounds, &occ, it.iter);
            if vars.len() == 0 {
                return Err(ElabError::new(ElabErrorKind::InvalidIteration, span, String::from_str("empty iteration")));
            }
            let occ = occ.iterate(&vars, it.iter);
            proof {
                lemma_iter_vars_names(bounds@, o, it.iter, fr);
                lemma_iterate_names(o, vars_occ(vars@), it.iter, fr);
                assert(vars_view(vars@) =~= occ_vars(vars_occ(vars@)));
            }
            it.vars = vars;
            Ok(occ)
        },
        _ => Ok(Occurrences::new()),
    }
}

/// Annotates a list of expressions left to right and returns the union of
/// their occurrences.
pub fn annotate_exps(bounds: &VEnv, exps: &mut Vec<Exp>) -> (r: Result<Occurrences, ElabError>)
    requires
        bounds.wf(),
        exps_free(old(exps)@).subset_of(bounds@.dom()),
    ensures
        ann_outcome(r, ann_exps(bounds@, old(exps)@), exps_view(final(exps)@), exps_free(old(exps)@)),
    decreases *old(exps), 1nat,
{
    let ghost es0 = exps@;
    let ghost fr = exps_free(es0);
    let mut occurs = Occurrences::new();
    let n = exps.len();
    for i in 0..n
        invariant
            bounds.wf(),
            fr.subset_of(bounds@.dom()),
            n == es0.len(),
            exps@.len() == n,
            es0 == old(exps)@,
            fr == exps_free(es0),
            forall|j: int| i <= j < n ==> exps@[j] == es0[j],
            occurs.wf(),
            names_within(occurs@, fr),
            ann_exps(bounds@, es0.take(i as int)) == Ok::<(Seq<ExpV>, Seq<(Id, DimV)>), (ElabErrorKind, Span)>(
                (exps_view(exps@.take(i as int)), occurs@)),
    {
        proof {
            assert(decreases_to!(*old(exps) => old(exps)@[i as int]));
            lemma_exps_free_elem(es0, i as int);
            assert(exp_free(es0[i as int]).subset_of(bounds@.dom())) by {
                assert forall|n: Seq<char>| exp_free(es0[i as int]).contains(n) implies bounds@.dom().contains(n) by {
                    assert(fr.contains(n));
                }
            }
            assert(es0.take(i + 1).drop_last() =~= es0.take(i as int));
            assert(es0.take(i + 1).last() == es0[i as int]);
        }
        let ghost before = exps@;
        let occ = match annotate_exp(bounds, &mut exps[i]) {
            Ok(o) => o,
            Err(e) => {
                proof {
                    lemma_ann_exps_err(bounds@, es0, i as int);
                }
                return Err(e);
            },
        };
        proof {
            assert(exps@ == before.update(i as int, exps@[i as int]));
            assert(exps@.take(i as int) =~= before.take(i as int));
            assert(exps@.take(i + 1).drop_last() =~= exps@.take(i as int));
            lemma_names_mono(occ@, exp_free(es0[i as int]), fr);
            lemma_union_names(occurs@, occ@, fr);
        }
        occurs = match occurs.union(occ) {
            Ok(o) => o,
            Err(e) => {
                proof {
                    lemma_ann_exps_err(bounds@, es0, i as int);
                }
                return Err(e);
            },
        };
    }
    proof {
        assert(es0.take(n as int) =~= es0);
        assert(exps@.take(n as int) =~= exps@);
    }
    Ok(occurs)
}

/// Annotates the expressions of record fields left to right.
pub fn annotate_fields(bounds: &VEnv, fields: &mut Vec<ExpField>) -> (r: Result<Occurrences, ElabError>)
    requires
        bounds.wf(),
        fields_free(old(fields)@).subset_of(bounds@.dom()),
    ensures
        ann_outcome(r, ann_fields(bounds@, old(fields)@), fields_view(final(fields)@), fields_free(old(fields)@)),
        fields_atoms(final(fields)@) == fields_atoms(old(fields)@),
    decreases *old(fields), 1nat,
{
    let ghost fs0 = fields@;
    let ghost fr = fields_free(fs0);
    let mut occurs = Occurrences::new();
    let n = fields.len();
    for i in 0..n
        invariant
            bounds.wf(),
            fr.subset_of(bounds@.dom()),
            n == fs0.len(),
            fields@.len() == n,
            fs0 == old(fields)@,
            fr == fields_free(fs0),
            forall|j: int| i <= j < n ==> fields@[j] == fs0[j],
            forall|j: int| 0 <= j < n ==> (#[trigger] fields@[j]).atom@ == fs0[j].atom@,
            occurs.wf(),
            names_within(occurs@, fr),
            ann_fields(bounds@, fs0.take(i as int)) == Ok::<(Seq<ExpV>, Seq<(Id, DimV)>), (ElabErrorKind, Span)>(
                (fields_view(fields@.take(i as int)), occurs@)),
    {
        proof {
            assert(decreases_to!(*old(fields) => old(fields)@[i as int]));
            assert(decreases_to!(old(fields)@[i as int] => old(fields)@[i as int].exp));
            lemma_fields_free_elem(fs0, i as int);
            assert(exp_free(fs0[i as int].exp).subset_of(bounds@.dom())) by {
                assert forall|n: Seq<char>| exp_free(fs0[i as int].exp).contains(n) implies bounds@.dom().contains(n) by {
                    assert(fr.contains(n));
                }
            }
            assert(fs0.take(i + 1).drop_last() =~= fs0.take(i as int));
            assert(fs0.take(i + 1).last() == fs0[i as int]);
        }
        let ghost before = fields@;
        let occ = match annotate_exp(bounds, &mut fields[i].exp) {
            Ok(o) => o,
            Err(e) => {
                proof {
                    lemma_ann_fields_err(bounds@, fs0, i as int);
                }
                return Err(e);
            },
        };
        proof {
            assert(fields@ == before.update(i as int, fields@[i as int]));
            assert(fields@.take(i as int) =~= before.take(i as int));
            assert(fields@.take(i + 1).drop_last() =~= fields@.take(i as int));
            lemma_names_mono(occ@, exp_free(fs0[i as int].exp), fr);
            lemma_union_names(occurs@, occ@, fr);
        }
        occurs = match occurs.union(occ) {
            Ok(o) => o,
            Err(e) => {
                proof {
                    lemma_ann_fields_err(bounds@, fs0, i as int);
                }
                return Err(e);
            },
        };
    }
    proof {
        assert(fs0.take(n as int) =~= fs0);
        assert(fields@.take(n as int) =~= fields@);
        assert(fields_atoms(fields@) =~= fields_atoms(fs0));
    }
    Ok(occurs)
}

/// Annotates the expressions of an update path.
pub fn annotate_path(bounds: &VEnv, path: &mut Path) -> (r: Result<Occurrences, ElabError>)
    requires
        bounds.wf(),
        path_free(*old(path)).subset_of(bounds@.dom()),
    ensures
        ann_outcome(r, ann_path(bounds@, *old(path)), path_view(*final(path)), path_free(*old(path))),
    decreases *old(path), 1nat,
{
    let ghost fr = path_free(*path);
    match &mut path.node {
        PathKind::Root => Ok(Occurrences::new()),
        PathKind::Idx(q, x) => {
            let occ_q = match annotate_path(bounds, q) {
                Ok(o) => o,
                Err(e) => return Err(e),
            };
            let occ_x = match annotate_exp(bounds, x) {
                Ok(o) => o,
                Err(e) => return Err(e),
            };
            proof {
                lemma_union_names(occ_q@, occ_x@, fr);
            }
            occ_q.union(occ_x)
        },
        PathKind::Slice(q, l, h) => {
            let occ_q = match annotate_path(bounds, q) {
                Ok(o) => o,
                Err(e) => return Err(e),
            };
            let occ_l = match annotate_exp(bounds, l) {
                Ok(o) => o,
                Err(e) => return Err(e),
            };
            let occ_h = match annotate_exp(bounds, h) {
                Ok(o) => o,
                Err(e) => return Err(e),
            };
            let ghost oh = occ_h@;
            proof {
                lemma_union_names(occ_q@, occ_l@, fr);
            }
            let occ = match occ_q.union(occ_l) {
                Ok(o) => o,
                Err(e) => return Err(e),
            };
            proof {
                lemma_union_names(occ@, oh, fr);
            }
            occ.union(occ_h)
        },
        PathKind::Dot(q, _) => annotate_path(bounds, q),
    }
}

/// Annotates a call argument; a function argument has no occurrence.
pub fn annotate_arg(bounds: &VEnv, arg: &mut Arg) -> (r: Result<Occurrences, ElabError>)
    requires
        bounds.wf(),
        args_free(seq![*old(arg)]).subset_of(bounds@.dom()),
    ensures
        ann_outcome(r, match old(arg).node {
            ArgKind::Exp(x) => map1(ann(bounds@, *x), |v: ExpV| ArgV::Exp(Box::new(v))),
            ArgKind::Def(id) => Ok((ArgV::Def(id@), Seq::empty())),
        }, arg_view(*final(arg)), args_free(seq![*old(arg)])),
    decreases *old(arg), 1nat,
{
    proof {
        assert(seq![*old(arg)].drop_last() =~= Seq::<Arg>::empty());
        reveal_with_fuel(args_free, 2);
    }
    match &mut arg.node {
        ArgKind::Exp(x) => annotate_exp(bounds, x),
        ArgKind::Def(_) => Ok(Occurrences::new()),
    }
}

/// Annotates call arguments left to right.
pub fn annotate_args(bounds: &VEnv, args: &mut Vec<Arg>) -> (r: Result<Occurrences, ElabError>)
    requires
        bounds.wf(),
        args_free(old(args)@).subset_of(bounds@.dom()),
    ensures
        ann_outcome(r, ann_args(bounds@, old(args)@), args_view(final(args)@), args_free(old(args)@)),
    decreases *old(args), 1nat,
{
    let ghost as0 = args@;
    let ghost fr = args_free(as0);
    let mut occurs = Occurrences::new();
    let n = args.len();
    for i in 0..n
        invariant
            bounds.wf(),
            fr.subset_of(bounds@.dom()),
            n == as0.len(),
            args@.len() == n,
            as0 == old(args)@,
            fr == args_free(as0),
            forall|j: int| i <= j < n ==> args@[j] == as0[j],
            occurs.wf(),
            names_within(occurs@, fr),
            ann_args(bounds@, as0.take(i as int)) == Ok::<(Seq<ArgV>, Seq<(Id, DimV)>), (ElabErrorKind, Span)>(
                (args_view(args@.take(i as int)), occurs@)),
    {
        proof {
            assert(decreases_to!(*old(args) => old(args)@[i as int]));
            lemma_args_free_elem(as0, i as int);
            assert(as0.take(i + 1).drop_last() =~= as0.take(i as int));
            assert(as0.take(i + 1).last() == as0[i as int]);
            assert(seq![as0[i as int]].drop_last() =~= Seq::<Arg>::empty());
            reveal_with_fuel(args_free, 2);
            assert(args_free(Seq::<Arg>::empty()) == Set::<Seq<char>>::empty());
            assert(args_free(seq![as0[i as int]]).subset_of(fr)) by {
                assert forall|n: Seq<char>| args_free(seq![as0[i as int]]).contains(n) implies fr.contains(n) by {
                    match as0[i as int].node {
                        ArgKind::Exp(x) => {
                            assert(exp_free(*x).contains(n));
                        },
                        ArgKind::Def(_) => {},
                    }
                }
            }
            assert(args_free(seq![as0[i as int]]).subset_of(bounds@.dom()));
        }
        let ghost before = args@;
        let occ = match annotate_arg(bounds, &mut args[i]) {
            Ok(o) => o,
            Err(e) => {
                proof {
                    lemma_ann_args_err(bounds@, as0, i as int);
                }
                return Err(e);
            },
        };
        proof {
            assert(args@ == before.update(i as int, args@[i as int]));
            assert(args@.take(i as int) =~= before.take(i as int));
            assert(args@.take(i + 1).drop_last() =~= args@.take(i as int));
            lemma_names_mono(occ@, args_free(seq![as0[i as int]]), fr);
            lemma_union_names(occurs@, occ@, fr);
        }
        occurs = match occurs.union(occ) {
            Ok(o) => o,
            Err(e) => {
                proof {
                    lemma_ann_args_err(bounds@, as0, i as int);
                }
                return Err(e);
            },
        };
    }
    proof {
        assert(as0.take(n as int) =~= as0);
        assert(args@.take(n as int) =~= args@);
    }
    Ok(occurs)
}

// == Occurring names

/// The names of a list of occurrences.
pub open spec fn seq_names(os: Seq<(Id, DimV)>) -> Set<Seq<char>> {
    Set::new(|n: Seq<char>| exists|i: int| 0 <= i < os.len() && os[i].0@ == n)
}

proof fn lemma_seq_names_concat(a: Seq<(Id, DimV)>, b: Seq<(Id, DimV)>)
    ensures
        seq_names(a + b) == seq_names(a).union(seq_names(b)),
{
    assert forall|n: Seq<char>| seq_names(a + b).contains(n) <==> seq_names(a).union(seq_names(b)).contains(n) by {
        if seq_names(a + b).contains(n) {
            let i = choose|i: int| 0 <= i < (a + b).len() && (a + b)[i].0@ == n;
            if i < a.len() {
                assert(a[i] == (a + b)[i]);
            } else {
                assert(b[i - a.len()] == (a + b)[i]);
            }
        }
        if seq_names(a).contains(n) {
            let i = choose|i: int| 0 <= i < a.len() && a[i].0@ == n;
            assert((a + b)[i] == a[i]);
        }
        if seq_names(b).contains(n) {
            let i = choose|i: int| 0 <= i < b.len() && b[i].0@ == n;
            assert((a + b)[a.len() + i] == b[i]);
        }
    }
    assert(seq_names(a + b) =~= seq_names(a).union(seq_names(b)));
}

/// Every identifier of an expression occurs in it.
proof fn lemma_occs_names(e: Exp, iters: Seq<Iter>)
    ensures
        seq_names(occs_exp(e, iters)) == exp_free(e),
    decreases e,
{
    match e.node {
        ExpKind::Bool(_) | ExpKind::Num(_) | ExpKind::Text(_) => {
            assert(seq_names(Seq::<(Id, DimV)>::empty()) =~= Set::<Seq<char>>::empty());
        },
        ExpKind::Var(id) => {
            let os = occs_exp(e, iters);
            assert(os[0].0@ == id@);
            assert(seq_names(os) =~= Set::<Seq<char>>::empty().insert(id@));
        },
        ExpKind::Un(_, _, x) => lemma_occs_names(*x, iters),
        ExpKind::UpCast(_, x) => lemma_occs_names(*x, iters),
        ExpKind::DownCast(_, x) => lemma_occs_names(*x, iters),
        ExpKind::Sub(x, _) => lemma_occs_names(*x, iters),
        ExpKind::Match(x, _) => lemma_occs_names(*x, iters),
        ExpKind::Len(x) => lemma_occs_names(*x, iters),
        ExpKind::Dot(x, _) => lemma_occs_names(*x, iters),
        ExpKind::Bin(_, _, l, r) | ExpKind::Cmp(_, _, l, r) | ExpKind::Cons(l, r) | ExpKind::Cat(l, r)
        | ExpKind::Mem(l, r) | ExpKind::Idx(l, r) => {
            lemma_occs_names(*l, iters);
            lemma_occs_names(*r, iters);
            lemma_seq_names_concat(occs_exp(*l, iters), occs_exp(*r, iters));
        },
        ExpKind::Tuple(es) | ExpKind::List(es) => lemma_occs_names_exps(es@, iters),
        ExpKind::Case(n) => lemma_occs_names_exps(n.args@, iters),
        ExpKind::Str(fs) => lemma_occs_names_fields(fs@, iters),
        ExpKind::Opt(o) => match o {
            Some(x) => lemma_occs_names(*x, iters),
            None => {
                assert(seq_names(Seq::<(Id, DimV)>::empty()) =~= Set::<Seq<char>>::empty());
            },
        },
        ExpKind::Slice(b, l, h) => {
            lemma_occs_names(*b, iters);
            lemma_occs_names(*l, iters);
            lemma_occs_names(*h, iters);
            lemma_seq_names_concat(occs_exp(*b, iters), occs_exp(*l, iters));
            lemma_seq_names_concat(occs_exp(*b, iters) + occs_exp(*l, iters), occs_exp(*h, iters));
        },
        ExpKind::Upd(b, p, f) => {
            lemma_occs_names(*b, iters);
            lemma_occs_names_path(p, iters);
            lemma_occs_names(*f, iters);
            lemma_seq_names_concat(occs_exp(*b, iters), occs_path(p, iters));
            lemma_seq_names_concat(occs_exp(*b, iters) + occs_path(p, iters), occs_exp(*f, iters));
        },
        ExpKind::Call(_, _, args) => lemma_occs_names_args(args@, iters),
        ExpKind::Iter(x, it) => lemma_occs_names(*x, seq![it.iter] + iters),
    }
}

proof fn lemma_occs_names_exps(es: Seq<Exp>, iters: Seq<Iter>)
    ensures
        seq_names(occs_exps(es, iters)) == exps_free(es),
    decreases es,
{
    if es.len() == 0 {
        assert(seq_names(Seq::<(Id, DimV)>::empty()) =~= Set::<Seq<char>>::empty());
    } else {
        lemma_occs_names_exps(es.drop_last(), iters);
        lemma_occs_names(es.last(), iters);
        lemma_seq_names_concat(occs_exps(es.drop_last(), iters), occs_exp(es.last(), iters));
    }
}

proof fn lemma_occs_names_fields(fs: Seq<ExpField>, iters: Seq<Iter>)
    ensures
        seq_names(occs_fields(fs, iters)) == fields_free(fs),
    decreases fs,
{
    if fs.len() == 0 {
        assert(seq_names(Seq::<(Id, DimV)>::empty()) =~= Set::<Seq<char>>::empty());
    } else {
        lemma_occs_names_fields(fs.drop_last(), iters);
        lemma_occs_names(fs.last().exp, iters);
        lemma_seq_names_concat(occs_fields(fs.drop_last(), iters), occs_exp(fs.last().exp, iters));
    }
}

proof fn lemma_occs_names_path(p: Path, iters: Seq<Iter>)
    ensures
        seq_names(occs_path(p, iters)) == path_free(p),
    decreases p,
{
    match p.node {
        PathKind::Root => {
            assert(seq_names(Seq::<(Id, DimV)>::empty()) =~= Set::<Seq<char>>::empty());
        },
        PathKind::Idx(q, x) => {
            lemma_occs_names_path(*q, iters);
            lemma_occs_names(*x, iters);
            lemma_seq_names_concat(occs_path(*q, iters), occs_exp(*x, iters));
        },
        PathKind::Slice(q, l, h) => {
            lemma_occs_names_path(*q, iters);
            lemma_occs_names(*l, iters);
            lemma_occs_names(*h, iters);
            lemma_seq_names_concat(occs_path(*q, iters), occs_exp(*l, iters));
            lemma_seq_names_concat(occs_path(*q, iters) + occs_exp(*l, iters), occs_exp(*h, iters));
        },
        PathKind::Dot(q, _) => lemma_occs_names_path(*q, iters),
    }
}

proof fn lemma_occs_names_args(args: Seq<Arg>, iters: Seq<Iter>)
    ensures
        seq_names(occs_args(args, iters)) == args_free(args),
    decreases args,
{
    if args.len() == 0 {
        assert(seq_names(Seq::<(Id, DimV)>::empty()) =~= Set::<Seq<char>>::empty());
    } else {
        lemma_occs_names_args(args.drop_last(), iters);
        match args.last().node {
            ArgKind::Exp(x) => {
                lemma_occs_names(*x, iters);
                lemma_seq_names_concat(occs_args(args.drop_last(), iters), occs_exp(*x, iters));
            },
            ArgKind::Def(_) => {
                assert(occs_args(args.drop_last(), iters) + Seq::<(Id, DimV)>::empty() =~= occs_args(args.drop_last(), iters));
            },
        }
    }
}

/// Recording occurrences adds exactly their names.
proof fn lemma_add_all_dom(m: Map<Seq<char>, Seq<(DimV, Span)>>, os: Seq<(Id, DimV)>)
    ensures
        dctx_add_all(m, os).dom() == m.dom().union(seq_names(os)),
    decreases os.len(),
{
    if os.len() == 0 {
        assert(seq_names(os) =~= Set::<Seq<char>>::empty());
        assert(m.dom().union(seq_names(os)) =~= m.dom());
    } else {
        lemma_add_all_dom(m, os.drop_last());
        lemma_seq_names_concat(os.drop_last(), seq![os.last()]);
        assert(os.drop_last() + seq![os.last()] =~= os);
        assert(seq_names(seq![os.last()]) =~= Set::<Seq<char>>::empty().insert(os.last().0@));
        assert(dctx_add_all(m, os).dom() =~= m.dom().union(seq_names(os)));
    }
}

// == Table rows

/// The occurrences recorded for a table row: its arguments, then its result.
pub open spec fn row_occurrences(row: TableRow) -> Map<Seq<char>, Seq<(DimV, Span)>> {
    dctx_add_all(dctx_add_all(Map::empty(), occs_args(row.args@, Seq::empty())), occs_exp(row.exp, Seq::empty()))
}

/// Records the occurrences of identifiers in a table row.
pub fn infer_table_row(row: &TableRow) -> (dim_ctx: DimContext)
    ensures
        dim_ctx.wf(),
        dim_ctx@ == row_occurrences(*row),
{
    let mut dim_ctx = DimContext::new();
    let iters: Vec<Iter> = Vec::new();
    infer_args(&mut dim_ctx, &row.args, &iters);
    infer_exp(&mut dim_ctx, &row.exp, &iters);
    dim_ctx
}

/// `after` is the table row `before` with its dimensions analyzed: every
/// identifier is consistent with its ambient dimension, and the arguments
/// and the result are annotated under those dimensions.
pub open spec fn row_done(before: TableRow, after: TableRow) -> bool {
    let m = row_occurrences(before);
    &&& all_consistent(m)
    &&& ann_args(ambient(m), before.args@) matches Ok((avs, _)) && avs == args_view(after.args@)
    &&& ann(ambient(m), before.exp) matches Ok((v, _)) && v == exp_view(after.exp)
    &&& after.span == before.span
}

/// The failure of analyzing the dimensions of a table row: an identifier
/// inconsistent with its ambient dimension, or the annotation of the
/// arguments, then of the result.
pub open spec fn row_dims_failure(row: TableRow, e: ElabError) -> bool {
    let m = row_occurrences(row);
    if !all_consistent(m) {
        mismatch_reported(m, e)
    } else {
        match ann_args(ambient(m), row.args@) {
            Err((k, sp)) => e.kind == k && e.span == sp,
            Ok(_) => ann(ambient(m), row.exp) matches Err((k, sp)) && e.kind == k && e.span == sp,
        }
    }
}

/// Analyzes the dimensions of a table row: infers each identifier's ambient
/// dimension from its occurrences, then annotates the iterations of the
/// arguments and of the result.
pub fn analyze_table_row(row: &mut TableRow) -> (r: Result<(), ElabError>)
    ensures
        match r {
            Ok(()) => row_done(*old(row), *final(row)),
            Err(e) => row_dims_failure(*old(row), e),
        },
{
    let ghost r0 = *row;
    let dim_ctx = infer_table_row(row);
    let ghost m = dim_ctx@;
    let bounds = match dim_ctx.into_bounds() {
        Ok(b) => b,
        Err(e) => return Err(e),
    };
    proof {
        lemma_add_all_dom(Map::empty(), occs_args(r0.args@, Seq::empty()));
        lemma_add_all_dom(dctx_add_all(Map::empty(), occs_args(r0.args@, Seq::empty())), occs_exp(r0.exp, Seq::empty()));
        lemma_occs_names_args(r0.args@, Seq::empty());
        lemma_occs_names(r0.exp, Seq::empty());
        assert(args_free(r0.args@).subset_of(bounds@.dom()));
        assert(exp_free(r0.exp).subset_of(bounds@.dom()));
        assert(bounds@ == ambient(m));
    }
    match annotate_args(&bounds, &mut row.args) {
        Ok(_) => {},
        Err(e) => return Err(e),
    }
    match annotate_exp(&bounds, &mut row.exp) {
        Ok(_) => {},
        Err(e) => return Err(e),
    }
    Ok(())
}

/// Analyzes the dimensions of the rows of a table, in order, stopping at the
/// first failure.
pub fn analyze_table_def(rows: &mut Vec<TableRow>) -> (r: Result<(), ElabError>)
    ensures
        final(rows)@.len() == old(rows)@.len(),
        r is Ok ==> forall|i: int| 0 <= i < old(rows)@.len() ==> #[trigger] row_done(old(rows)@[i], final(rows)@[i]),
        r matches Err(e) ==> exists|i: int| 0 <= i < old(rows)@.len()
            && (forall|j: int| 0 <= j < i ==> #[trigger] row_done(old(rows)@[j], final(rows)@[j]))
            && row_dims_failure(old(rows)@[i], e),
{
    let n = rows.len();
    for i in 0..n
        invariant
            rows@.len() == n,
            n == old(rows)@.len(),
            forall|j: int| i <= j < n ==> rows@[j] == old(rows)@[j],
            forall|j: int| 0 <= j < i ==> #[trigger] row_done(old(rows)@[j], rows@[j]),
    {
        let ghost before = rows@;
        match analyze_table_row(&mut rows[i]) {
            Ok(()) => {
                proof {
                    assert forall|j: int| 0 <= j < i + 1 implies #[trigger] row_done(old(rows)@[j], rows@[j]) by {
                        if j < i {
                            assert(rows@[j] == before[j]);
                        }
                    }
                }
            },
            Err(e) => {
                proof {
                    assert forall|j: int| 0 <= j < i implies #[trigger] row_done(old(rows)@[j], rows@[j]) by {
                        assert(rows@[j] == before[j]);
                    }
                }
                return Err(e);
            },
        }
    }
    Ok(())
}

// == Premises

/// The identifiers of a premise.
pub open spec fn prem_free(p: Prem) -> Set<Seq<char>>
    decreases p,
{
    match p.node {
        PremKind::Rule(r) => exps_free(r.not_exp.args@),
        PremKind::IfHold(r) => exps_free(r.not_exp.args@),
        PremKind::IfNotHold(r) => exps_free(r.not_exp.args@),
        PremKind::If(i) => exp_free(i.exp),
        PremKind::Debug(i) => exp_free(i.exp),
        PremKind::Iter(ip) => prem_free(*ip.prem),
    }
}

/// The identifiers of a list of premises.
pub open spec fn prems_free(ps: Seq<Prem>) -> Set<Seq<char>>
    decreases ps,
{
    if ps.len() == 0 {
        Set::empty()
    } else {
        prems_free(ps.drop_last()).union(prem_free(ps.last()))
    }
}

/// The occurrences of identifiers in a premise under `iters`, or the
/// location of an iterated premise that is already annotated.
pub open spec fn occs_prem(p: Prem, iters: Seq<Iter>) -> Result<Seq<(Id, DimV)>, Span>
    decreases p,
{
    match p.node {
        PremKind::Rule(r) => Ok(occs_exps(r.not_exp.args@, iters)),
        PremKind::IfHold(r) => Ok(occs_exps(r.not_exp.args@, iters)),
        PremKind::IfNotHold(r) => Ok(occs_exps(r.not_exp.args@, iters)),
        PremKind::If(i) => Ok(occs_exp(i.exp, iters)),
        PremKind::Debug(i) => Ok(occs_exp(i.exp, iters)),
        PremKind::Iter(ip) => if ip.prem_iter.vars_bound@.len() > 0 || ip.prem_iter.vars_bind@.len() > 0 {
            Err(p.span)
        } else {
            occs_prem(*ip.prem, seq![ip.prem_iter.iter] + iters)
        },
    }
}

/// The occurrences of identifiers in premises, each under no iteration.
pub open spec fn occs_prems(ps: Seq<Prem>) -> Result<Seq<(Id, DimV)>, Span>
    decreases ps,
{
    if ps.len() == 0 {
        Ok(Seq::empty())
    } else {
        match occs_prems(ps.drop_last()) {
            Err(sp) => Err(sp),
            Ok(a) => match occs_prem(ps.last(), Seq::empty()) {
                Err(sp) => Err(sp),
                Ok(b) => Ok(a + b),
            },
        }
    }
}

/// Records the occurrences of identifiers in the arguments of a notation expression.
pub fn infer_not_exp(dim_ctx: &mut DimContext, not_exp: &NotExp, iters: &Vec<Iter>)
    requires
        old(dim_ctx).wf(),
    ensures
        final(dim_ctx).wf(),
        final(dim_ctx)@ == dctx_add_all(old(dim_ctx)@, occs_exps(not_exp.args@, iters@)),
{
    infer_exps(dim_ctx, &not_exp.args, iters);
}

/// Records the occurrences of identifiers in a premise under `iters`; an
/// iterated premise must not be annotated yet.
pub fn infer_prem(dim_ctx: &mut DimContext, prem: &Prem, iters: &Vec<Iter>) -> (r: Result<(), ElabError>)
    requires
        old(dim_ctx).wf(),
    ensures
        final(dim_ctx).wf(),
        match occs_prem(*prem, iters@) {
            Ok(os) => r is Ok && final(dim_ctx)@ == dctx_add_all(old(dim_ctx)@, os),
            Err(sp) => r matches Err(e) && e.kind == ElabErrorKind::InvalidIteration && e.span == sp,
        },
    decreases prem,
{
    match &prem.node {
        PremKind::Rule(r) => {
            infer_not_exp(dim_ctx, &r.not_exp, iters);
            Ok(())
        },
        PremKind::IfHold(r) => {
            infer_not_exp(dim_ctx, &r.not_exp, iters);
            Ok(())
        },
        PremKind::IfNotHold(r) => {
            infer_not_exp(dim_ctx, &r.not_exp, iters);
            Ok(())
        },
        PremKind::If(i) => {
            infer_exp(dim_ctx, &i.exp, iters);
            Ok(())
        },
        PremKind::Debug(i) => {
            infer_exp(dim_ctx, &i.exp, iters);
            Ok(())
        },
        PremKind::Iter(ip) => {
            if ip.prem_iter.vars_bound.len() > 0 || ip.prem_iter.vars_bind.len() > 0 {
                return Err(ElabError::new(ElabErrorKind::InvalidIteration, prem.span,
                    String::from_str("iterated premise should initially have no annotations")));
            }
            let inner = enclosed(ip.prem_iter.iter, iters);
            infer_prem(dim_ctx, &ip.prem, &inner)
        },
    }
}

/// A failure in a prefix of premises is the failure of the list.
proof fn lemma_occs_prems_err(ps: Seq<Prem>, i: int)
    requires
        0 <= i < ps.len(),
        occs_prems(ps.take(i + 1)) is Err,
    ensures
        occs_prems(ps) == occs_prems(ps.take(i + 1)),
    decreases ps.len() - i,
{
    if i + 1 < ps.len() {
        assert(ps.take(i + 2).drop_last() =~= ps.take(i + 1));
        lemma_occs_prems_err(ps, i + 1);
    } else {
        assert(ps.take(i + 1) =~= ps);
    }
}

/// Records the occurrences of identifiers in premises, in order.
pub fn infer_prems(dim_ctx: &mut DimContext, prems: &Vec<Prem>) -> (r: Result<(), ElabError>)
    requires
        old(dim_ctx).wf(),
    ensures
        final(dim_ctx).wf(),
        match occs_prems(prems@) {
            Ok(os) => r is Ok && final(dim_ctx)@ == dctx_add_all(old(dim_ctx)@, os),
            Err(sp) => r matches Err(e) && e.kind == ElabErrorKind::InvalidIteration && e.span == sp,
        },
{
    let ghost m0 = dim_ctx@;
    let iters: Vec<Iter> = Vec::new();
    for i in 0..prems.len()
        invariant
            dim_ctx.wf(),
            iters@ == Seq::<Iter>::empty(),
            occs_prems(prems@.take(i as int)) matches Ok(os) && dim_ctx@ == dctx_add_all(m0, os),
    {
        let ghost a = occs_prems(prems@.take(i as int))->Ok_0;
        proof {
            assert(prems@.take(i + 1).drop_last() =~= prems@.take(i as int));
            assert(prems@.take(i + 1).last() == prems@[i as int]);
        }
        match infer_prem(dim_ctx, &prems[i], &iters) {
            Ok(()) => {
                proof {
                    lemma_add_all_concat(m0, a, occs_prem(prems@[i as int], Seq::empty())->Ok_0);
                }
            },
            Err(e) => {
                proof {
                    lemma_occs_prems_err(prems@, i as int);
                }
                return Err(e);
            },
        }
    }
    proof {
        assert(prems@.take(prems@.len() as int) =~= prems@);
    }
    Ok(())
}

/// The annotation of a premise: its annotated view and the occurrences of
/// identifiers in it; an iterated premise must not be annotated yet and must
/// range over some identifier.
pub open spec fn ann_prem(bounds: Map<Seq<char>, DimV>, p: Prem) -> Result<(PremV, Seq<(Id, DimV)>), (ElabErrorKind, Span)>
    decreases p,
{
    match p.node {
        PremKind::Rule(r) => map1(ann_exps(bounds, r.not_exp.args@), |vs: Seq<ExpV>| PremV::Rule(r.id@, mixop_view(r.not_exp.mixop), vs)),
        PremKind::IfHold(r) => map1(ann_exps(bounds, r.not_exp.args@), |vs: Seq<ExpV>| PremV::IfHold(r.id@, mixop_view(r.not_exp.mixop), vs)),
        PremKind::IfNotHold(r) => map1(ann_exps(bounds, r.not_exp.args@), |vs: Seq<ExpV>| PremV::IfNotHold(r.id@, mixop_view(r.not_exp.mixop), vs)),
        PremKind::If(i) => map1(ann(bounds, i.exp), |v: ExpV| PremV::If(v)),
        PremKind::Debug(i) => map1(ann(bounds, i.exp), |v: ExpV| PremV::Debug(v)),
        PremKind::Iter(ip) => if ip.prem_iter.vars_bound@.len() > 0 || ip.prem_iter.vars_bind@.len() > 0 {
            Err((ElabErrorKind::InvalidIteration, p.span))
        } else {
            match ann_prem(bounds, *ip.prem) {
                Err(f) => Err(f),
                Ok((v, o)) => {
                    let vs = iter_vars(bounds, o, ip.prem_iter.iter);
                    if vs.len() == 0 {
                        Err((ElabErrorKind::InvalidIteration, p.span))
                    } else {
                        Ok((PremV::Iter(Box::new(v), ip.prem_iter.iter, occ_vars(vs), Seq::empty()), occ_iterate(o, vs, ip.prem_iter.iter)))
                    }
                },
            }
        },
    }
}

/// Annotating premises in order, with the union of their occurrences.
pub open spec fn ann_prems(bounds: Map<Seq<char>, DimV>, ps: Seq<Prem>) -> Result<(Seq<PremV>, Seq<(Id, DimV)>), (ElabErrorKind, Span)>
    decreases ps,
{
    if ps.len() == 0 {
        Ok((Seq::empty(), Seq::empty()))
    } else {
        match join2(ann_prems(bounds, ps.drop_last()), ann_prem(bounds, ps.last())) {
            Err(f) => Err(f),
            Ok((vs, v, o)) => Ok((vs.push(v), o)),
        }
    }
}

/// Annotates the arguments of a notation expression.
pub fn annotate_not_exp(bounds: &VEnv, not_exp: &mut NotExp) -> (r: Result<Occurrences, ElabError>)
    requires
        bounds.wf(),
        exps_free(old(not_exp).args@).subset_of(bounds@.dom()),
    ensures
        ann_outcome(r, ann_exps(bounds@, old(not_exp).args@), exps_view(final(not_exp).args@), exps_free(old(not_exp).args@)),
        final(not_exp).mixop == old(not_exp).mixop,
{
    annotate_exps(bounds, &mut not_exp.args)
}

/// Annotates a premise with the identifiers its iterations range over.
pub fn annotate_prem(bounds: &VEnv, prem: &mut Prem) -> (r: Result<Occurrences, ElabError>)
    requires
        bounds.wf(),
        prem_free(*old(prem)).subset_of(bounds@.dom()),
    ensures
        ann_outcome(r, ann_prem(bounds@, *old(prem)), prem_view(*final(prem)), prem_free(*old(prem))),
        final(prem).span == old(prem).span,
    decreases *old(prem),
{
    let ghost fr = prem_free(*prem);
    let span = prem.span;
    match &mut prem.node {
        PremKind::Rule(r) => annotate_not_exp(bounds, &mut r.not_exp),
        PremKind::IfHold(r) => annotate_not_exp(bounds, &mut r.not_exp),
        PremKind::IfNotHold(r) => annotate_not_exp(bounds, &mut r.not_exp),
        PremKind::If(i) => annotate_exp(bounds, &mut i.exp),
        PremKind::Debug(i) => annotate_exp(bounds, &mut i.exp),
        PremKind::Iter(ip) => {
            if ip.prem_iter.vars_bound.len() > 0 || ip.prem_iter.vars_bind.len() > 0 {
                return Err(ElabError::new(ElabErrorKind::InvalidIteration, span,
                    String::from_str("iterated premise should initially have no annotations")));
            }
            let occ = match annotate_prem(bounds, &mut ip.prem) {
                Ok(o) => o,
                Err(e) => return Err(e),
            };
            let ghost o = occ@;
            let vars = collect_iter_vars(bounds, &occ, ip.prem_iter.iter);
            if vars.len() == 0 {
                return Err(ElabError::new(ElabErrorKind::InvalidIteration, span, String::from_str("empty iteration")));
            }
            let occ = occ.iterate(&vars, ip.prem_iter.iter);
            proof {
                lemma_iter_vars_names(bounds@, o, ip.prem_iter.iter, fr);
                lemma_iterate_names(o, vars_occ(vars@), ip.prem_iter.iter, fr);
                assert(vars_view(vars@) =~= occ_vars(vars_occ(vars@)));
                assert(vars_view(ip.prem_iter.vars_bind@) =~= Seq::<VarV>::empty());
            }
            ip.prem_iter.vars_bound = vars;
            Ok(occ)
        },
    }
}

proof fn lemma_prems_free_elem(ps: Seq<Prem>, i: int)
    requires
        0 <= i < ps.len(),
    ensures
        prem_free(ps[i]).subset_of(prems_free(ps)),
    decreases ps.len(),
{
    if i < ps.len() - 1 {
        lemma_prems_free_elem(ps.drop_last(), i);
        assert(ps.drop_last()[i] == ps[i]);
    }
}

proof fn lemma_ann_prems_err(bounds: Map<Seq<char>, DimV>, ps: Seq<Prem>, i: int)
    requires
        0 <= i < ps.len(),
        ann_prems(bounds, ps.take(i + 1)) is Err,
    ensures
        ann_prems(bounds, ps) == ann_prems(bounds, ps.take(i + 1)),
    decreases ps.len() - i,
{
    if i + 1 < ps.len() {
        assert(ps.take(i + 2).drop_last() =~= ps.take(i + 1));
        lemma_ann_prems_err(bounds, ps, i + 1);
    } else {
        assert(ps.take(i + 1) =~= ps);
    }
}

/// Annotates premises in order and returns the union of their occurrences.
pub fn annotate_prems(bounds: &VEnv, prems: &mut Vec<Prem>) -> (r: Result<Occurrences, ElabError>)
    requires
        bounds.wf(),
        prems_free(old(prems)@).subset_of(bounds@.dom()),
    ensures
        ann_outcome(r, ann_prems(bounds@, old(prems)@), prems_view(final(prems)@), prems_free(old(prems)@)),
{
    let ghost ps0 = prems@;
    let ghost fr = prems_free(ps0);
    let mut occurs = Occurrences::new();
    let n = prems.len();
    for i in 0..n
        invariant
            bounds.wf(),
            fr.subset_of(bounds@.dom()),
            n == ps0.len(),
            prems@.len() == n,
            ps0 == old(prems)@,
            fr == prems_free(ps0),
            forall|j: int| i <= j < n ==> prems@[j] == ps0[j],
            occurs.wf(),
            names_within(occurs@, fr),
            ann_prems(bounds@, ps0.take(i as int)) == Ok::<(Seq<PremV>, Seq<(Id, DimV)>), (ElabErrorKind, Span)>(
                (prems_view(prems@.take(i as int)), occurs@)),
    {
        proof {
            lemma_prems_free_elem(ps0, i as int);
            assert(prem_free(ps0[i as int]).subset_of(bounds@.dom())) by {
                assert forall|n: Seq<char>| prem_free(ps0[i as int]).contains(n) implies bounds@.dom().contains(n) by {
                    assert(fr.contains(n));
                }
            }
            assert(ps0.take(i + 1).drop_last() =~= ps0.take(i as int));
            assert(ps0.take(i + 1).last() == ps0[i as int]);
        }
        let ghost before = prems@;
        let occ = match annotate_prem(bounds, &mut prems[i]) {
            Ok(o) => o,
            Err(e) => {
                proof {
                    lemma_ann_prems_err(bounds@, ps0, i as int);
                }
                return Err(e);
            },
        };
        proof {
            assert(prems@ == before.update(i as int, prems@[i as int]));
            assert(prems@.take(i as int) =~= before.take(i as int));
            assert(prems@.take(i + 1).drop_last() =~= prems@.take(i as int));
            lemma_names_mono(occ@, prem_free(ps0[i as int]), fr);
            lemma_union_names(occurs@, occ@, fr);
        }
        occurs = match occurs.union(occ) {
            Ok(o) => o,
            Err(e) => {
                proof {
                    lemma_ann_prems_err(bounds@, ps0, i as int);
                }
                return Err(e);
            },
        };
    }
    proof {
        assert(ps0.take(n as int) =~= ps0);
        assert(prems@.take(n as int) =~= prems@);
    }
    Ok(occurs)
}

// == Rules and clauses

proof fn lemma_occs_names_prem(p: Prem, iters: Seq<Iter>)
    ensures
        occs_prem(p, iters) matches Ok(os) ==> seq_names(os) == prem_free(p),
    decreases p,
{
    match p.node {
        PremKind::Rule(r) => lemma_occs_names_exps(r.not_exp.args@, iters),
        PremKind::IfHold(r) => lemma_occs_names_exps(r.not_exp.args@, iters),
        PremKind::IfNotHold(r) => lemma_occs_names_exps(r.not_exp.args@, iters),
        PremKind::If(i) => lemma_occs_names(i.exp, iters),
        PremKind::Debug(i) => lemma_occs_names(i.exp, iters),
        PremKind::Iter(ip) => lemma_occs_names_prem(*ip.prem, seq![ip.prem_iter.iter] + iters),
    }
}

proof fn lemma_occs_names_prems(ps: Seq<Prem>)
    ensures
        occs_prems(ps) matches Ok(os) ==> seq_names(os) == prems_free(ps),
    decreases ps,
{
    if ps.len() == 0 {
        assert(seq_names(Seq::<(Id, DimV)>::empty()) =~= Set::<Seq<char>>::empty());
    } else {
        lemma_occs_names_prems(ps.drop_last());
        lemma_occs_names_prem(ps.last(), Seq::empty());
        if let Ok(a) = occs_prems(ps.drop_last()) {
            if let Ok(b) = occs_prem(ps.last(), Seq::empty()) {
                lemma_seq_names_concat(a, b);
            }
        }
    }
}

/// The occurrences recorded for a rule: its conclusion, then its premises;
/// or the location of an iterated premise already annotated.
pub open spec fn rule_occurrences(rule: Rule) -> Result<Map<Seq<char>, Seq<(DimV, Span)>>, Span> {
    match occs_prems(rule.prems@) {
        Err(sp) => Err(sp),
        Ok(os) => Ok(dctx_add_all(dctx_add_all(Map::empty(), occs_exps(rule.not_exp.args@, Seq::empty())), os)),
    }
}

/// Records the occurrences of identifiers in a rule.
pub fn infer_rule(rule: &Rule) -> (r: Result<DimContext, ElabError>)
    ensures
        match rule_occurrences(*rule) {
            Ok(m) => r matches Ok(c) && c.wf() && c@ == m,
            Err(sp) => r matches Err(e) && e.kind == ElabErrorKind::InvalidIteration && e.span == sp,
        },
{
    let mut dim_ctx = DimContext::new();
    let iters: Vec<Iter> = Vec::new();
    infer_not_exp(&mut dim_ctx, &rule.not_exp, &iters);
    match infer_prems(&mut dim_ctx, &rule.prems) {
        Ok(()) => Ok(dim_ctx),
        Err(e) => Err(e),
    }
}

/// The ambient dimensions of an occurrence map whose identifiers are consistent.
pub open spec fn ambient(m: Map<Seq<char>, Seq<(DimV, Span)>>) -> Map<Seq<char>, DimV> {
    m.map_values(|os: Seq<(DimV, Span)>| min_dim(os))
}

/// Every identifier of `m` is consistent with its ambient dimension.
pub open spec fn all_consistent(m: Map<Seq<char>, Seq<(DimV, Span)>>) -> bool {
    forall|n: Seq<char>| #[trigger] m.contains_key(n) ==> consistent(m[n])
}

/// `e` reports an occurrence of some identifier of `m` inconsistent with its
/// ambient dimension.
pub open spec fn mismatch_reported(m: Map<Seq<char>, Seq<(DimV, Span)>>, e: ElabError) -> bool {
    e.kind == ElabErrorKind::DimensionMismatch
        && exists|n: Seq<char>, k: int| m.contains_key(n) && #[trigger] conflict_at(m[n], k) && e.span == m[n][k].1
}

/// `after` is the rule `before` with its dimensions analyzed: the conclusion
/// and the premises annotated under the ambient dimensions.
pub open spec fn rule_done(before: Rule, after: Rule) -> bool {
    &&& rule_occurrences(before) matches Ok(m)
    &&& all_consistent(m)
    &&& ann_exps(ambient(m), before.not_exp.args@) matches Ok((vs, _)) && vs == exps_view(after.not_exp.args@)
    &&& ann_prems(ambient(m), before.prems@) matches Ok((ps, _)) && ps == prems_view(after.prems@)
    &&& after.id == before.id
    &&& after.not_exp.mixop == before.not_exp.mixop
    &&& after.span == before.span
}

/// The failure of analyzing the dimensions of a rule.
pub open spec fn rule_failure(rule: Rule, e: ElabError) -> bool {
    match rule_occurrences(rule) {
        Err(sp) => e.kind == ElabErrorKind::InvalidIteration && e.span == sp,
        Ok(m) => if !all_consistent(m) {
            mismatch_reported(m, e)
        } else {
            match ann_exps(ambient(m), rule.not_exp.args@) {
                Err((k, sp)) => e.kind == k && e.span == sp,
                Ok(_) => ann_prems(ambient(m), rule.prems@) matches Err((k, sp)) && e.kind == k && e.span == sp,
            }
        },
    }
}

/// Analyzes the dimensions of a rule: infers each identifier's ambient
/// dimension from its occurrences in the conclusion and the premises, then
/// annotates the iterations of both.
pub fn analyze_rule(rule: &mut Rule) -> (r: Result<(), ElabError>)
    ensures
        match r {
            Ok(()) => rule_done(*old(rule), *final(rule)),
            Err(e) => rule_failure(*old(rule), e),
        },
{
    let ghost r0 = *rule;
    let dim_ctx = match infer_rule(rule) {
        Ok(c) => c,
        Err(e) => return Err(e),
    };
    let ghost m = dim_ctx@;
    let bounds = match dim_ctx.into_bounds() {
        Ok(b) => b,
        Err(e) => return Err(e),
    };
    proof {
        let a = occs_exps(r0.not_exp.args@, Seq::empty());
        let os = occs_prems(r0.prems@)->Ok_0;
        lemma_add_all_dom(Map::empty(), a);
        lemma_add_all_dom(dctx_add_all(Map::empty(), a), os);
        lemma_occs_names_exps(r0.not_exp.args@, Seq::empty());
        lemma_occs_names_prems(r0.prems@);
        assert(exps_free(r0.not_exp.args@).subset_of(bounds@.dom()));
        assert(prems_free(r0.prems@).subset_of(bounds@.dom()));
        assert(bounds@ == ambient(m));
    }
    match annotate_not_exp(&bounds, &mut rule.not_exp) {
        Ok(_) => {},
        Err(e) => return Err(e),
    }
    match annotate_prems(&bounds, &mut rule.prems) {
        Ok(_) => {},
        Err(e) => return Err(e),
    }
    Ok(())
}

/// Analyzes the dimensions of the rules of a group, in order, stopping at the
/// first failure.
pub fn analyze_rule_group(rules: &mut Vec<Rule>) -> (r: Result<(), ElabError>)
    ensures
        final(rules)@.len() == old(rules)@.len(),
        r is Ok ==> forall|i: int| 0 <= i < old(rules)@.len() ==> #[trigger] rule_done(old(rules)@[i], final(rules)@[i]),
        r matches Err(e) ==> exists|i: int| 0 <= i < old(rules)@.len()
            && (forall|j: int| 0 <= j < i ==> #[trigger] rule_done(old(rules)@[j], final(rules)@[j]))
            && rule_failure(old(rules)@[i], e),
{
    let n = rules.len();
    for i in 0..n
        invariant
            rules@.len() == n,
            n == old(rules)@.len(),
            forall|j: int| i <= j < n ==> rules@[j] == old(rules)@[j],
            forall|j: int| 0 <= j < i ==> #[trigger] rule_done(old(rules)@[j], rules@[j]),
    {
        let ghost before = rules@;
        match analyze_rule(&mut rules[i]) {
            Ok(()) => {
                proof {
                    assert forall|j: int| 0 <= j < i + 1 implies #[trigger] rule_done(old(rules)@[j], rules@[j]) by {
                        if j < i {
                            assert(rules@[j] == before[j]);
                        }
                    }
                }
            },
            Err(e) => {
                proof {
                    assert forall|j: int| 0 <= j < i implies #[trigger] rule_done(old(rules)@[j], rules@[j]) by {
                        assert(rules@[j] == before[j]);
                    }
                }
                return Err(e);
            },
        }
    }
    Ok(())
}

/// The occurrences recorded for a clause: its arguments, its premises, then
/// its result; or the location of an iterated premise already annotated.
pub open spec fn clause_occurrences(clause: Clause) -> Result<Map<Seq<char>, Seq<(DimV, Span)>>, Span> {
    match occs_prems(clause.premises@) {
        Err(sp) => Err(sp),
        Ok(os) => Ok(dctx_add_all(
            dctx_add_all(dctx_add_all(Map::empty(), occs_args(clause.args@, Seq::empty())), os),
            occs_exp(clause.expression, Seq::empty()),
        )),
    }
}

/// Records the occurrences of identifiers in a clause.
pub fn infer_clause(clause: &Clause) -> (r: Result<DimContext, ElabError>)
    ensures
        match clause_occurrences(*clause) {
            Ok(m) => r matches Ok(c) && c.wf() && c@ == m,
            Err(sp) => r matches Err(e) && e.kind == ElabErrorKind::InvalidIteration && e.span == sp,
        },
{
    let mut dim_ctx = DimContext::new();
    let iters: Vec<Iter> = Vec::new();
    infer_args(&mut dim_ctx, &clause.args, &iters);
    match infer_prems(&mut dim_ctx, &clause.premises) {
        Ok(()) => {},
        Err(e) => return Err(e),
    }
    infer_exp(&mut dim_ctx, &clause.expression, &iters);
    Ok(dim_ctx)
}

/// `after` is the clause `before` with its dimensions analyzed.
pub open spec fn clause_done(before: Clause, after: Clause) -> bool {
    &&& clause_occurrences(before) matches Ok(m)
    &&& all_consistent(m)
    &&& ann_args(ambient(m), before.args@) matches Ok((avs, _)) && avs == args_view(after.args@)
    &&& ann_prems(ambient(m), before.premises@) matches Ok((ps, _)) && ps == prems_view(after.premises@)
    &&& ann(ambient(m), before.expression) matches Ok((v, _)) && v == exp_view(after.expression)
    &&& after.span == before.span
}

/// The failure of analyzing the dimensions of a clause.
pub open spec fn clause_failure(clause: Clause, e: ElabError) -> bool {
    match clause_occurrences(clause) {
        Err(sp) => e.kind == ElabErrorKind::InvalidIteration && e.span == sp,
        Ok(m) => if !all_consistent(m) {
            mismatch_reported(m, e)
        } else {
            match ann_args(ambient(m), clause.args@) {
                Err((k, sp)) => e.kind == k && e.span == sp,
                Ok(_) => match ann_prems(ambient(m), clause.premises@) {
                    Err((k, sp)) => e.kind == k && e.span == sp,
                    Ok(_) => ann(ambient(m), clause.expression) matches Err((k, sp)) && e.kind == k && e.span == sp,
                },
            }
        },
    }
}

/// Analyzes the dimensions of a function clause: infers each identifier's
/// ambient dimension from its occurrences in the arguments, the premises and
/// the result, then annotates the iterations of all three.
pub fn analyze_clause(clause: &mut Clause) -> (r: Result<(), ElabError>)
    ensures
        match r {
            Ok(()) => clause_done(*old(clause), *final(clause)),
            Err(e) => clause_failure(*old(clause), e),
        },
{
    let ghost c0 = *clause;
    let dim_ctx = match infer_clause(clause) {
        Ok(c) => c,
        Err(e) => return Err(e),
    };
    let ghost m = dim_ctx@;
    let bounds = match dim_ctx.into_bounds() {
        Ok(b) => b,
        Err(e) => return Err(e),
    };
    proof {
        let a = occs_args(c0.args@, Seq::empty());
        let os = occs_prems(c0.premises@)->Ok_0;
        let x = occs_exp(c0.expression, Seq::empty());
        lemma_add_all_dom(Map::empty(), a);
        lemma_add_all_dom(dctx_add_all(Map::empty(), a), os);
        lemma_add_all_dom(dctx_add_all(dctx_add_all(Map::empty(), a), os), x);
        lemma_occs_names_args(c0.args@, Seq::empty());
        lemma_occs_names_prems(c0.premises@);
        lemma_occs_names(c0.expression, Seq::empty());
        assert(args_free(c0.args@).subset_of(bounds@.dom()));
        assert(prems_free(c0.premises@).subset_of(bounds@.dom()));
        assert(exp_free(c0.expression).subset_of(bounds@.dom()));
        assert(bounds@ == ambient(m));
    }
    match annotate_args(&bounds, &mut clause.args) {
        Ok(_) => {},
        Err(e) => return Err(e),
    }
    match annotate_prems(&bounds, &mut clause.premises) {
        Ok(_) => {},
        Err(e) => return Err(e),
    }
    match annotate_exp(&bounds, &mut clause.expression) {
        Ok(_) => {},
        Err(e) => return Err(e),
    }
    Ok(())
}

// == Annotation changes nothing but annotations

/// An expression view with its iteration annotations removed.
pub open spec fn erase(e: ExpV) -> ExpV
    decreases e,
{
    ExpV { node: erase_kind(e.node), note: e.note }
}

pub open spec fn erase_kind(k: ExpKindV) -> ExpKindV
    decreases k,
{
    match k {
        ExpKindV::Bool(_) | ExpKindV::Num(_) | ExpKindV::Text(_) | ExpKindV::Var(_) => k,
        ExpKindV::Un(op, ot, x) => ExpKindV::Un(op, ot, Box::new(erase(*x))),
        ExpKindV::Bin(op, ot, l, r) => ExpKindV::Bin(op, ot, Box::new(erase(*l)), Box::new(erase(*r))),
        ExpKindV::Cmp(op, ot, l, r) => ExpKindV::Cmp(op, ot, Box::new(erase(*l)), Box::new(erase(*r))),
        ExpKindV::UpCast(t, x) => ExpKindV::UpCast(t, Box::new(erase(*x))),
        ExpKindV::DownCast(t, x) => ExpKindV::DownCast(t, Box::new(erase(*x))),
        ExpKindV::Sub(x, t) => ExpKindV::Sub(Box::new(erase(*x)), t),
        ExpKindV::Match(x, p) => ExpKindV::Match(Box::new(erase(*x)), p),
        ExpKindV::Tuple(es) => ExpKindV::Tuple(erase_all(es)),
        ExpKindV::Case(m, es) => ExpKindV::Case(m, erase_all(es)),
        ExpKindV::Str(a, es) => ExpKindV::Str(a, erase_all(es)),
        ExpKindV::Opt(o) => ExpKindV::Opt(match o {
            Some(x) => Some(Box::new(erase(*x))),
            None => None,
        }),
        ExpKindV::List(es) => ExpKindV::List(erase_all(es)),
        ExpKindV::Cons(l, r) => ExpKindV::Cons(Box::new(erase(*l)), Box::new(erase(*r))),
        ExpKindV::Cat(l, r) => ExpKindV::Cat(Box::new(erase(*l)), Box::new(erase(*r))),
        ExpKindV::Mem(l, r) => ExpKindV::Mem(Box::new(erase(*l)), Box::new(erase(*r))),
        ExpKindV::Len(x) => ExpKindV::Len(Box::new(erase(*x))),
        ExpKindV::Dot(x, a) => ExpKindV::Dot(Box::new(erase(*x)), a),
        ExpKindV::Idx(l, r) => ExpKindV::Idx(Box::new(erase(*l)), Box::new(erase(*r))),
        ExpKindV::Slice(b, l, h) => ExpKindV::Slice(Box::new(erase(*b)), Box::new(erase(*l)), Box::new(erase(*h))),
        ExpKindV::Upd(b, p, f) => ExpKindV::Upd(Box::new(erase(*b)), erase_path(p), Box::new(erase(*f))),
        ExpKindV::Call(id, ts, args) => ExpKindV::Call(id, ts, erase_args(args)),
        ExpKindV::Iter(x, it, _) => ExpKindV::Iter(Box::new(erase(*x)), it, Seq::empty()),
    }
}

pub open spec fn erase_all(es: Seq<ExpV>) -> Seq<ExpV>
    decreases es,
{
    if es.len() == 0 {
        Seq::empty()
    } else {
        erase_all(es.drop_last()).push(erase(es.last()))
    }
}

pub open spec fn erase_path(p: PathV) -> PathV
    decreases p,
{
    match p {
        PathV::Root => PathV::Root,
        PathV::Idx(q, x) => PathV::Idx(Box::new(erase_path(*q)), Box::new(erase(*x))),
        PathV::Slice(q, l, h) => PathV::Slice(Box::new(erase_path(*q)), Box::new(erase(*l)), Box::new(erase(*h))),
        PathV::Dot(q, a) => PathV::Dot(Box::new(erase_path(*q)), a),
    }
}

pub open spec fn erase_args(args: Seq<ArgV>) -> Seq<ArgV>
    decreases args,
{
    if args.len() == 0 {
        Seq::empty()
    } else {
        erase_args(args.drop_last()).push(match args.last() {
            ArgV::Exp(x) => ArgV::Exp(Box::new(erase(*x))),
            ArgV::Def(id) => ArgV::Def(id),
        })
    }
}

/// Annotating an expression changes nothing but its iteration annotations.
pub proof fn lemma_ann_erase(bounds: Map<Seq<char>, DimV>, e: Exp)
    ensures
        ann(bounds, e) matches Ok((v, _)) ==> erase(v) == erase(exp_view(e)),
    decreases e, 1nat,
{
    match e.node {
        ExpKind::Un(..) | ExpKind::UpCast(..) | ExpKind::DownCast(..) | ExpKind::Sub(..) | ExpKind::Match(..)
        | ExpKind::Len(..) | ExpKind::Dot(..) | ExpKind::Opt(..) | ExpKind::Iter(..) => lemma_ann_erase_inner(bounds, e),
        ExpKind::Bin(..) | ExpKind::Cmp(..) | ExpKind::Cons(..) | ExpKind::Cat(..) | ExpKind::Mem(..)
        | ExpKind::Idx(..) => lemma_ann_erase_pair(bounds, e),
        ExpKind::Tuple(..) | ExpKind::List(..) | ExpKind::Case(..) | ExpKind::Str(..) | ExpKind::Call(..)
        | ExpKind::Slice(..) | ExpKind::Upd(..) => lemma_ann_erase_many(bounds, e),
        _ => {},
    }
}

proof fn lemma_ann_erase_inner(bounds: Map<Seq<char>, DimV>, e: Exp)
    requires
        e.node is Un || e.node is UpCast || e.node is DownCast || e.node is Sub || e.node is Match || e.node is Len
            || e.node is Dot || e.node is Opt || e.node is Iter,
    ensures
        ann(bounds, e) matches Ok((v, _)) ==> erase(v) == erase(exp_view(e)),
    decreases e, 0nat,
{
    match e.node {
        ExpKind::Un(_, _, x) => lemma_ann_erase(bounds, *x),
        ExpKind::UpCast(_, x) => lemma_ann_erase(bounds, *x),
        ExpKind::DownCast(_, x) => lemma_ann_erase(bounds, *x),
        ExpKind::Sub(x, _) => lemma_ann_erase(bounds, *x),
        ExpKind::Match(x, _) => lemma_ann_erase(bounds, *x),
        ExpKind::Len(x) => lemma_ann_erase(bounds, *x),
        ExpKind::Dot(x, _) => lemma_ann_erase(bounds, *x),
        ExpKind::Opt(o) => match o {
            Some(x) => lemma_ann_erase(bounds, *x),
            None => {},
        },
        ExpKind::Iter(x, _) => lemma_ann_erase(bounds, *x),
        _ => {},
    }
}

proof fn lemma_ann_erase_pair(bounds: Map<Seq<char>, DimV>, e: Exp)
    requires
        e.node is Bin || e.node is Cmp || e.node is Cons || e.node is Cat || e.node is Mem || e.node is Idx,
    ensures
        ann(bounds, e) matches Ok((v, _)) ==> erase(v) == erase(exp_view(e)),
    decreases e, 0nat,
{
    match e.node {
        ExpKind::Bin(_, _, l, r) | ExpKind::Cmp(_, _, l, r) | ExpKind::Cons(l, r) | ExpKind::Cat(l, r)
        | ExpKind::Mem(l, r) | ExpKind::Idx(l, r) => {
            lemma_ann_erase(bounds, *l);
            lemma_ann_erase(bounds, *r);
        },
        _ => {},
    }
}

proof fn lemma_ann_erase_many(bounds: Map<Seq<char>, DimV>, e: Exp)
    requires
        e.node is Tuple || e.node is List || e.node is Case || e.node is Str || e.node is Call || e.node is Slice
            || e.node is Upd,
    ensures
        ann(bounds, e) matches Ok((v, _)) ==> erase(v) == erase(exp_view(e)),
    decreases e, 0nat,
{
    match e.node {
        ExpKind::Tuple(es) | ExpKind::List(es) => lemma_ann_erase_exps(bounds, es@),
        ExpKind::Case(n) => lemma_ann_erase_exps(bounds, n.args@),
        ExpKind::Str(fs) => lemma_ann_erase_fields(bounds, fs@),
        ExpKind::Slice(b, l, h) => {
            lemma_ann_erase(bounds, *b);
            lemma_ann_erase(bounds, *l);
            lemma_ann_erase(bounds, *h);
        },
        ExpKind::Upd(b, p, f) => {
            lemma_ann_erase(bounds, *b);
            lemma_ann_erase_path(bounds, p);
            lemma_ann_erase(bounds, *f);
        },
        ExpKind::Call(_, _, args) => lemma_ann_erase_args(bounds, args@),
        _ => {},
    }
}

proof fn lemma_ann_erase_exps(bounds: Map<Seq<char>, DimV>, es: Seq<Exp>)
    ensures
        ann_exps(bounds, es) matches Ok((vs, _)) ==> erase_all(vs) == erase_all(exps_view(es)),
    decreases es, 1nat,
{
    if es.len() > 0 {
        lemma_ann_erase_exps(bounds, es.drop_last());
        lemma_ann_erase(bounds, es.last());
        if let Ok((vs, _)) = ann_exps(bounds, es) {
            let (vs0, v, _) = join2(ann_exps(bounds, es.drop_last()), ann(bounds, es.last()))->Ok_0;
            assert(vs == vs0.push(v));
            assert(vs.drop_last() =~= vs0);
            assert(exps_view(es).drop_last() =~= exps_view(es.drop_last()));
        }
    }
}

proof fn lemma_ann_erase_fields(bounds: Map<Seq<char>, DimV>, fs: Seq<ExpField>)
    ensures
        ann_fields(bounds, fs) matches Ok((vs, _)) ==> erase_all(vs) == erase_all(fields_view(fs)),
    decreases fs, 1nat,
{
    if fs.len() > 0 {
        lemma_ann_erase_fields(bounds, fs.drop_last());
        lemma_ann_erase(bounds, fs.last().exp);
        if let Ok((vs, _)) = ann_fields(bounds, fs) {
            let (vs0, v, _) = join2(ann_fields(bounds, fs.drop_last()), ann(bounds, fs.last().exp))->Ok_0;
            assert(vs == vs0.push(v));
            assert(vs.drop_last() =~= vs0);
            assert(fields_view(fs).drop_last() =~= fields_view(fs.drop_last()));
        }
    }
}

proof fn lemma_ann_erase_path(bounds: Map<Seq<char>, DimV>, p: Path)
    ensures
        ann_path(bounds, p) matches Ok((v, _)) ==> erase_path(v) == erase_path(path_view(p)),
    decreases p, 1nat,
{
    match p.node {
        PathKind::Root => {},
        PathKind::Idx(q, x) => {
            lemma_ann_erase_path(bounds, *q);
            lemma_ann_erase(bounds, *x);
        },
        PathKind::Slice(q, l, h) => {
            lemma_ann_erase_path(bounds, *q);
            lemma_ann_erase(bounds, *l);
            lemma_ann_erase(bounds, *h);
        },
        PathKind::Dot(q, _) => lemma_ann_erase_path(bounds, *q),
    }
}

proof fn lemma_ann_erase_args(bounds: Map<Seq<char>, DimV>, args: Seq<Arg>)
    ensures
        ann_args(bounds, args) matches Ok((vs, _)) ==> erase_args(vs) == erase_args(args_view(args)),
    decreases args, 1nat,
{
    if args.len() > 0 {
        lemma_ann_erase_args(bounds, args.drop_last());
        match args.last().node {
            ArgKind::Exp(x) => lemma_ann_erase(bounds, *x),
            ArgKind::Def(_) => {},
        }
        if let Ok((vs, _)) = ann_args(bounds, args) {
            let last = match args.last().node {
                ArgKind::Exp(x) => map1(ann(bounds, *x), |v: ExpV| ArgV::Exp(Box::new(v))),
                ArgKind::Def(id) => Ok((ArgV::Def(id@), Seq::empty())),
            };
            let (vs0, v, _) = join2(ann_args(bounds, args.drop_last()), last)->Ok_0;
            assert(vs == vs0.push(v));
            assert(vs.drop_last() =~= vs0);
            assert(vs.last() == v);
            assert(args_view(args).drop_last() =~= args_view(args.drop_last()));
            assert(args_view(args).last() == arg_view(args.last()));
            match args.last().node {
                ArgKind::Exp(x) => {
                    let xv = ann(bounds, *x)->Ok_0.0;
                    assert(v == ArgV::Exp(Box::new(xv)));
                    assert(erase(xv) == erase(exp_view(*x)));
                },
                ArgKind::Def(id) => {
                    assert(v == ArgV::Def(id@));
                },
            }
        }
    }
}

} // verus!
