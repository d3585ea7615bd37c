//! Binding collection through invertible expression positions.
//!
//! Free identifiers become binders only while traversing invertible constructs;
//! a binder found below a non-invertible operation is rejected at that
//! operation's source location. In `let (x, y + 1) = e`, `x` is collected and
//! `y` is rejected at `y + 1`.

use vstd::prelude::*;
use crate::span::Span;
use crate::il::{Arg, ArgKind, Exp, ExpKind, ExpField, Iter, Path, PathKind, typ_kind_view};
use crate::il_typ::{clone_id, clone_typ_kind};
use crate::il::Id;
use crate::algo::bind::{BEnv, Binding, BindingV, benv_union, benv_conflict, binding_add_iter, benv_seq, entries_union, seq_add_iter,
    entries_distinct, lemma_entries_union_distinct, lemma_entries_union_empty_left};
use crate::algo::context::Context;
use crate::algo::dim::{DimV};
use crate::algo::error::{AlgoError, AlgoErrorKind, Construct};

verus! {

/// A binding environment, or the failure to form one.
pub type Coll = Option<Map<Seq<char>, BindingV>>;

/// Two environments that bind no name at different dimensions.
pub open spec fn compatible(l: Map<Seq<char>, BindingV>, r: Map<Seq<char>, BindingV>) -> bool {
    forall|k: Seq<char>| !#[trigger] benv_conflict(l, r, k)
}

/// Parallel combination of two collections.
pub open spec fn coll_union(a: Coll, b: Coll) -> Coll {
    match (a, b) {
        (Some(l), Some(r)) => if compatible(l, r) { Some(benv_union(l, r)) } else { None },
        _ => None,
    }
}

/// A collection below a non-invertible construct: it must bind nothing.
pub open spec fn coll_reject(a: Coll) -> Coll {
    match a {
        Some(m) => if m == Map::<Seq<char>, BindingV>::empty() { a } else { None },
        None => None,
    }
}

/// The binders of an expression under the bound variables `venv`.
pub open spec fn coll(venv: Map<Seq<char>, DimV>, e: Exp) -> Coll
    decreases e,
{
    let empty = Some(Map::<Seq<char>, BindingV>::empty());
    match e.node {
        ExpKind::Bool(_) | ExpKind::Num(_) | ExpKind::Text(_) => empty,
        ExpKind::Var(id) => if venv.contains_key(id@) {
            empty
        } else {
            Some(Map::<Seq<char>, BindingV>::empty().insert(
                id@,
                BindingV::Single(DimV { typ: typ_kind_view(e.note), iters: Seq::empty() }),
            ))
        },
        ExpKind::Un(_, _, x) => coll_reject(coll(venv, *x)),
        ExpKind::Bin(_, _, l, r) => coll_reject(coll_union(coll(venv, *l), coll(venv, *r))),
        ExpKind::Cmp(_, _, l, r) => coll_reject(coll_union(coll(venv, *l), coll(venv, *r))),
        ExpKind::UpCast(_, x) => coll(venv, *x),
        ExpKind::DownCast(_, x) => coll_reject(coll(venv, *x)),
        ExpKind::Sub(x, _) => coll_reject(coll(venv, *x)),
        ExpKind::Match(x, _) => coll_reject(coll(venv, *x)),
        ExpKind::Tuple(es) => coll_exps(venv, es@),
        ExpKind::List(es) => coll_exps(venv, es@),
        ExpKind::Case(n) => coll_exps(venv, n.args@),
        ExpKind::Str(fs) => coll_fields(venv, fs@),
        ExpKind::Opt(o) => match o {
            Some(x) => coll(venv, *x),
            None => empty,
        },
        ExpKind::Cons(l, r) => coll_union(coll(venv, *l), coll(venv, *r)),
        ExpKind::Cat(l, r) => coll_reject(coll_union(coll(venv, *l), coll(venv, *r))),
        ExpKind::Mem(l, r) => coll_reject(coll_union(coll(venv, *l), coll(venv, *r))),
        ExpKind::Len(x) => coll_reject(coll(venv, *x)),
        ExpKind::Dot(x, _) => coll_reject(coll(venv, *x)),
        ExpKind::Idx(l, r) => coll_reject(coll_union(coll(venv, *l), coll(venv, *r))),
        ExpKind::Slice(b, l, h) => coll_reject(coll_union(coll_union(coll(venv, *b), coll(venv, *l)), coll(venv, *h))),
        ExpKind::Upd(b, p, f) => coll_reject(coll_union(coll_union(coll(venv, *b), coll(venv, *f)), coll_path(venv, p))),
        ExpKind::Call(_, _, args) => coll_reject(coll_args(venv, args@)),
        ExpKind::Iter(x, it) => match coll(venv, *x) {
            Some(m) => Some(m.map_values(|b: BindingV| binding_add_iter(b, it.iter))),
            None => None,
        },
    }
}

/// The binders of a list of expressions, combining parallel occurrences.
pub open spec fn coll_exps(venv: Map<Seq<char>, DimV>, es: Seq<Exp>) -> Coll
    decreases es,
{
    if es.len() == 0 {
        Some(Map::<Seq<char>, BindingV>::empty())
    } else {
        coll_union(coll(venv, es[0]), coll_exps(venv, es.drop_first()))
    }
}

/// The binders of record fields, combining parallel occurrences.
pub open spec fn coll_fields(venv: Map<Seq<char>, DimV>, fs: Seq<ExpField>) -> Coll
    decreases fs,
{
    if fs.len() == 0 {
        Some(Map::<Seq<char>, BindingV>::empty())
    } else {
        coll_union(coll(venv, fs[0].exp), coll_fields(venv, fs.drop_first()))
    }
}

/// The binders of the index and slice expressions along a path.
pub open spec fn coll_path(venv: Map<Seq<char>, DimV>, p: Path) -> Coll
    decreases p,
{
    match p.node {
        PathKind::Root => Some(Map::<Seq<char>, BindingV>::empty()),
        PathKind::Idx(q, x) => coll_union(coll_path(venv, *q), coll(venv, *x)),
        PathKind::Slice(q, l, h) => coll_union(coll_union(coll_path(venv, *q), coll(venv, *l)), coll(venv, *h)),
        PathKind::Dot(q, _) => coll_path(venv, *q),
    }
}

/// The binders of an argument; function arguments have none.
pub open spec fn coll_arg(venv: Map<Seq<char>, DimV>, a: Arg) -> Coll
    decreases a,
{
    match a.node {
        ArgKind::Exp(x) => coll(venv, *x),
        ArgKind::Def(_) => Some(Map::<Seq<char>, BindingV>::empty()),
    }
}

/// The binders of a list of arguments, combining parallel occurrences.
pub open spec fn coll_args(venv: Map<Seq<char>, DimV>, args: Seq<Arg>) -> Coll
    decreases args,
{
    if args.len() == 0 {
        Some(Map::<Seq<char>, BindingV>::empty())
    } else {
        coll_union(coll_arg(venv, args[0]), coll_args(venv, args.drop_first()))
    }
}

/// The entries an expression binds, in order, with the locations of their
/// first occurrences; or the first failure.
pub type Collection = Result<Seq<(Id, BindingV)>, AlgoError>;

/// Parallel combination of two collections: the first failure, else the
/// combined entries (see `entries_union`).
pub open spec fn res_union(a: Collection, b: Collection) -> Collection {
    match a {
        Err(e) => Err(e),
        Ok(l) => match b {
            Err(e) => Err(e),
            Ok(r) => entries_union(l, r),
        },
    }
}

/// The first failure among `a`, `b` and `c`, taken in that order, else `k`.
pub open spec fn first_err3(a: Collection, b: Collection, c: Collection, k: Collection) -> Collection {
    if a is Err {
        a
    } else if b is Err {
        b
    } else if c is Err {
        c
    } else {
        k
    }
}

/// A collection below the non-invertible `construct` at `span`: a binder
/// there is rejected at `span`.
pub open spec fn res_reject(a: Collection, construct: Construct, span: Span) -> Collection {
    match a {
        Err(e) => Err(e),
        Ok(s) => if s.len() == 0 {
            Ok(s)
        } else {
            Err(AlgoError::new_spec(AlgoErrorKind::NonInvertibleBinding(construct), span))
        },
    }
}

/// What collecting the binders of an expression under the bound variables
/// `venv` gives, failures included.
pub open spec fn collection(venv: Map<Seq<char>, DimV>, e: Exp) -> Collection
    decreases e,
{
    let empty = Ok(Seq::<(Id, BindingV)>::empty());
    match e.node {
        ExpKind::Bool(_) | ExpKind::Num(_) | ExpKind::Text(_) => empty,
        ExpKind::Var(id) => if venv.contains_key(id@) {
            empty
        } else {
            Ok(seq![(id, BindingV::Single(DimV { typ: typ_kind_view(e.note), iters: Seq::empty() }))])
        },
        ExpKind::Un(_, _, x) => res_reject(collection(venv, *x), Construct::UnaryOperator, e.span),
        ExpKind::Bin(_, _, l, r) => res_reject(res_union(collection(venv, *l), collection(venv, *r)), Construct::BinaryOperator, e.span),
        ExpKind::Cmp(_, _, l, r) => res_reject(res_union(collection(venv, *l), collection(venv, *r)), Construct::ComparisonOperator, e.span),
        ExpKind::UpCast(_, x) => collection(venv, *x),
        ExpKind::DownCast(_, x) => res_reject(collection(venv, *x), Construct::DowncastOperator, e.span),
        ExpKind::Sub(x, _) => res_reject(collection(venv, *x), Construct::SubtypeCheckOperator, e.span),
        ExpKind::Match(x, _) => res_reject(collection(venv, *x), Construct::MatchCheckOperator, e.span),
        ExpKind::Tuple(es) => collection_exps(venv, es@),
        ExpKind::List(es) => collection_exps(venv, es@),
        ExpKind::Case(n) => collection_exps(venv, n.args@),
        ExpKind::Str(fs) => collection_fields(venv, fs@),
        ExpKind::Opt(o) => match o {
            Some(x) => collection(venv, *x),
            None => empty,
        },
        ExpKind::Cons(l, r) => res_union(collection(venv, *l), collection(venv, *r)),
        ExpKind::Cat(l, r) => res_reject(res_union(collection(venv, *l), collection(venv, *r)), Construct::ConcatenationOperator, e.span),
        ExpKind::Mem(l, r) => res_reject(res_union(collection(venv, *l), collection(venv, *r)), Construct::SetMembershipOperator, e.span),
        ExpKind::Len(x) => res_reject(collection(venv, *x), Construct::LengthOperator, e.span),
        ExpKind::Dot(x, _) => res_reject(collection(venv, *x), Construct::DotOperator, e.span),
        ExpKind::Idx(l, r) => res_reject(res_union(collection(venv, *l), collection(venv, *r)), Construct::IndexingOperator, e.span),
        ExpKind::Slice(b, l, h) => res_reject(
            res_union(res_union(collection(venv, *b), collection(venv, *l)), collection(venv, *h)), Construct::SlicingOperator, e.span),
        ExpKind::Upd(b, p, f) => res_reject(
            first_err3(collection(venv, *b), collection_path(venv, p), collection(venv, *f),
                res_union(res_union(collection(venv, *b), collection(venv, *f)), collection_path(venv, p))),
            Construct::UpdateOperator, e.span),
        ExpKind::Call(_, _, args) => res_reject(collection_args(venv, args@), Construct::CallOperator, e.span),
        ExpKind::Iter(x, it) => match collection(venv, *x) {
            Ok(s) => Ok(seq_add_iter(s, it.iter)),
            Err(err) => Err(err),
        },
    }
}

/// The collection of a list of expressions: the first failing expression's
/// failure, else their entries combined from the right.
pub open spec fn collection_exps(venv: Map<Seq<char>, DimV>, es: Seq<Exp>) -> Collection
    decreases es,
{
    if es.len() == 0 {
        Ok(Seq::<(Id, BindingV)>::empty())
    } else {
        res_union(collection(venv, es[0]), collection_exps(venv, es.drop_first()))
    }
}

/// The collection of record fields, as for a list of expressions.
pub open spec fn collection_fields(venv: Map<Seq<char>, DimV>, fs: Seq<ExpField>) -> Collection
    decreases fs,
{
    if fs.len() == 0 {
        Ok(Seq::<(Id, BindingV)>::empty())
    } else {
        res_union(collection(venv, fs[0].exp), collection_fields(venv, fs.drop_first()))
    }
}

/// The collection of the index and slice expressions along a path, the
/// path's own before each index.
pub open spec fn collection_path(venv: Map<Seq<char>, DimV>, p: Path) -> Collection
    decreases p,
{
    match p.node {
        PathKind::Root => Ok(Seq::<(Id, BindingV)>::empty()),
        PathKind::Idx(q, x) => res_union(collection_path(venv, *q), collection(venv, *x)),
        PathKind::Slice(q, l, h) => res_union(res_union(collection_path(venv, *q), collection(venv, *l)), collection(venv, *h)),
        PathKind::Dot(q, _) => collection_path(venv, *q),
    }
}

/// The collection of an argument; function arguments bind nothing.
pub open spec fn collection_arg(venv: Map<Seq<char>, DimV>, a: Arg) -> Collection
    decreases a,
{
    match a.node {
        ArgKind::Exp(x) => collection(venv, *x),
        ArgKind::Def(_) => Ok(Seq::<(Id, BindingV)>::empty()),
    }
}

/// The collection of a list of arguments, as for a list of expressions.
pub open spec fn collection_args(venv: Map<Seq<char>, DimV>, args: Seq<Arg>) -> Collection
    decreases args,
{
    if args.len() == 0 {
        Ok(Seq::<(Id, BindingV)>::empty())
    } else {
        res_union(collection_arg(venv, args[0]), collection_args(venv, args.drop_first()))
    }
}

/// The result of a collection is the collection specified, entries and
/// failure alike.
pub open spec fn collected_as(r: Result<BEnv, AlgoError>, c: Collection) -> bool {
    match r {
        Ok(b) => c == Ok::<Seq<(Id, BindingV)>, AlgoError>(benv_seq(b.entries@)),
        Err(e) => c == Err::<Seq<(Id, BindingV)>, AlgoError>(e),
    }
}

// == Laws of collection

/// A parallel combination that succeeds keeps distinct names.
proof fn lemma_res_union_distinct(a: Collection, b: Collection)
    requires
        a matches Ok(l) ==> entries_distinct(l),
    ensures
        res_union(a, b) matches Ok(s) ==> entries_distinct(s),
{
    if let Ok(l) = a {
        if let Ok(r) = b {
            lemma_entries_union_distinct(l, r);
        }
    }
}

/// Every collection names each binder once.
pub proof fn lemma_collection_distinct(venv: Map<Seq<char>, DimV>, e: Exp)
    ensures
        collection(venv, e) matches Ok(s) ==> entries_distinct(s),
    decreases e,
{
    match e.node {
        ExpKind::Un(_, _, x) | ExpKind::DownCast(_, x) | ExpKind::Sub(x, _) | ExpKind::Match(x, _)
        | ExpKind::Len(x) | ExpKind::Dot(x, _) => {},
        ExpKind::Bin(_, _, l, r) | ExpKind::Cmp(_, _, l, r) | ExpKind::Cat(l, r) | ExpKind::Mem(l, r) | ExpKind::Idx(l, r) => {},
        ExpKind::Cons(l, r) => {
            lemma_collection_distinct(venv, *l);
            lemma_res_union_distinct(collection(venv, *l), collection(venv, *r));
        },
        ExpKind::UpCast(_, x) => lemma_collection_distinct(venv, *x),
        ExpKind::Tuple(es) => lemma_collection_exps_distinct(venv, es@),
        ExpKind::List(es) => lemma_collection_exps_distinct(venv, es@),
        ExpKind::Case(n) => lemma_collection_exps_distinct(venv, n.args@),
        ExpKind::Str(fs) => lemma_collection_fields_distinct(venv, fs@),
        ExpKind::Opt(o) => match o {
            Some(x) => lemma_collection_distinct(venv, *x),
            None => {},
        },
        ExpKind::Iter(x, it) => {
            lemma_collection_distinct(venv, *x);
            if let Ok(s0) = collection(venv, *x) {
                let s1 = seq_add_iter(s0, it.iter);
                assert forall|a: int, b: int| 0 <= a < b < s1.len() implies (#[trigger] s1[a]).0@ != (#[trigger] s1[b]).0@ by {
                    assert(s1[a].0 == s0[a].0 && s1[b].0 == s0[b].0);
                }
            }
        },
        _ => {},
    }
}

/// The collection of a list names each binder once.
pub proof fn lemma_collection_exps_distinct(venv: Map<Seq<char>, DimV>, es: Seq<Exp>)
    ensures
        collection_exps(venv, es) matches Ok(s) ==> entries_distinct(s),
    decreases es,
{
    if es.len() > 0 {
        lemma_collection_distinct(venv, es[0]);
        lemma_res_union_distinct(collection(venv, es[0]), collection_exps(venv, es.drop_first()));
    }
}

/// The collection of record fields names each binder once.
pub proof fn lemma_collection_fields_distinct(venv: Map<Seq<char>, DimV>, fs: Seq<ExpField>)
    ensures
        collection_fields(venv, fs) matches Ok(s) ==> entries_distinct(s),
    decreases fs,
{
    if fs.len() > 0 {
        lemma_collection_distinct(venv, fs[0].exp);
        lemma_res_union_distinct(collection(venv, fs[0].exp), collection_fields(venv, fs.drop_first()));
    }
}

/// Collecting no expressions binds nothing, and collecting one expression
/// is collecting it alone.
pub proof fn lemma_collection_exps_small(venv: Map<Seq<char>, DimV>, e: Exp)
    ensures
        collection_exps(venv, Seq::empty()) == Ok::<Seq<(Id, BindingV)>, AlgoError>(Seq::empty()),
        collection_exps(venv, seq![e]) == collection(venv, e),
{
    assert(seq![e].drop_first() =~= Seq::<Exp>::empty());
    assert(seq![e][0] == e);
}

/// Collecting a list fails as its first failing expression does; once
/// every expression is collected, their entries are combined from the
/// right, `b_0 ∪ (b_1 ∪ (… ∪ ∅))`.
pub proof fn lemma_collection_exps_order(venv: Map<Seq<char>, DimV>, es: Seq<Exp>, i: int)
    requires
        0 <= i < es.len(),
        forall|k: int| 0 <= k < i ==> collection(venv, #[trigger] es[k]) is Ok,
        collection(venv, es[i]) is Err,
    ensures
        collection_exps(venv, es) == collection(venv, es[i]),
{
    lemma_exps_res_err_at(venv, es, i);
}

/// A path with no index and no slice binds nothing: field accesses
/// contribute no binders.
pub open spec fn plain_path(p: Path) -> bool
    decreases p,
{
    match p.node {
        PathKind::Root => true,
        PathKind::Dot(q, _) => plain_path(*q),
        _ => false,
    }
}

/// Field accesses along a path contribute no binders.
pub proof fn lemma_collection_path_plain(venv: Map<Seq<char>, DimV>, p: Path)
    requires
        plain_path(p),
    ensures
        collection_path(venv, p) == Ok::<Seq<(Id, BindingV)>, AlgoError>(Seq::empty()),
    decreases p,
{
    if let PathKind::Dot(q, _) = p.node {
        lemma_collection_path_plain(venv, *q);
    }
}

/// The expressions of the expression arguments, in order.
pub open spec fn exp_args(args: Seq<Arg>) -> Seq<Exp>
    decreases args.len(),
{
    if args.len() == 0 {
        Seq::empty()
    } else {
        let rest = exp_args(args.drop_first());
        match args[0].node {
            ArgKind::Exp(x) => seq![*x] + rest,
            ArgKind::Def(_) => rest,
        }
    }
}

/// Collecting arguments is collecting their expressions: function
/// arguments bind nothing.
pub proof fn lemma_collection_args_exps(venv: Map<Seq<char>, DimV>, args: Seq<Arg>)
    ensures
        collection_args(venv, args) == collection_exps(venv, exp_args(args)),
    decreases args.len(),
{
    if args.len() > 0 {
        let rest = args.drop_first();
        lemma_collection_args_exps(venv, rest);
        match args[0].node {
            ArgKind::Exp(x) => {
                let es = seq![*x] + exp_args(rest);
                assert(exp_args(args) == es);
                assert(es.drop_first() =~= exp_args(rest));
                assert(es[0] == *x);
                assert(collection_arg(venv, args[0]) == collection(venv, *x));
                assert(collection_exps(venv, es) == res_union(collection(venv, *x), collection_exps(venv, exp_args(rest))));
            },
            ArgKind::Def(_) => {
                assert(exp_args(args) == exp_args(rest));
                assert(collection_arg(venv, args[0]) == Ok::<Seq<(Id, BindingV)>, AlgoError>(Seq::empty()));
                lemma_collection_exps_distinct(venv, exp_args(rest));
                if let Ok(r) = collection_exps(venv, exp_args(rest)) {
                    lemma_entries_union_empty_left(r);
                }
            },
        }
    }
}

/// The failures binder collection can report.
pub open spec fn collect_error(e: AlgoError) -> bool {
    e.kind is InconsistentDimensions || e.kind is NonInvertibleBinding
}

/// The result of a collection agrees with its specification.
pub open spec fn collected(r: Result<BEnv, AlgoError>, c: Coll) -> bool {
    match r {
        Ok(b) => b.wf() && c == Some(b@),
        Err(e) => c is None && collect_error(e),
    }
}

/// Rejects binders found under a non-invertible construct.
fn reject_noninvertible(span: Span, construct: Construct, benv: BEnv) -> (r: Result<BEnv, AlgoError>)
    requires
        benv.wf(),
    ensures
        collected(r, coll_reject(Some(benv@))),
        collected_as(r, res_reject(Ok(benv_seq(benv.entries@)), construct, span)),
        r matches Err(e) ==> e.span == span && e.kind == AlgoErrorKind::NonInvertibleBinding(construct),
{
    if benv.is_empty() {
        Ok(benv)
    } else {
        Err(AlgoError::new(AlgoErrorKind::NonInvertibleBinding(construct), span))
    }
}

/// Rejects a collected environment found under a non-invertible construct.
fn reject_result(r: Result<BEnv, AlgoError>, span: Span, construct: Construct, c: Ghost<Coll>, d: Ghost<Collection>) -> (res: Result<BEnv, AlgoError>)
    requires
        collected(r, c@),
        collected_as(r, d@),
    ensures
        collected(res, coll_reject(c@)),
        collected_as(res, res_reject(d@, construct, span)),
{
    match r {
        Ok(b) => reject_noninvertible(span, construct, b),
        Err(e) => Err(e),
    }
}

/// Parallel combination of two collection results.
fn union_results(a: Result<BEnv, AlgoError>, b: Result<BEnv, AlgoError>, ghost_a: Ghost<Coll>, ghost_b: Ghost<Coll>,
    res_a: Ghost<Collection>, res_b: Ghost<Collection>) -> (r: Result<BEnv, AlgoError>)
    requires
        collected(a, ghost_a@),
        collected(b, ghost_b@),
        collected_as(a, res_a@),
        collected_as(b, res_b@),
    ensures
        collected(r, coll_union(ghost_a@, ghost_b@)),
        collected_as(r, res_union(res_a@, res_b@)),
{
    let l = match a {
        Ok(l) => l,
        Err(e) => return Err(e),
    };
    let r = match b {
        Ok(r) => r,
        Err(e) => return Err(e),
    };
    l.union(r)
}


pub proof fn lemma_exps_none_at(venv: Map<Seq<char>, DimV>, es: Seq<Exp>, i: int)
    requires
        0 <= i < es.len(),
        coll(venv, es[i]) is None,
    ensures
        coll_exps(venv, es) is None,
    decreases i,
{
    if i > 0 {
        lemma_exps_none_at(venv, es.drop_first(), i - 1);
    }
}

pub proof fn lemma_exps_skip(venv: Map<Seq<char>, DimV>, es: Seq<Exp>, m: int)
    requires
        0 < m <= es.len(),
    ensures
        coll_exps(venv, es.skip(m - 1)) == coll_union(coll(venv, es[m - 1]), coll_exps(venv, es.skip(m))),
{
    assert(es.skip(m - 1).drop_first() =~= es.skip(m));
    assert(es.skip(m - 1)[0] == es[m - 1]);
}

pub proof fn lemma_exps_none_skip(venv: Map<Seq<char>, DimV>, es: Seq<Exp>, m: int)
    requires
        0 <= m <= es.len(),
        coll_exps(venv, es.skip(m)) is None,
    ensures
        coll_exps(venv, es) is None,
    decreases m,
{
    if m == 0 {
        assert(es.skip(0) =~= es);
    } else {
        lemma_exps_skip(venv, es, m);
        lemma_exps_none_skip(venv, es, m - 1);
    }
}

pub proof fn lemma_fields_none_at(venv: Map<Seq<char>, DimV>, es: Seq<ExpField>, i: int)
    requires
        0 <= i < es.len(),
        coll(venv, es[i].exp) is None,
    ensures
        coll_fields(venv, es) is None,
    decreases i,
{
    if i > 0 {
        lemma_fields_none_at(venv, es.drop_first(), i - 1);
    }
}

pub proof fn lemma_fields_skip(venv: Map<Seq<char>, DimV>, es: Seq<ExpField>, m: int)
    requires
        0 < m <= es.len(),
    ensures
        coll_fields(venv, es.skip(m - 1)) == coll_union(coll(venv, es[m - 1].exp), coll_fields(venv, es.skip(m))),
{
    assert(es.skip(m - 1).drop_first() =~= es.skip(m));
    assert(es.skip(m - 1)[0] == es[m - 1]);
}

pub proof fn lemma_fields_none_skip(venv: Map<Seq<char>, DimV>, es: Seq<ExpField>, m: int)
    requires
        0 <= m <= es.len(),
        coll_fields(venv, es.skip(m)) is None,
    ensures
        coll_fields(venv, es) is None,
    decreases m,
{
    if m == 0 {
        assert(es.skip(0) =~= es);
    } else {
        lemma_fields_skip(venv, es, m);
        lemma_fields_none_skip(venv, es, m - 1);
    }
}

pub proof fn lemma_args_none_at(venv: Map<Seq<char>, DimV>, es: Seq<Arg>, i: int)
    requires
        0 <= i < es.len(),
        coll_arg(venv, es[i]) is None,
    ensures
        coll_args(venv, es) is None,
    decreases i,
{
    if i > 0 {
        lemma_args_none_at(venv, es.drop_first(), i - 1);
    }
}

pub proof fn lemma_args_skip(venv: Map<Seq<char>, DimV>, es: Seq<Arg>, m: int)
    requires
        0 < m <= es.len(),
    ensures
        coll_args(venv, es.skip(m - 1)) == coll_union(coll_arg(venv, es[m - 1]), coll_args(venv, es.skip(m))),
{
    assert(es.skip(m - 1).drop_first() =~= es.skip(m));
    assert(es.skip(m - 1)[0] == es[m - 1]);
}

pub proof fn lemma_args_none_skip(venv: Map<Seq<char>, DimV>, es: Seq<Arg>, m: int)
    requires
        0 <= m <= es.len(),
        coll_args(venv, es.skip(m)) is None,
    ensures
        coll_args(venv, es) is None,
    decreases m,
{
    if m == 0 {
        assert(es.skip(0) =~= es);
    } else {
        lemma_args_skip(venv, es, m);
        lemma_args_none_skip(venv, es, m - 1);
    }
}

/// The collection of a list fails as its first failing item does.
pub proof fn lemma_exps_res_err_at(venv: Map<Seq<char>, DimV>, es: Seq<Exp>, i: int)
    requires
        0 <= i < es.len(),
        forall|k: int| 0 <= k < i ==> collection(venv, #[trigger] es[k]) is Ok,
        collection(venv, es[i]) is Err,
    ensures
        collection_exps(venv, es) == collection(venv, es[i]),
    decreases i,
{
    if i > 0 {
        assert forall|k: int| 0 <= k < i - 1 implies collection(venv, #[trigger] es.drop_first()[k]) is Ok by {
            assert(es.drop_first()[k] == es[k + 1]);
        }
        lemma_exps_res_err_at(venv, es.drop_first(), i - 1);
        assert(collection(venv, es[0]) is Ok);
    }
}

pub proof fn lemma_exps_res_skip(venv: Map<Seq<char>, DimV>, es: Seq<Exp>, m: int)
    requires
        0 < m <= es.len(),
    ensures
        collection_exps(venv, es.skip(m - 1)) == res_union(collection(venv, es[m - 1]), collection_exps(venv, es.skip(m))),
{
    assert(es.skip(m - 1).drop_first() =~= es.skip(m));
    assert(es.skip(m - 1)[0] == es[m - 1]);
}

/// The collection of a list fails as its first failing item does.
pub proof fn lemma_fields_res_err_at(venv: Map<Seq<char>, DimV>, es: Seq<ExpField>, i: int)
    requires
        0 <= i < es.len(),
        forall|k: int| 0 <= k < i ==> collection(venv, #[trigger] es[k].exp) is Ok,
        collection(venv, es[i].exp) is Err,
    ensures
        collection_fields(venv, es) == collection(venv, es[i].exp),
    decreases i,
{
    if i > 0 {
        assert forall|k: int| 0 <= k < i - 1 implies collection(venv, #[trigger] es.drop_first()[k].exp) is Ok by {
            assert(es.drop_first()[k] == es[k + 1]);
        }
        lemma_fields_res_err_at(venv, es.drop_first(), i - 1);
        assert(collection(venv, es[0].exp) is Ok);
    }
}

pub proof fn lemma_fields_res_skip(venv: Map<Seq<char>, DimV>, es: Seq<ExpField>, m: int)
    requires
        0 < m <= es.len(),
    ensures
        collection_fields(venv, es.skip(m - 1)) == res_union(collection(venv, es[m - 1].exp), collection_fields(venv, es.skip(m))),
{
    assert(es.skip(m - 1).drop_first() =~= es.skip(m));
    assert(es.skip(m - 1)[0] == es[m - 1]);
}

/// The collection of a list fails as its first failing item does.
pub proof fn lemma_args_res_err_at(venv: Map<Seq<char>, DimV>, es: Seq<Arg>, i: int)
    requires
        0 <= i < es.len(),
        forall|k: int| 0 <= k < i ==> collection_arg(venv, #[trigger] es[k]) is Ok,
        collection_arg(venv, es[i]) is Err,
    ensures
        collection_args(venv, es) == collection_arg(venv, es[i]),
    decreases i,
{
    if i > 0 {
        assert forall|k: int| 0 <= k < i - 1 implies collection_arg(venv, #[trigger] es.drop_first()[k]) is Ok by {
            assert(es.drop_first()[k] == es[k + 1]);
        }
        lemma_args_res_err_at(venv, es.drop_first(), i - 1);
        assert(collection_arg(venv, es[0]) is Ok);
    }
}

pub proof fn lemma_args_res_skip(venv: Map<Seq<char>, DimV>, es: Seq<Arg>, m: int)
    requires
        0 < m <= es.len(),
    ensures
        collection_args(venv, es.skip(m - 1)) == res_union(collection_arg(venv, es[m - 1]), collection_args(venv, es.skip(m))),
{
    assert(es.skip(m - 1).drop_first() =~= es.skip(m));
    assert(es.skip(m - 1)[0] == es[m - 1]);
}

/// A failure at position `m` of a fold from the right reaches its start.
proof fn lemma_tail_err(rtail: spec_fn(int) -> Collection, m: int)
    requires
        0 <= m,
        rtail(m) is Err,
        forall|k: int| 0 < k <= m ==> (#[trigger] rtail(k) is Err ==> rtail(k - 1) == rtail(k)),
    ensures
        rtail(0) == rtail(m),
    decreases m,
{
    if m > 0 {
        assert(rtail(m) is Err);
        assert(rtail(m - 1) == rtail(m));
        lemma_tail_err(rtail, m - 1);
    }
}

/// Combines collected environments from the right, as `b0 ∪ (b1 ∪ (… ∪ ∅))`.
fn fold_union(benvs: Vec<BEnv>, cs: Ghost<Seq<Coll>>, tail: Ghost<spec_fn(int) -> Coll>, rtail: Ghost<spec_fn(int) -> Collection>) -> (r: Result<BEnv, AlgoError>)
    requires
        benvs@.len() == cs@.len(),
        forall|j: int| 0 <= j < benvs@.len() ==> (#[trigger] benvs@[j]).wf() && cs@[j] == Some(benvs@[j]@),
        tail@(cs@.len() as int) == Some(Map::<Seq<char>, BindingV>::empty()),
        forall|m: int| 0 < m <= cs@.len() ==> #[trigger] tail@(m - 1) == coll_union(cs@[m - 1], tail@(m)),
        rtail@(cs@.len() as int) == Ok::<Seq<(Id, BindingV)>, AlgoError>(Seq::empty()),
        forall|m: int| 0 < m <= cs@.len() ==> #[trigger] rtail@(m - 1) == res_union(
            Ok::<Seq<(Id, BindingV)>, AlgoError>(benv_seq(benvs@[m - 1].entries@)), rtail@(m)),
    ensures
        match r {
            Ok(b) => b.wf() && tail@(0) == Some(b@),
            Err(e) => exists|m: int| 0 <= m <= cs@.len() && #[trigger] tail@(m) is None && collect_error(e),
        },
        collected_as(r, rtail@(0)),
{
    let mut benvs = benvs;
    let mut acc = BEnv::new();
    let ghost n = cs@.len() as int;
    proof {
        assert(benv_seq(acc.entries@) =~= Seq::<(Id, BindingV)>::empty());
        assert forall|k: int| 0 < k <= n && #[trigger] rtail@(k) is Err implies rtail@(k - 1) == rtail@(k) by {
            assert(rtail@(k - 1) == res_union(Ok::<Seq<(Id, BindingV)>, AlgoError>(benv_seq(benvs@[k - 1].entries@)), rtail@(k)));
        }
    }
    while benvs.len() > 0
        invariant
            benvs@.len() <= n,
            n == cs@.len(),
            forall|j: int| 0 <= j < benvs@.len() ==> (#[trigger] benvs@[j]).wf() && cs@[j] == Some(benvs@[j]@),
            acc.wf(),
            tail@(benvs@.len() as int) == Some(acc@),
            forall|m: int| 0 < m <= cs@.len() ==> #[trigger] tail@(m - 1) == coll_union(cs@[m - 1], tail@(m)),
            rtail@(benvs@.len() as int) == Ok::<Seq<(Id, BindingV)>, AlgoError>(benv_seq(acc.entries@)),
            forall|m: int| 0 < m <= benvs@.len() ==> #[trigger] rtail@(m - 1) == res_union(
                Ok::<Seq<(Id, BindingV)>, AlgoError>(benv_seq(benvs@[m - 1].entries@)), rtail@(m)),
            forall|k: int| 0 < k <= n ==> (#[trigger] rtail@(k) is Err ==> rtail@(k - 1) == rtail@(k)),
        decreases benvs@.len(),
    {
        let ghost m = benvs@.len() as int;
        let head = benvs.pop().unwrap();
        proof {
            assert(tail@(m - 1) == coll_union(cs@[m - 1], tail@(m)));
            assert(rtail@(m - 1) == res_union(Ok::<Seq<(Id, BindingV)>, AlgoError>(benv_seq(head.entries@)), rtail@(m)));
        }
        match head.union(acc) {
            Ok(b) => {
                acc = b;
            },
            Err(e) => {
                proof {
                    assert(tail@(m - 1) is None);
                    lemma_tail_err(rtail@, m - 1);
                }
                return Err(e);
            },
        }
    }
    Ok(acc)
}

/// Collects the binders of an expression: the entries it binds, in order,
/// or the first failure, as `collection` states; a binder below a
/// non-invertible operation is rejected at that operation's location.
#[verifier::rlimit(60)]
#[verifier::spinoff_prover]
pub fn collect_exp(ctx: &Context, exp: &Exp) -> (r: Result<BEnv, AlgoError>)
    requires
        ctx.wf(),
    ensures
        collected(r, coll(ctx.venv@, *exp)),
        collected_as(r, collection(ctx.venv@, *exp)),
    decreases exp,
{
    let ghost venv = ctx.venv@;
    let sp = exp.span;
    match &exp.node {
        // Literals bind nothing
        ExpKind::Bool(_) | ExpKind::Num(_) | ExpKind::Text(_) => {
            let b = BEnv::new();
            proof {
                assert(benv_seq(b.entries@) =~= Seq::<(Id, BindingV)>::empty());
            }
            Ok(b)
        },
        // An identifier not bound yet is a binder
        ExpKind::Var(id) => {
            if ctx.venv.contains_key(id) {
                let b = BEnv::new();
                proof {
                    assert(benv_seq(b.entries@) =~= Seq::<(Id, BindingV)>::empty());
                }
                Ok(b)
            } else {
                let typ = crate::il::Typ { node: clone_typ_kind(&exp.note), span: exp.span };
                Ok(BEnv::singleton(clone_id(id), typ))
            }
        },
        // Unary operator: not invertible, so a binder below is an error
        ExpKind::Un(_, _, x) => reject_result(collect_exp(ctx, x), sp, Construct::UnaryOperator,
            Ghost(coll(venv, **x)), Ghost(collection(venv, **x))),
        // Binary operator: not invertible
        ExpKind::Bin(_, _, l, r) => {
            let u = union_results(collect_exp(ctx, l), collect_exp(ctx, r), Ghost(coll(venv, **l)), Ghost(coll(venv, **r)),
                Ghost(collection(venv, **l)), Ghost(collection(venv, **r)));
            reject_result(u, sp, Construct::BinaryOperator, Ghost(coll_union(coll(venv, **l), coll(venv, **r))),
                Ghost(res_union(collection(venv, **l), collection(venv, **r))))
        },
        // Comparison: not invertible
        ExpKind::Cmp(_, _, l, r) => {
            let u = union_results(collect_exp(ctx, l), collect_exp(ctx, r), Ghost(coll(venv, **l)), Ghost(coll(venv, **r)),
                Ghost(collection(venv, **l)), Ghost(collection(venv, **r)));
            reject_result(u, sp, Construct::ComparisonOperator, Ghost(coll_union(coll(venv, **l), coll(venv, **r))),
                Ghost(res_union(collection(venv, **l), collection(venv, **r))))
        },
        // Upcast: invertible, binders pass through
        ExpKind::UpCast(_, x) => collect_exp(ctx, x),
        // Downcast: not invertible
        ExpKind::DownCast(_, x) => reject_result(collect_exp(ctx, x), sp, Construct::DowncastOperator,
            Ghost(coll(venv, **x)), Ghost(collection(venv, **x))),
        // Subtype test: not invertible
        ExpKind::Sub(x, _) => reject_result(collect_exp(ctx, x), sp, Construct::SubtypeCheckOperator,
            Ghost(coll(venv, **x)), Ghost(collection(venv, **x))),
        // Pattern test: not invertible
        ExpKind::Match(x, _) => reject_result(collect_exp(ctx, x), sp, Construct::MatchCheckOperator,
            Ghost(coll(venv, **x)), Ghost(collection(venv, **x))),
        // Tuple or list: binders in every component
        ExpKind::Tuple(es) | ExpKind::List(es) => collect_exps(ctx, es),
        // Case: binders in the arguments
        ExpKind::Case(n) => collect_exps(ctx, &n.args),
        // Struct: binders in the fields
        ExpKind::Str(fs) => collect_fields(ctx, fs),
        // Option: binders in the payload; the empty option binds nothing
        ExpKind::Opt(o) => match o {
            Some(x) => collect_exp(ctx, x),
            None => {
                let b = BEnv::new();
                proof {
                    assert(benv_seq(b.entries@) =~= Seq::<(Id, BindingV)>::empty());
                }
                Ok(b)
            },
        },
        // Cons: binders in head and tail
        ExpKind::Cons(l, r) => union_results(collect_exp(ctx, l), collect_exp(ctx, r), Ghost(coll(venv, **l)), Ghost(coll(venv, **r)),
            Ghost(collection(venv, **l)), Ghost(collection(venv, **r))),
        // Concatenation: not invertible
        ExpKind::Cat(l, r) => {
            let u = union_results(collect_exp(ctx, l), collect_exp(ctx, r), Ghost(coll(venv, **l)), Ghost(coll(venv, **r)),
                Ghost(collection(venv, **l)), Ghost(collection(venv, **r)));
            reject_result(u, sp, Construct::ConcatenationOperator, Ghost(coll_union(coll(venv, **l), coll(venv, **r))),
                Ghost(res_union(collection(venv, **l), collection(venv, **r))))
        },
        // Membership: not invertible
        ExpKind::Mem(l, r) => {
            let u = union_results(collect_exp(ctx, l), collect_exp(ctx, r), Ghost(coll(venv, **l)), Ghost(coll(venv, **r)),
                Ghost(collection(venv, **l)), Ghost(collection(venv, **r)));
            reject_result(u, sp, Construct::SetMembershipOperator, Ghost(coll_union(coll(venv, **l), coll(venv, **r))),
                Ghost(res_union(collection(venv, **l), collection(venv, **r))))
        },
        // Length: not invertible
        ExpKind::Len(x) => reject_result(collect_exp(ctx, x), sp, Construct::LengthOperator,
            Ghost(coll(venv, **x)), Ghost(collection(venv, **x))),
        // Field access: not invertible
        ExpKind::Dot(x, _) => reject_result(collect_exp(ctx, x), sp, Construct::DotOperator,
            Ghost(coll(venv, **x)), Ghost(collection(venv, **x))),
        // Indexing: not invertible
        ExpKind::Idx(l, r) => {
            let u = union_results(collect_exp(ctx, l), collect_exp(ctx, r), Ghost(coll(venv, **l)), Ghost(coll(venv, **r)),
                Ghost(collection(venv, **l)), Ghost(collection(venv, **r)));
            reject_result(u, sp, Construct::IndexingOperator, Ghost(coll_union(coll(venv, **l), coll(venv, **r))),
                Ghost(res_union(collection(venv, **l), collection(venv, **r))))
        },
        // Slicing: not invertible
        ExpKind::Slice(b, l, h) => {
            let u = union_results(collect_exp(ctx, b), collect_exp(ctx, l), Ghost(coll(venv, **b)), Ghost(coll(venv, **l)),
                Ghost(collection(venv, **b)), Ghost(collection(venv, **l)));
            let u = union_results(u, collect_exp(ctx, h), Ghost(coll_union(coll(venv, **b), coll(venv, **l))), Ghost(coll(venv, **h)),
                Ghost(res_union(collection(venv, **b), collection(venv, **l))), Ghost(collection(venv, **h)));
            reject_result(u, sp, Construct::SlicingOperator, Ghost(coll_union(coll_union(coll(venv, **b), coll(venv, **l)), coll(venv, **h))),
                Ghost(res_union(res_union(collection(venv, **b), collection(venv, **l)), collection(venv, **h))))
        },
        // Update: not invertible
        ExpKind::Upd(b, p, f) => {
            // Failures are reported in the order base, path, field
            let rb = collect_exp(ctx, b);
            let rp = collect_path(ctx, p);
            let rf = collect_exp(ctx, f);
            let ghost cu = coll_union(coll_union(coll(venv, **b), coll(venv, **f)), coll_path(venv, *p));
            let u = if rb.is_err() {
                rb
            } else if rp.is_err() {
                rp
            } else if rf.is_err() {
                rf
            } else {
                let u = union_results(rb, rf, Ghost(coll(venv, **b)), Ghost(coll(venv, **f)),
                    Ghost(collection(venv, **b)), Ghost(collection(venv, **f)));
                union_results(u, rp, Ghost(coll_union(coll(venv, **b), coll(venv, **f))), Ghost(coll_path(venv, *p)),
                    Ghost(res_union(collection(venv, **b), collection(venv, **f))), Ghost(collection_path(venv, *p)))
            };
            reject_result(u, sp, Construct::UpdateOperator, Ghost(cu),
                Ghost(first_err3(collection(venv, **b), collection_path(venv, *p), collection(venv, **f),
                    res_union(res_union(collection(venv, **b), collection(venv, **f)), collection_path(venv, *p)))))
        },
        // Call: not invertible
        ExpKind::Call(_, _, args) => reject_result(collect_args(ctx, args), sp, Construct::CallOperator,
            Ghost(coll_args(venv, args@)), Ghost(collection_args(venv, args@))),
        // Binders under an iteration gain its dimension
        ExpKind::Iter(x, it) => match collect_exp(ctx, x) {
            Ok(b) => Ok(b.add_iter(it.iter)),
            Err(e) => Err(e),
        },
    }
}

/// Collects binders across expressions, combining parallel occurrences.
#[verifier::loop_isolation(false)]
#[verifier::spinoff_prover]
#[verifier::rlimit(40)]
pub fn collect_exps(ctx: &Context, exps: &Vec<Exp>) -> (r: Result<BEnv, AlgoError>)
    requires
        ctx.wf(),
    ensures
        collected(r, coll_exps(ctx.venv@, exps@)),
        collected_as(r, collection_exps(ctx.venv@, exps@)),
    decreases exps,
{
    let ghost venv = ctx.venv@;
    let ghost es = exps@;
    let mut benvs: Vec<BEnv> = Vec::new();
    for i in 0..exps.len()
        invariant
            benvs@.len() == i,
            forall|j: int| 0 <= j < i ==> (#[trigger] benvs@[j]).wf() && coll(venv, es[j]) == Some(benvs@[j]@)
                && collection(venv, es[j]) == Ok::<Seq<(Id, BindingV)>, AlgoError>(benv_seq(benvs@[j].entries@)),
    {
        proof {
            assert(decreases_to!(exps => exps[i as int]));
        }
        match collect_exp(ctx, &exps[i]) {
            Ok(b) => benvs.push(b),
            Err(e) => {
                proof {
                    lemma_exps_none_at(venv, es, i as int);
                    assert forall|k: int| 0 <= k < i implies collection(venv, #[trigger] es[k]) is Ok by {
                        assert(benvs@[k].wf());
                    }
                    lemma_exps_res_err_at(venv, es, i as int);
                }
                return Err(e);
            },
        }
    }
    let ghost cs = Seq::new(es.len(), |j: int| coll(venv, es[j]));
    let ghost tail = |m: int| coll_exps(venv, es.skip(m));
    let ghost rtail = |m: int| collection_exps(venv, es.skip(m));
    proof {
        assert(es.skip(es.len() as int) =~= Seq::<Exp>::empty());
        assert forall|m: int| 0 < m <= cs.len() implies #[trigger] tail(m - 1) == coll_union(cs[m - 1], tail(m)) by {
            lemma_exps_skip(venv, es, m);
        }
        assert forall|m: int| 0 < m <= cs.len() implies #[trigger] rtail(m - 1) == res_union(
            Ok::<Seq<(Id, BindingV)>, AlgoError>(benv_seq(benvs@[m - 1].entries@)), rtail(m)) by {
            lemma_exps_res_skip(venv, es, m);
        }
    }
    let r = fold_union(benvs, Ghost(cs), Ghost(tail), Ghost(rtail));
    proof {
        assert(es.skip(0) =~= es);
        if let Err(e) = r {
            let m = choose|m: int| 0 <= m <= cs.len() && #[trigger] tail(m) is None && collect_error(e);
            lemma_exps_none_skip(venv, es, m);
        }
    }
    r
}

/// Collects binders across record fields, combining parallel occurrences.
#[verifier::loop_isolation(false)]
#[verifier::spinoff_prover]
#[verifier::rlimit(40)]
pub fn collect_fields(ctx: &Context, fields: &Vec<ExpField>) -> (r: Result<BEnv, AlgoError>)
    requires
        ctx.wf(),
    ensures
        collected(r, coll_fields(ctx.venv@, fields@)),
        collected_as(r, collection_fields(ctx.venv@, fields@)),
    decreases fields,
{
    let ghost venv = ctx.venv@;
    let ghost es = fields@;
    let mut benvs: Vec<BEnv> = Vec::new();
    for i in 0..fields.len()
        invariant
            benvs@.len() == i,
            forall|j: int| 0 <= j < i ==> (#[trigger] benvs@[j]).wf() && coll(venv, es[j].exp) == Some(benvs@[j]@)
                && collection(venv, es[j].exp) == Ok::<Seq<(Id, BindingV)>, AlgoError>(benv_seq(benvs@[j].entries@)),
    {
        proof {
            assert(decreases_to!(fields => fields[i as int]));
            assert(decreases_to!(fields[i as int] => fields[i as int].exp));
        }
        match collect_exp(ctx, &fields[i].exp) {
            Ok(b) => benvs.push(b),
            Err(e) => {
                proof {
                    lemma_fields_none_at(venv, es, i as int);
                    assert forall|k: int| 0 <= k < i implies collection(venv, (#[trigger] es[k]).exp) is Ok by {
                        assert(benvs@[k].wf());
                    }
                    lemma_fields_res_err_at(venv, es, i as int);
                }
                return Err(e);
            },
        }
    }
    let ghost cs = Seq::new(es.len(), |j: int| coll(venv, es[j].exp));
    let ghost tail = |m: int| coll_fields(venv, es.skip(m));
    let ghost rtail = |m: int| collection_fields(venv, es.skip(m));
    proof {
        assert(es.skip(es.len() as int) =~= Seq::<ExpField>::empty());
        assert forall|m: int| 0 < m <= cs.len() implies #[trigger] tail(m - 1) == coll_union(cs[m - 1], tail(m)) by {
            lemma_fields_skip(venv, es, m);
        }
        assert forall|m: int| 0 < m <= cs.len() implies #[trigger] rtail(m - 1) == res_union(
            Ok::<Seq<(Id, BindingV)>, AlgoError>(benv_seq(benvs@[m - 1].entries@)), rtail(m)) by {
            lemma_fields_res_skip(venv, es, m);
        }
    }
    let r = fold_union(benvs, Ghost(cs), Ghost(tail), Ghost(rtail));
    proof {
        assert(es.skip(0) =~= es);
        if let Err(e) = r {
            let m = choose|m: int| 0 <= m <= cs.len() && #[trigger] tail(m) is None && collect_error(e);
            lemma_fields_none_skip(venv, es, m);
        }
    }
    r
}

/// Collects binders in the index and slice expressions along a path.
pub fn collect_path(ctx: &Context, path: &Path) -> (r: Result<BEnv, AlgoError>)
    requires
        ctx.wf(),
    ensures
        collected(r, coll_path(ctx.venv@, *path)),
        collected_as(r, collection_path(ctx.venv@, *path)),
    decreases path,
{
    let ghost venv = ctx.venv@;
    match &path.node {
        PathKind::Root => {
            let b = BEnv::new();
            proof {
                assert(benv_seq(b.entries@) =~= Seq::<(Id, BindingV)>::empty());
            }
            Ok(b)
        },
        PathKind::Idx(q, x) => union_results(collect_path(ctx, q), collect_exp(ctx, x), Ghost(coll_path(venv, **q)), Ghost(coll(venv, **x)),
            Ghost(collection_path(venv, **q)), Ghost(collection(venv, **x))),
        PathKind::Slice(q, l, h) => {
            let u = union_results(collect_path(ctx, q), collect_exp(ctx, l), Ghost(coll_path(venv, **q)), Ghost(coll(venv, **l)),
                Ghost(collection_path(venv, **q)), Ghost(collection(venv, **l)));
            union_results(u, collect_exp(ctx, h), Ghost(coll_union(coll_path(venv, **q), coll(venv, **l))), Ghost(coll(venv, **h)),
                Ghost(res_union(collection_path(venv, **q), collection(venv, **l))), Ghost(collection(venv, **h)))
        },
        PathKind::Dot(q, _) => collect_path(ctx, q),
    }
}

/// Collects binders of an expression argument; function arguments have none.
pub fn collect_arg(ctx: &Context, arg: &Arg) -> (r: Result<BEnv, AlgoError>)
    requires
        ctx.wf(),
    ensures
        collected(r, coll_arg(ctx.venv@, *arg)),
        collected_as(r, collection_arg(ctx.venv@, *arg)),
    decreases arg,
{
    match &arg.node {
        ArgKind::Exp(x) => collect_exp(ctx, x),
        ArgKind::Def(_) => {
            let b = BEnv::new();
            proof {
                assert(benv_seq(b.entries@) =~= Seq::<(Id, BindingV)>::empty());
            }
            Ok(b)
        },
    }
}

/// Collects binders across arguments, combining parallel occurrences.
#[verifier::loop_isolation(false)]
#[verifier::spinoff_prover]
#[verifier::rlimit(40)]
pub fn collect_args(ctx: &Context, args: &Vec<Arg>) -> (r: Result<BEnv, AlgoError>)
    requires
        ctx.wf(),
    ensures
        collected(r, coll_args(ctx.venv@, args@)),
        collected_as(r, collection_args(ctx.venv@, args@)),
    decreases args,
{
    let ghost venv = ctx.venv@;
    let ghost es = args@;
    let mut benvs: Vec<BEnv> = Vec::new();
    for i in 0..args.len()
        invariant
            benvs@.len() == i,
            forall|j: int| 0 <= j < i ==> (#[trigger] benvs@[j]).wf() && coll_arg(venv, es[j]) == Some(benvs@[j]@)
                && collection_arg(venv, es[j]) == Ok::<Seq<(Id, BindingV)>, AlgoError>(benv_seq(benvs@[j].entries@)),
    {
        proof {
            assert(decreases_to!(args => args[i as int]));
        }
        match collect_arg(ctx, &args[i]) {
            Ok(b) => benvs.push(b),
            Err(e) => {
                proof {
                    lemma_args_none_at(venv, es, i as int);
                    assert forall|k: int| 0 <= k < i implies collection_arg(venv, #[trigger] es[k]) is Ok by {
                        assert(benvs@[k].wf());
                    }
                    lemma_args_res_err_at(venv, es, i as int);
                }
                return Err(e);
            },
        }
    }
    let ghost cs = Seq::new(es.len(), |j: int| coll_arg(venv, es[j]));
    let ghost tail = |m: int| coll_args(venv, es.skip(m));
    let ghost rtail = |m: int| collection_args(venv, es.skip(m));
    proof {
        assert(es.skip(es.len() as int) =~= Seq::<Arg>::empty());
        assert forall|m: int| 0 < m <= cs.len() implies #[trigger] tail(m - 1) == coll_union(cs[m - 1], tail(m)) by {
            lemma_args_skip(venv, es, m);
        }
        assert forall|m: int| 0 < m <= cs.len() implies #[trigger] rtail(m - 1) == res_union(
            Ok::<Seq<(Id, BindingV)>, AlgoError>(benv_seq(benvs@[m - 1].entries@)), rtail(m)) by {
            lemma_args_res_skip(venv, es, m);
        }
    }
    let r = fold_union(benvs, Ghost(cs), Ghost(tail), Ghost(rtail));
    proof {
        assert(es.skip(0) =~= es);
        if let Err(e) = r {
            let m = choose|m: int| 0 <= m <= cs.len() && #[trigger] tail(m) is None && collect_error(e);
            lemma_args_none_skip(venv, es, m);
        }
    }
    r
}

} // verus!
