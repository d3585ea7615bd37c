//! Purity of the premises of an otherwise branch: such a branch is taken
//! only when every earlier rule failed, so its premises may neither apply a
//! relation, nor test a condition, nor call a function.

use vstd::prelude::*;
use crate::span::Span;
use crate::il::{Arg, ArgKind, Exp, ExpField, ExpKind, Path, PathKind};
use crate::al::{Prem, PremKind};
use crate::algo::error::{AlgoError, AlgoErrorKind};
use crate::il_sub::{occurs, occurs_in, occurs_in_args, occurs_in_fields, occurs_in_path};

verus! {

/// The locations of the function calls in an expression.
pub open spec fn exp_calls(e: Exp) -> Set<Span>
    decreases e,
{
    match e.node {
        ExpKind::Bool(_) | ExpKind::Num(_) | ExpKind::Text(_) | ExpKind::Var(_) => Set::empty(),
        ExpKind::Un(_, _, x) => exp_calls(*x),
        ExpKind::UpCast(_, x) => exp_calls(*x),
        ExpKind::DownCast(_, x) => exp_calls(*x),
        ExpKind::Sub(x, _) => exp_calls(*x),
        ExpKind::Match(x, _) => exp_calls(*x),
        ExpKind::Len(x) => exp_calls(*x),
        ExpKind::Dot(x, _) => exp_calls(*x),
        ExpKind::Iter(x, _) => exp_calls(*x),
        ExpKind::Bin(_, _, l, r) => exp_calls(*l).union(exp_calls(*r)),
        ExpKind::Cmp(_, _, l, r) => exp_calls(*l).union(exp_calls(*r)),
        ExpKind::Cons(l, r) => exp_calls(*l).union(exp_calls(*r)),
        ExpKind::Cat(l, r) => exp_calls(*l).union(exp_calls(*r)),
        ExpKind::Mem(l, r) => exp_calls(*l).union(exp_calls(*r)),
        ExpKind::Idx(l, r) => exp_calls(*l).union(exp_calls(*r)),
        ExpKind::Tuple(es) => exps_calls(es@),
        ExpKind::List(es) => exps_calls(es@),
        ExpKind::Case(n) => exps_calls(n.args@),
        ExpKind::Str(fs) => fields_calls(fs@),
        ExpKind::Opt(o) => match o {
            Some(x) => exp_calls(*x),
            None => Set::empty(),
        },
        ExpKind::Slice(b, l, h) => exp_calls(*b).union(exp_calls(*l)).union(exp_calls(*h)),
        ExpKind::Upd(b, p, f) => exp_calls(*b).union(path_calls(p)).union(exp_calls(*f)),
        ExpKind::Call(_, _, args) => Set::empty().insert(e.span).union(args_calls(args@)),
    }
}

/// The locations of the function calls in a list of expressions.
pub open spec fn exps_calls(es: Seq<Exp>) -> Set<Span>
    decreases es,
{
    if es.len() == 0 {
        Set::empty()
    } else {
        exps_calls(es.drop_last()).union(exp_calls(es.last()))
    }
}

/// The locations of the function calls in the fields of a structure.
pub open spec fn fields_calls(fs: Seq<ExpField>) -> Set<Span>
    decreases fs,
{
    if fs.len() == 0 {
        Set::empty()
    } else {
        fields_calls(fs.drop_last()).union(exp_calls(fs.last().exp))
    }
}

/// The locations of the function calls in an update path.
pub open spec fn path_calls(p: Path) -> Set<Span>
    decreases p,
{
    match p.node {
        PathKind::Root => Set::empty(),
        PathKind::Idx(q, e) => path_calls(*q).union(exp_calls(*e)),
        PathKind::Slice(q, l, h) => path_calls(*q).union(exp_calls(*l)).union(exp_calls(*h)),
        PathKind::Dot(q, _) => path_calls(*q),
    }
}

/// The locations of the function calls in call arguments.
pub open spec fn args_calls(args: Seq<Arg>) -> Set<Span>
    decreases args,
{
    if args.len() == 0 {
        Set::empty()
    } else {
        args_calls(args.drop_last()).union(
            match args.last().node {
                ArgKind::Exp(e) => exp_calls(*e),
                ArgKind::Def(_) => Set::empty(),
            },
        )
    }
}

/// One call of `e`, if it has any.
pub fn first_call(e: &Exp) -> (r: Option<Span>)
    ensures
        r is None <==> exp_calls(*e) == Set::<Span>::empty(),
        r matches Some(s) ==> exp_calls(*e).contains(s),
    decreases e,
{
    match &e.node {
        ExpKind::Bool(_) | ExpKind::Num(_) | ExpKind::Text(_) | ExpKind::Var(_) => None,
        ExpKind::Un(_, _, x) | ExpKind::UpCast(_, x) | ExpKind::DownCast(_, x) | ExpKind::Sub(x, _)
        | ExpKind::Match(x, _) | ExpKind::Len(x) | ExpKind::Dot(x, _) | ExpKind::Iter(x, _) => {
            let c = first_call(x);
            proof {
                assert(exp_calls(*e) == exp_calls(**x));
            }
            c
        },
        ExpKind::Bin(_, _, l, r) | ExpKind::Cmp(_, _, l, r) | ExpKind::Cons(l, r) | ExpKind::Cat(l, r)
        | ExpKind::Mem(l, r) | ExpKind::Idx(l, r) => {
            proof {
                assert(exp_calls(*e) == exp_calls(**l).union(exp_calls(**r)));
            }
            let a = first_call(l);
            if a.is_some() {
                assert(exp_calls(*e).contains(a.unwrap()));
                return a;
            }
            let b = first_call(r);
            proof {
                match b {
                    Some(x) => assert(exp_calls(*e).contains(x)),
                    None => {},
                }
                if b is None {
                    assert(exp_calls(**l).union(exp_calls(**r)) =~= Set::<Span>::empty());
                }
            }
            b
        },
        ExpKind::Tuple(es) | ExpKind::List(es) => {
            let c = first_call_exps(es);
            proof {
                assert(exp_calls(*e) == exps_calls(es@));
            }
            c
        },
        ExpKind::Case(n) => {
            let c = first_call_exps(&n.args);
            proof {
                assert(exp_calls(*e) == exps_calls(n.args@));
            }
            c
        },
        ExpKind::Str(fs) => {
            let c = first_call_fields(fs);
            proof {
                assert(exp_calls(*e) == fields_calls(fs@));
            }
            c
        },
        ExpKind::Opt(o) => match o {
            Some(x) => {
                let c = first_call(x);
                proof {
                    assert(exp_calls(*e) == exp_calls(**x));
                }
                c
            },
            None => None,
        },
        ExpKind::Slice(b, l, h) => {
            proof {
                assert(exp_calls(*e) == exp_calls(**b).union(exp_calls(**l)).union(exp_calls(**h)));
            }
            let x = first_call(b);
            if x.is_some() {
                assert(exp_calls(*e).contains(x.unwrap()));
                return x;
            }
            let y = first_call(l);
            if y.is_some() {
                assert(exp_calls(*e).contains(y.unwrap()));
                return y;
            }
            let z = first_call(h);
            proof {
                match z {
                    Some(x) => assert(exp_calls(*e).contains(x)),
                    None => {},
                }
                if z is None {
                    assert(exp_calls(**b).union(exp_calls(**l)).union(exp_calls(**h)) =~= Set::<Span>::empty());
                }
            }
            z
        },
        ExpKind::Upd(b, p, f) => {
            proof {
                assert(exp_calls(*e) == exp_calls(**b).union(path_calls(*p)).union(exp_calls(**f)));
            }
            let x = first_call(b);
            if x.is_some() {
                assert(exp_calls(*e).contains(x.unwrap()));
                return x;
            }
            let y = first_call_path(p);
            if y.is_some() {
                assert(exp_calls(*e).contains(y.unwrap()));
                return y;
            }
            let z = first_call(f);
            proof {
                match z {
                    Some(x) => assert(exp_calls(*e).contains(x)),
                    None => {},
                }
                if z is None {
                    assert(exp_calls(**b).union(path_calls(*p)).union(exp_calls(**f)) =~= Set::<Span>::empty());
                }
            }
            z
        },
        ExpKind::Call(_, _, _) => {
            assert(exp_calls(*e).contains(e.span));
            Some(e.span)
        },
    }
}

/// One call among `es`, if they have any.
pub fn first_call_exps(es: &Vec<Exp>) -> (r: Option<Span>)
    ensures
        r is None <==> exps_calls(es@) == Set::<Span>::empty(),
        r matches Some(s) ==> exps_calls(es@).contains(s),
    decreases es@,
{
    let n = es.len();
    for i in 0..n
        invariant
            n == es@.len(),
            exps_calls(es@.take(i as int)) == Set::<Span>::empty(),
        decreases n - i,
    {
        proof {
            assert(es@.take(i + 1).drop_last() =~= es@.take(i as int));
            assert(es@.take(i + 1).last() == es@[i as int]);
        }
        let c = first_call(&es[i]);
        if c.is_some() {
            proof {
                lemma_exps_calls_prefix(es@, i + 1);
                assert(exps_calls(es@.take(i + 1)) == exps_calls(es@.take(i as int)).union(exp_calls(es@[i as int])));
                assert(exps_calls(es@.take(i + 1)).contains(c.unwrap()));
            }
            assert(exps_calls(es@).contains(c.unwrap()));
            return c;
        }
        proof {
            assert(exps_calls(es@.take(i + 1)) =~= Set::<Span>::empty());
        }
    }
    proof {
        assert(es@.take(n as int) =~= es@);
    }
    None
}

/// The calls of a prefix are calls of the whole list.
proof fn lemma_exps_calls_prefix(es: Seq<Exp>, k: int)
    requires
        0 <= k <= es.len(),
    ensures
        exps_calls(es.take(k)).subset_of(exps_calls(es)),
    decreases es.len() - k,
{
    if k < es.len() {
        lemma_exps_calls_prefix(es, k + 1);
        assert(es.take(k + 1).drop_last() =~= es.take(k));
    } else {
        assert(es.take(k) =~= es);
    }
}

/// One call among the fields `fs`, if they have any.
pub fn first_call_fields(fs: &Vec<ExpField>) -> (r: Option<Span>)
    ensures
        r is None <==> fields_calls(fs@) == Set::<Span>::empty(),
        r matches Some(s) ==> fields_calls(fs@).contains(s),
    decreases fs@,
{
    let n = fs.len();
    for i in 0..n
        invariant
            n == fs@.len(),
            fields_calls(fs@.take(i as int)) == Set::<Span>::empty(),
        decreases n - i,
    {
        proof {
            assert(fs@.take(i + 1).drop_last() =~= fs@.take(i as int));
            assert(fs@.take(i + 1).last() == fs@[i as int]);
        }
        let c = first_call(&fs[i].exp);
        if c.is_some() {
            proof {
                lemma_fields_calls_prefix(fs@, i + 1);
                assert(fields_calls(fs@.take(i + 1)) == fields_calls(fs@.take(i as int)).union(exp_calls(fs@[i as int].exp)));
                assert(fields_calls(fs@.take(i + 1)).contains(c.unwrap()));
            }
            assert(fields_calls(fs@).contains(c.unwrap()));
            return c;
        }
        proof {
            assert(fields_calls(fs@.take(i + 1)) =~= Set::<Span>::empty());
        }
    }
    proof {
        assert(fs@.take(n as int) =~= fs@);
    }
    None
}

/// The calls of a prefix of fields are calls of all of them.
proof fn lemma_fields_calls_prefix(fs: Seq<ExpField>, k: int)
    requires
        0 <= k <= fs.len(),
    ensures
        fields_calls(fs.take(k)).subset_of(fields_calls(fs)),
    decreases fs.len() - k,
{
    if k < fs.len() {
        lemma_fields_calls_prefix(fs, k + 1);
        assert(fs.take(k + 1).drop_last() =~= fs.take(k));
    } else {
        assert(fs.take(k) =~= fs);
    }
}

/// One call in the update path `p`, if it has any.
pub fn first_call_path(p: &Path) -> (r: Option<Span>)
    ensures
        r is None <==> path_calls(*p) == Set::<Span>::empty(),
        r matches Some(s) ==> path_calls(*p).contains(s),
    decreases p,
{
    match &p.node {
        PathKind::Root => None,
        PathKind::Dot(q, _) => {
            let c = first_call_path(q);
            proof {
                assert(path_calls(*p) == path_calls(**q));
            }
            c
        },
        PathKind::Idx(q, e) => {
            proof {
                assert(path_calls(*p) == path_calls(**q).union(exp_calls(**e)));
            }
            let x = first_call_path(q);
            if x.is_some() {
                assert(path_calls(*p).contains(x.unwrap()));
                return x;
            }
            let y = first_call(e);
            proof {
                match y {
                    Some(x) => assert(path_calls(*p).contains(x)),
                    None => {},
                }
                if y is None {
                    assert(path_calls(**q).union(exp_calls(**e)) =~= Set::<Span>::empty());
                }
            }
            y
        },
        PathKind::Slice(q, l, h) => {
            proof {
                assert(path_calls(*p) == path_calls(**q).union(exp_calls(**l)).union(exp_calls(**h)));
            }
            let x = first_call_path(q);
            if x.is_some() {
                assert(path_calls(*p).contains(x.unwrap()));
                return x;
            }
            let y = first_call(l);
            if y.is_some() {
                assert(path_calls(*p).contains(y.unwrap()));
                return y;
            }
            let z = first_call(h);
            proof {
                match z {
                    Some(x) => assert(path_calls(*p).contains(x)),
                    None => {},
                }
                if z is None {
                    assert(path_calls(**q).union(exp_calls(**l)).union(exp_calls(**h)) =~= Set::<Span>::empty());
                }
            }
            z
        },
    }
}

/// The locations at which an algorithmic premise is impure: a relation
/// application or a condition is impure as a whole; a let or debugging
/// premise wherever its expression calls a function; an iterated premise
/// where its body is.
pub open spec fn impure_spans(p: Prem) -> Set<Span>
    decreases p,
{
    match p.node {
        PremKind::Rule(_) | PremKind::IfHold(_) | PremKind::IfNotHold(_) | PremKind::If(_) => Set::empty().insert(p.span),
        PremKind::Let(lp) => exp_calls(lp.exp_r),
        PremKind::Debug(ip) => exp_calls(ip.exp),
        PremKind::Iter(ip) => impure_spans(*ip.prem),
    }
}

/// The premise `p` may stand in an otherwise branch.
pub open spec fn is_pure(p: Prem) -> bool {
    impure_spans(p) == Set::<Span>::empty()
}

/// Reports where a premise of an otherwise branch is impure, if it is.
pub fn check_pure_prem_in_else(p: &Prem) -> (r: Option<AlgoError>)
    ensures
        r is None <==> is_pure(*p),
        r matches Some(e) ==> e.kind == AlgoErrorKind::ImpureElsePremises && impure_spans(*p).contains(e.span),
    decreases p,
{
    match &p.node {
        PremKind::Rule(_) | PremKind::IfHold(_) | PremKind::IfNotHold(_) | PremKind::If(_) => {
            proof {
                assert(impure_spans(*p).contains(p.span));
            }
            Some(AlgoError::new(AlgoErrorKind::ImpureElsePremises, p.span))
        },
        PremKind::Let(lp) => match first_call(&lp.exp_r) {
            Some(s) => Some(AlgoError::new(AlgoErrorKind::ImpureElsePremises, s)),
            None => None,
        },
        PremKind::Debug(ip) => match first_call(&ip.exp) {
            Some(s) => Some(AlgoError::new(AlgoErrorKind::ImpureElsePremises, s)),
            None => None,
        },
        PremKind::Iter(ip) => check_pure_prem_in_else(&ip.prem),
    }
}

/// Rejects the first impure premise of an otherwise branch.
pub fn check_pure_prems_in_else(prems: &Vec<Prem>) -> (r: Result<(), AlgoError>)
    ensures
        r is Ok <==> forall|i: int| 0 <= i < prems@.len() ==> #[trigger] is_pure(prems@[i]),
        r matches Err(e) ==> e.kind == AlgoErrorKind::ImpureElsePremises && exists|i: int|
            0 <= i < prems@.len() && (forall|j: int| 0 <= j < i ==> #[trigger] is_pure(prems@[j]))
                && impure_spans(#[trigger] prems@[i]).contains(e.span),
{
    for i in 0..prems.len()
        invariant
            forall|j: int| 0 <= j < i ==> #[trigger] is_pure(prems@[j]),
    {
        match check_pure_prem_in_else(&prems[i]) {
            Some(e) => {
                assert(impure_spans(prems@[i as int]).contains(e.span));
                return Err(e);
            },
            None => {},
        }
    }
    Ok(())
}

// == Laws of purity

/// Every function call occurring anywhere in an expression, under an
/// iteration, inside an argument or a path included, is among its calls.
pub proof fn lemma_calls_complete(c: Exp, e: Exp)
    requires
        occurs(c, e),
        c.node is Call,
    ensures
        exp_calls(e).contains(c.span),
    decreases e,
{
    if c == e {
    } else {
        match e.node {
            ExpKind::Bool(_) | ExpKind::Num(_) | ExpKind::Text(_) | ExpKind::Var(_) => {},
            ExpKind::Un(_, _, x) => lemma_calls_complete(c, *x),
            ExpKind::UpCast(_, x) => lemma_calls_complete(c, *x),
            ExpKind::DownCast(_, x) => lemma_calls_complete(c, *x),
            ExpKind::Sub(x, _) => lemma_calls_complete(c, *x),
            ExpKind::Match(x, _) => lemma_calls_complete(c, *x),
            ExpKind::Len(x) => lemma_calls_complete(c, *x),
            ExpKind::Dot(x, _) => lemma_calls_complete(c, *x),
            ExpKind::Iter(x, _) => lemma_calls_complete(c, *x),
            ExpKind::Bin(_, _, l, r) => if occurs(c, *l) { lemma_calls_complete(c, *l) } else { lemma_calls_complete(c, *r) },
            ExpKind::Cmp(_, _, l, r) => if occurs(c, *l) { lemma_calls_complete(c, *l) } else { lemma_calls_complete(c, *r) },
            ExpKind::Cons(l, r) => if occurs(c, *l) { lemma_calls_complete(c, *l) } else { lemma_calls_complete(c, *r) },
            ExpKind::Cat(l, r) => if occurs(c, *l) { lemma_calls_complete(c, *l) } else { lemma_calls_complete(c, *r) },
            ExpKind::Mem(l, r) => if occurs(c, *l) { lemma_calls_complete(c, *l) } else { lemma_calls_complete(c, *r) },
            ExpKind::Idx(l, r) => if occurs(c, *l) { lemma_calls_complete(c, *l) } else { lemma_calls_complete(c, *r) },
            ExpKind::Tuple(es) => lemma_calls_complete_exps(c, es@),
            ExpKind::List(es) => lemma_calls_complete_exps(c, es@),
            ExpKind::Case(n) => lemma_calls_complete_exps(c, n.args@),
            ExpKind::Str(fs) => lemma_calls_complete_fields(c, fs@),
            ExpKind::Opt(o) => match o {
                Some(x) => lemma_calls_complete(c, *x),
                None => {},
            },
            ExpKind::Slice(b, l, h) => {
                if occurs(c, *b) {
                    lemma_calls_complete(c, *b);
                } else if occurs(c, *l) {
                    lemma_calls_complete(c, *l);
                } else {
                    lemma_calls_complete(c, *h);
                }
            },
            ExpKind::Upd(b, p, f) => {
                if occurs(c, *b) {
                    lemma_calls_complete(c, *b);
                } else if occurs_in_path(c, p) {
                    lemma_calls_complete_path(c, p);
                } else {
                    lemma_calls_complete(c, *f);
                }
            },
            ExpKind::Call(_, _, args) => lemma_calls_complete_args(c, args@),
        }
    }
}

/// The calls in a list of expressions include those of each.
pub proof fn lemma_calls_complete_exps(c: Exp, es: Seq<Exp>)
    requires
        occurs_in(c, es),
        c.node is Call,
    ensures
        exps_calls(es).contains(c.span),
    decreases es,
{
    if occurs_in(c, es.drop_last()) {
        lemma_calls_complete_exps(c, es.drop_last());
    } else {
        lemma_calls_complete(c, es.last());
    }
}

/// The calls in the fields of a structure include those of each field.
pub proof fn lemma_calls_complete_fields(c: Exp, fs: Seq<ExpField>)
    requires
        occurs_in_fields(c, fs),
        c.node is Call,
    ensures
        fields_calls(fs).contains(c.span),
    decreases fs,
{
    if occurs_in_fields(c, fs.drop_last()) {
        lemma_calls_complete_fields(c, fs.drop_last());
    } else {
        lemma_calls_complete(c, fs.last().exp);
    }
}

/// The calls in an update path include those of its expressions.
pub proof fn lemma_calls_complete_path(c: Exp, p: Path)
    requires
        occurs_in_path(c, p),
        c.node is Call,
    ensures
        path_calls(p).contains(c.span),
    decreases p,
{
    match p.node {
        PathKind::Root => {},
        PathKind::Idx(q, x) => if occurs_in_path(c, *q) { lemma_calls_complete_path(c, *q) } else { lemma_calls_complete(c, *x) },
        PathKind::Slice(q, l, h) => {
            if occurs_in_path(c, *q) {
                lemma_calls_complete_path(c, *q);
            } else if occurs(c, *l) {
                lemma_calls_complete(c, *l);
            } else {
                lemma_calls_complete(c, *h);
            }
        },
        PathKind::Dot(q, _) => lemma_calls_complete_path(c, *q),
    }
}

/// The calls in call arguments include those of each expression argument.
pub proof fn lemma_calls_complete_args(c: Exp, args: Seq<Arg>)
    requires
        occurs_in_args(c, args),
        c.node is Call,
    ensures
        args_calls(args).contains(c.span),
    decreases args,
{
    if occurs_in_args(c, args.drop_last()) {
        lemma_calls_complete_args(c, args.drop_last());
    } else {
        match args.last().node {
            ArgKind::Exp(x) => lemma_calls_complete(c, *x),
            ArgKind::Def(_) => {},
        }
    }
}

/// A let premise that calls a function anywhere on its right side, or a
/// debugging premise anywhere in its expression, is impure at that call,
/// however deep it is iterated; so an otherwise branch holding it fails.
pub proof fn lemma_call_impure(p: Prem, c: Exp)
    requires
        c.node is Call,
        match p.node {
            PremKind::Let(lp) => occurs(c, lp.exp_r),
            PremKind::Debug(ip) => occurs(c, ip.exp),
            _ => false,
        },
    ensures
        impure_spans(p).contains(c.span),
        !is_pure(p),
{
    match p.node {
        PremKind::Let(lp) => lemma_calls_complete(c, lp.exp_r),
        PremKind::Debug(ip) => lemma_calls_complete(c, ip.exp),
        _ => {},
    }
}

/// Every premise applying a relation or testing a condition is impure at
/// its own location.
pub proof fn lemma_condition_impure(p: Prem)
    requires
        p.node is Rule || p.node is If || p.node is IfHold || p.node is IfNotHold,
    ensures
        impure_spans(p).contains(p.span),
        !is_pure(p),
{
    assert(impure_spans(p).contains(p.span));
    assert(!Set::<Span>::empty().contains(p.span));
}

/// A call occurring in `e` stands at `sp`.
pub open spec fn call_at(sp: Span, e: Exp) -> bool {
    exists|c: Exp| #[trigger] occurs(c, e) && c.node is Call && c.span == sp
}

/// Each location among an expression's calls is that of a call occurring
/// in it: none is made up.
pub proof fn lemma_calls_sound(e: Exp, sp: Span)
    requires
        exp_calls(e).contains(sp),
    ensures
        call_at(sp, e),
    decreases e,
{
    match e.node {
        ExpKind::Bool(_) | ExpKind::Num(_) | ExpKind::Text(_) | ExpKind::Var(_) => {},
        ExpKind::Un(_, _, x) => { lemma_calls_sound(*x, sp); lemma_call_up(sp, *x, e); },
        ExpKind::UpCast(_, x) => { lemma_calls_sound(*x, sp); lemma_call_up(sp, *x, e); },
        ExpKind::DownCast(_, x) => { lemma_calls_sound(*x, sp); lemma_call_up(sp, *x, e); },
        ExpKind::Sub(x, _) => { lemma_calls_sound(*x, sp); lemma_call_up(sp, *x, e); },
        ExpKind::Match(x, _) => { lemma_calls_sound(*x, sp); lemma_call_up(sp, *x, e); },
        ExpKind::Len(x) => { lemma_calls_sound(*x, sp); lemma_call_up(sp, *x, e); },
        ExpKind::Dot(x, _) => { lemma_calls_sound(*x, sp); lemma_call_up(sp, *x, e); },
        ExpKind::Iter(x, _) => { lemma_calls_sound(*x, sp); lemma_call_up(sp, *x, e); },
        ExpKind::Bin(_, _, l, r) => if exp_calls(*l).contains(sp) { lemma_calls_sound(*l, sp); lemma_call_up(sp, *l, e); }
            else { lemma_calls_sound(*r, sp); lemma_call_up(sp, *r, e); },
        ExpKind::Cmp(_, _, l, r) => if exp_calls(*l).contains(sp) { lemma_calls_sound(*l, sp); lemma_call_up(sp, *l, e); }
            else { lemma_calls_sound(*r, sp); lemma_call_up(sp, *r, e); },
        ExpKind::Cons(l, r) => if exp_calls(*l).contains(sp) { lemma_calls_sound(*l, sp); lemma_call_up(sp, *l, e); }
            else { lemma_calls_sound(*r, sp); lemma_call_up(sp, *r, e); },
        ExpKind::Cat(l, r) => if exp_calls(*l).contains(sp) { lemma_calls_sound(*l, sp); lemma_call_up(sp, *l, e); }
            else { lemma_calls_sound(*r, sp); lemma_call_up(sp, *r, e); },
        ExpKind::Mem(l, r) => if exp_calls(*l).contains(sp) { lemma_calls_sound(*l, sp); lemma_call_up(sp, *l, e); }
            else { lemma_calls_sound(*r, sp); lemma_call_up(sp, *r, e); },
        ExpKind::Idx(l, r) => if exp_calls(*l).contains(sp) { lemma_calls_sound(*l, sp); lemma_call_up(sp, *l, e); }
            else { lemma_calls_sound(*r, sp); lemma_call_up(sp, *r, e); },
        ExpKind::Tuple(es) => lemma_calls_sound_exps(es@, sp, e),
        ExpKind::List(es) => lemma_calls_sound_exps(es@, sp, e),
        ExpKind::Case(ne) => lemma_calls_sound_exps(ne.args@, sp, e),
        ExpKind::Str(fs) => lemma_calls_sound_fields(fs@, sp, e),
        ExpKind::Opt(o) => match o {
            Some(x) => { lemma_calls_sound(*x, sp); lemma_call_up(sp, *x, e); },
            None => {},
        },
        ExpKind::Slice(b, l, h) => {
            if exp_calls(*b).contains(sp) { lemma_calls_sound(*b, sp); lemma_call_up(sp, *b, e); }
            else if exp_calls(*l).contains(sp) { lemma_calls_sound(*l, sp); lemma_call_up(sp, *l, e); }
            else { lemma_calls_sound(*h, sp); lemma_call_up(sp, *h, e); }
        },
        ExpKind::Upd(b, p, f) => {
            if exp_calls(*b).contains(sp) { lemma_calls_sound(*b, sp); lemma_call_up(sp, *b, e); }
            else if path_calls(p).contains(sp) { lemma_calls_sound_path(p, sp, e); }
            else { lemma_calls_sound(*f, sp); lemma_call_up(sp, *f, e); }
        },
        ExpKind::Call(_, _, args) => {
            if sp == e.span {
                assert(occurs(e, e));
            } else {
                lemma_calls_sound_args(args@, sp, e);
            }
        },
    }
}

/// A call in a part is a call in the whole.
proof fn lemma_call_up(sp: Span, x: Exp, e: Exp)
    requires
        call_at(sp, x),
        forall|v: Exp| occurs(v, x) ==> #[trigger] occurs(v, e),
    ensures
        call_at(sp, e),
{
    let c = choose|c: Exp| #[trigger] occurs(c, x) && c.node is Call && c.span == sp;
    assert(occurs(c, e));
}

/// Calls of a list of expressions, part of `e`, are calls in `e`.
proof fn lemma_calls_sound_exps(es: Seq<Exp>, sp: Span, e: Exp)
    requires
        exps_calls(es).contains(sp),
        forall|v: Exp| occurs_in(v, es) ==> #[trigger] occurs(v, e),
    ensures
        call_at(sp, e),
    decreases es,
{
    if es.len() > 0 {
        if exps_calls(es.drop_last()).contains(sp) {
            assert forall|v: Exp| occurs_in(v, es.drop_last()) implies #[trigger] occurs(v, e) by {
                assert(occurs_in(v, es));
            }
            lemma_calls_sound_exps(es.drop_last(), sp, e);
        } else {
            lemma_calls_sound(es.last(), sp);
            let c = choose|c: Exp| #[trigger] occurs(c, es.last()) && c.node is Call && c.span == sp;
            assert(occurs_in(c, es));
            assert(occurs(c, e));
        }
    }
}

/// Calls of fields, part of `e`, are calls in `e`.
proof fn lemma_calls_sound_fields(fs: Seq<ExpField>, sp: Span, e: Exp)
    requires
        fields_calls(fs).contains(sp),
        forall|v: Exp| occurs_in_fields(v, fs) ==> #[trigger] occurs(v, e),
    ensures
        call_at(sp, e),
    decreases fs,
{
    if fs.len() > 0 {
        if fields_calls(fs.drop_last()).contains(sp) {
            assert forall|v: Exp| occurs_in_fields(v, fs.drop_last()) implies #[trigger] occurs(v, e) by {
                assert(occurs_in_fields(v, fs));
            }
            lemma_calls_sound_fields(fs.drop_last(), sp, e);
        } else {
            lemma_calls_sound(fs.last().exp, sp);
            let c = choose|c: Exp| #[trigger] occurs(c, fs.last().exp) && c.node is Call && c.span == sp;
            assert(occurs_in_fields(c, fs));
            assert(occurs(c, e));
        }
    }
}

/// Calls of an update path, part of `e`, are calls in `e`.
proof fn lemma_calls_sound_path(p: Path, sp: Span, e: Exp)
    requires
        path_calls(p).contains(sp),
        forall|v: Exp| occurs_in_path(v, p) ==> #[trigger] occurs(v, e),
    ensures
        call_at(sp, e),
    decreases p,
{
    match p.node {
        PathKind::Root => {},
        PathKind::Idx(q, x) => {
            if path_calls(*q).contains(sp) {
                assert forall|v: Exp| occurs_in_path(v, *q) implies #[trigger] occurs(v, e) by {
                    assert(occurs_in_path(v, p));
                }
                lemma_calls_sound_path(*q, sp, e);
            } else {
                lemma_calls_sound(*x, sp);
                let c = choose|c: Exp| #[trigger] occurs(c, *x) && c.node is Call && c.span == sp;
                assert(occurs_in_path(c, p));
                assert(occurs(c, e));
            }
        },
        PathKind::Slice(q, l, h) => {
            if path_calls(*q).contains(sp) {
                assert forall|v: Exp| occurs_in_path(v, *q) implies #[trigger] occurs(v, e) by {
                    assert(occurs_in_path(v, p));
                }
                lemma_calls_sound_path(*q, sp, e);
            } else if exp_calls(*l).contains(sp) {
                lemma_calls_sound(*l, sp);
                let c = choose|c: Exp| #[trigger] occurs(c, *l) && c.node is Call && c.span == sp;
                assert(occurs_in_path(c, p));
                assert(occurs(c, e));
            } else {
                lemma_calls_sound(*h, sp);
                let c = choose|c: Exp| #[trigger] occurs(c, *h) && c.node is Call && c.span == sp;
                assert(occurs_in_path(c, p));
                assert(occurs(c, e));
            }
        },
        PathKind::Dot(q, _) => {
            assert forall|v: Exp| occurs_in_path(v, *q) implies #[trigger] occurs(v, e) by {
                assert(occurs_in_path(v, p));
            }
            lemma_calls_sound_path(*q, sp, e);
        },
    }
}

/// Calls of call arguments, part of `e`, are calls in `e`.
proof fn lemma_calls_sound_args(args: Seq<Arg>, sp: Span, e: Exp)
    requires
        args_calls(args).contains(sp),
        forall|v: Exp| occurs_in_args(v, args) ==> #[trigger] occurs(v, e),
    ensures
        call_at(sp, e),
    decreases args,
{
    if args.len() > 0 {
        if args_calls(args.drop_last()).contains(sp) {
            assert forall|v: Exp| occurs_in_args(v, args.drop_last()) implies #[trigger] occurs(v, e) by {
                assert(occurs_in_args(v, args));
            }
            lemma_calls_sound_args(args.drop_last(), sp, e);
        } else {
            match args.last().node {
                ArgKind::Exp(x) => {
                    lemma_calls_sound(*x, sp);
                    let c = choose|c: Exp| #[trigger] occurs(c, *x) && c.node is Call && c.span == sp;
                    assert(occurs_in_args(c, args));
                    assert(occurs(c, e));
                },
                ArgKind::Def(_) => {},
            }
        }
    }
}

/// The locations among an expression's calls are exactly those of the
/// calls occurring in it.
pub proof fn lemma_calls_exact(e: Exp, sp: Span)
    ensures
        exp_calls(e).contains(sp) <==> call_at(sp, e),
{
    if exp_calls(e).contains(sp) {
        lemma_calls_sound(e, sp);
    }
    if call_at(sp, e) {
        let c = choose|c: Exp| #[trigger] occurs(c, e) && c.node is Call && c.span == sp;
        lemma_calls_complete(c, e);
    }
}

} // verus!
