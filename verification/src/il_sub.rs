//! Subexpressions: which expressions occur inside an expression, through
//! every kind of node, call arguments, structure fields and update paths
//! included.

use vstd::prelude::*;
use crate::il::{Arg, ArgKind, ArgV, Exp, ExpField, ExpKind, ExpKindV, ExpV, Path, PathKind, PathV};

verus! {

/// `s` occurs in `e`: it is `e` or occurs in one of its parts.
pub open spec fn occurs(s: Exp, e: Exp) -> bool
    decreases e,
{
    s == e || match e.node {
        ExpKind::Bool(_) | ExpKind::Num(_) | ExpKind::Text(_) | ExpKind::Var(_) => false,
        ExpKind::Un(_, _, x) => occurs(s, *x),
        ExpKind::UpCast(_, x) => occurs(s, *x),
        ExpKind::DownCast(_, x) => occurs(s, *x),
        ExpKind::Sub(x, _) => occurs(s, *x),
        ExpKind::Match(x, _) => occurs(s, *x),
        ExpKind::Len(x) => occurs(s, *x),
        ExpKind::Dot(x, _) => occurs(s, *x),
        ExpKind::Iter(x, _) => occurs(s, *x),
        ExpKind::Bin(_, _, l, r) => occurs(s, *l) || occurs(s, *r),
        ExpKind::Cmp(_, _, l, r) => occurs(s, *l) || occurs(s, *r),
        ExpKind::Cons(l, r) => occurs(s, *l) || occurs(s, *r),
        ExpKind::Cat(l, r) => occurs(s, *l) || occurs(s, *r),
        ExpKind::Mem(l, r) => occurs(s, *l) || occurs(s, *r),
        ExpKind::Idx(l, r) => occurs(s, *l) || occurs(s, *r),
        ExpKind::Tuple(es) => occurs_in(s, es@),
        ExpKind::List(es) => occurs_in(s, es@),
        ExpKind::Case(n) => occurs_in(s, n.args@),
        ExpKind::Str(fs) => occurs_in_fields(s, fs@),
        ExpKind::Opt(o) => match o {
            Some(x) => occurs(s, *x),
            None => false,
        },
        ExpKind::Slice(b, l, h) => occurs(s, *b) || occurs(s, *l) || occurs(s, *h),
        ExpKind::Upd(b, p, f) => occurs(s, *b) || occurs_in_path(s, p) || occurs(s, *f),
        ExpKind::Call(_, _, args) => occurs_in_args(s, args@),
    }
}

/// `s` occurs in one of `es`.
pub open spec fn occurs_in(s: Exp, es: Seq<Exp>) -> bool
    decreases es,
{
    es.len() > 0 && (occurs_in(s, es.drop_last()) || occurs(s, es.last()))
}

/// `s` occurs in one of the fields `fs`.
pub open spec fn occurs_in_fields(s: Exp, fs: Seq<ExpField>) -> bool
    decreases fs,
{
    fs.len() > 0 && (occurs_in_fields(s, fs.drop_last()) || occurs(s, fs.last().exp))
}

/// `s` occurs in an expression of the update path `p`.
pub open spec fn occurs_in_path(s: Exp, p: Path) -> bool
    decreases p,
{
    match p.node {
        PathKind::Root => false,
        PathKind::Idx(q, x) => occurs_in_path(s, *q) || occurs(s, *x),
        PathKind::Slice(q, l, h) => occurs_in_path(s, *q) || occurs(s, *l) || occurs(s, *h),
        PathKind::Dot(q, _) => occurs_in_path(s, *q),
    }
}

/// `s` occurs in one of the expression arguments `args`.
pub open spec fn occurs_in_args(s: Exp, args: Seq<Arg>) -> bool
    decreases args,
{
    args.len() > 0 && (occurs_in_args(s, args.drop_last()) || match args.last().node {
        ArgKind::Exp(x) => occurs(s, *x),
        ArgKind::Def(_) => false,
    })
}

/// `s` occurs in the expression view `e` outside every iteration: it is
/// `e` or occurs so in one of its parts, an iterated expression's body
/// excepted.
pub open spec fn occurs_flat(s: ExpV, e: ExpV) -> bool
    decreases e,
{
    s == e || match e.node {
        ExpKindV::Bool(_) | ExpKindV::Num(_) | ExpKindV::Text(_) | ExpKindV::Var(_) => false,
        ExpKindV::Un(_, _, x) => occurs_flat(s, *x),
        ExpKindV::UpCast(_, x) => occurs_flat(s, *x),
        ExpKindV::DownCast(_, x) => occurs_flat(s, *x),
        ExpKindV::Sub(x, _) => occurs_flat(s, *x),
        ExpKindV::Match(x, _) => occurs_flat(s, *x),
        ExpKindV::Len(x) => occurs_flat(s, *x),
        ExpKindV::Dot(x, _) => occurs_flat(s, *x),
        ExpKindV::Iter(_, _, _) => false,
        ExpKindV::Bin(_, _, l, r) => occurs_flat(s, *l) || occurs_flat(s, *r),
        ExpKindV::Cmp(_, _, l, r) => occurs_flat(s, *l) || occurs_flat(s, *r),
        ExpKindV::Cons(l, r) => occurs_flat(s, *l) || occurs_flat(s, *r),
        ExpKindV::Cat(l, r) => occurs_flat(s, *l) || occurs_flat(s, *r),
        ExpKindV::Mem(l, r) => occurs_flat(s, *l) || occurs_flat(s, *r),
        ExpKindV::Idx(l, r) => occurs_flat(s, *l) || occurs_flat(s, *r),
        ExpKindV::Tuple(es) => occurs_flat_in(s, es),
        ExpKindV::List(es) => occurs_flat_in(s, es),
        ExpKindV::Case(_, es) => occurs_flat_in(s, es),
        ExpKindV::Str(_, es) => occurs_flat_in(s, es),
        ExpKindV::Opt(o) => match o {
            Some(x) => occurs_flat(s, *x),
            None => false,
        },
        ExpKindV::Slice(b, l, h) => occurs_flat(s, *b) || occurs_flat(s, *l) || occurs_flat(s, *h),
        ExpKindV::Upd(b, p, f) => occurs_flat(s, *b) || occurs_flat_in_path(s, p) || occurs_flat(s, *f),
        ExpKindV::Call(_, _, args) => occurs_flat_in_args(s, args),
    }
}

/// `s` occurs outside every iteration in one of `es`.
pub open spec fn occurs_flat_in(s: ExpV, es: Seq<ExpV>) -> bool
    decreases es,
{
    es.len() > 0 && (occurs_flat_in(s, es.drop_last()) || occurs_flat(s, es.last()))
}

/// `s` occurs outside every iteration in an expression of the path `p`.
pub open spec fn occurs_flat_in_path(s: ExpV, p: PathV) -> bool
    decreases p,
{
    match p {
        PathV::Root => false,
        PathV::Idx(q, x) => occurs_flat_in_path(s, *q) || occurs_flat(s, *x),
        PathV::Slice(q, l, h) => occurs_flat_in_path(s, *q) || occurs_flat(s, *l) || occurs_flat(s, *h),
        PathV::Dot(q, _) => occurs_flat_in_path(s, *q),
    }
}

/// `s` occurs outside every iteration in one of the expression arguments.
pub open spec fn occurs_flat_in_args(s: ExpV, args: Seq<ArgV>) -> bool
    decreases args,
{
    args.len() > 0 && (occurs_flat_in_args(s, args.drop_last()) || match args.last() {
        ArgV::Exp(x) => occurs_flat(s, *x),
        ArgV::Def(_) => false,
    })
}

} // verus!
