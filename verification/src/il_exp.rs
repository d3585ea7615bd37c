//! Copies and syntactic equality of expressions.

use vstd::prelude::*;
use crate::il::{
    Exp, ExpKind, ExpField, ExpIter, NotExp, Path, PathKind, Arg, ArgKind, Pattern, ExpV,
    exp_view, exp_kind_view, exps_view, fields_view, fields_atoms, path_view, arg_view, args_view,
    pattern_view, mixop_view, typ_view, typs_view, vars_view, typ_kind_view,
};
use crate::il_typ::{clone_id, clone_typ, clone_typ_kind, clone_typs, clone_vars, clone_mixop, typ_eq, typ_kind_eq, typs_eq, mixop_eq, lemma_typs_view};

verus! {

impl View for Exp {
    type V = ExpV;

    open spec fn view(&self) -> ExpV {
        exp_view(*self)
    }
}

pub proof fn lemma_exps_view(es: Seq<Exp>)
    ensures
        exps_view(es).len() == es.len(),
        forall|i: int| 0 <= i < es.len() ==> #[trigger] exps_view(es)[i] == exp_view(es[i]),
    decreases es.len(),
{
    if es.len() > 0 {
        lemma_exps_view(es.drop_last());
    }
}

pub proof fn lemma_exps_view_push(es: Seq<Exp>, e: Exp)
    ensures
        exps_view(es.push(e)) == exps_view(es).push(exp_view(e)),
{
    assert(es.push(e).drop_last() =~= es);
}

pub proof fn lemma_fields_view(fs: Seq<ExpField>)
    ensures
        fields_view(fs).len() == fs.len(),
        forall|i: int| 0 <= i < fs.len() ==> #[trigger] fields_view(fs)[i] == exp_view(fs[i].exp),
    decreases fs.len(),
{
    if fs.len() > 0 {
        lemma_fields_view(fs.drop_last());
    }
}

pub proof fn lemma_args_view(args: Seq<Arg>)
    ensures
        args_view(args).len() == args.len(),
        forall|i: int| 0 <= i < args.len() ==> #[trigger] args_view(args)[i] == arg_view(args[i]),
    decreases args.len(),
{
    if args.len() > 0 {
        lemma_args_view(args.drop_last());
    }
}

// == Copies

/// Copies an expression.
pub fn clone_exp(e: &Exp) -> (res: Exp)
    ensures
        exp_view(res) == exp_view(*e),
        res.span == e.span,
    decreases e,
{
    Exp { node: clone_exp_kind(&e.node), note: clone_typ_kind(&e.note), span: e.span }
}

/// Copies an expression node.
pub fn clone_exp_kind(k: &ExpKind) -> (res: ExpKind)
    ensures
        exp_kind_view(res) == exp_kind_view(*k),
    decreases k,
{
    match k {
        ExpKind::Bool(b) => ExpKind::Bool(*b),
        ExpKind::Num(n) => ExpKind::Num(*n),
        ExpKind::Text(t) => ExpKind::Text(t.clone()),
        ExpKind::Var(id) => ExpKind::Var(clone_id(id)),
        ExpKind::Un(op, ot, e) => ExpKind::Un(*op, *ot, Box::new(clone_exp(e))),
        ExpKind::Bin(op, ot, l, r) => ExpKind::Bin(*op, *ot, Box::new(clone_exp(l)), Box::new(clone_exp(r))),
        ExpKind::Cmp(op, ot, l, r) => ExpKind::Cmp(*op, *ot, Box::new(clone_exp(l)), Box::new(clone_exp(r))),
        ExpKind::UpCast(t, e) => ExpKind::UpCast(clone_typ(t), Box::new(clone_exp(e))),
        ExpKind::DownCast(t, e) => ExpKind::DownCast(clone_typ(t), Box::new(clone_exp(e))),
        ExpKind::Sub(e, t) => ExpKind::Sub(Box::new(clone_exp(e)), clone_typ(t)),
        ExpKind::Match(e, p) => ExpKind::Match(Box::new(clone_exp(e)), clone_pattern(p)),
        ExpKind::Tuple(es) => ExpKind::Tuple(clone_exps(es)),
        ExpKind::Case(n) => ExpKind::Case(NotExp { mixop: clone_mixop(&n.mixop), args: clone_exps(&n.args) }),
        ExpKind::Str(fs) => ExpKind::Str(clone_fields(fs)),
        ExpKind::Opt(o) => match o {
            Some(e) => ExpKind::Opt(Some(Box::new(clone_exp(e)))),
            None => ExpKind::Opt(None),
        },
        ExpKind::List(es) => ExpKind::List(clone_exps(es)),
        ExpKind::Cons(l, r) => ExpKind::Cons(Box::new(clone_exp(l)), Box::new(clone_exp(r))),
        ExpKind::Cat(l, r) => ExpKind::Cat(Box::new(clone_exp(l)), Box::new(clone_exp(r))),
        ExpKind::Mem(l, r) => ExpKind::Mem(Box::new(clone_exp(l)), Box::new(clone_exp(r))),
        ExpKind::Len(e) => ExpKind::Len(Box::new(clone_exp(e))),
        ExpKind::Dot(e, a) => ExpKind::Dot(Box::new(clone_exp(e)), a.clone()),
        ExpKind::Idx(l, r) => ExpKind::Idx(Box::new(clone_exp(l)), Box::new(clone_exp(r))),
        ExpKind::Slice(b, l, h) => ExpKind::Slice(Box::new(clone_exp(b)), Box::new(clone_exp(l)), Box::new(clone_exp(h))),
        ExpKind::Upd(b, p, f) => ExpKind::Upd(Box::new(clone_exp(b)), clone_path(p), Box::new(clone_exp(f))),
        ExpKind::Call(id, targs, args) => ExpKind::Call(clone_id(id), clone_typs(targs), clone_args(args)),
        ExpKind::Iter(e, it) => ExpKind::Iter(Box::new(clone_exp(e)), ExpIter { iter: it.iter, vars: clone_vars(&it.vars) }),
    }
}

/// Copies a pattern.
pub fn clone_pattern(p: &Pattern) -> (res: Pattern)
    ensures
        pattern_view(res) == pattern_view(*p),
{
    match p {
        Pattern::Case(m) => Pattern::Case(clone_mixop(m)),
        Pattern::Opt(o) => Pattern::Opt(*o),
        Pattern::List(l) => Pattern::List(*l),
    }
}

/// Copies a list of expressions.
#[verifier::loop_isolation(false)]
pub fn clone_exps(es: &Vec<Exp>) -> (res: Vec<Exp>)
    ensures
        exps_view(res@) == exps_view(es@),
    decreases es,
{
    let mut res: Vec<Exp> = Vec::new();
    for i in 0..es.len()
        invariant
            exps_view(res@) == exps_view(es@.take(i as int)),
    {
        proof {
            assert(decreases_to!(es => es[i as int]));
        }
        let e = clone_exp(&es[i]);
        proof {
            lemma_exps_view_push(res@, e);
            assert(es@.take(i + 1).drop_last() =~= es@.take(i as int));
        }
        res.push(e);
    }
    assert(es@.take(es.len() as int) =~= es@);
    res
}

/// Copies a list of record fields.
#[verifier::loop_isolation(false)]
pub fn clone_fields(fs: &Vec<ExpField>) -> (res: Vec<ExpField>)
    ensures
        fields_view(res@) == fields_view(fs@),
        fields_atoms(res@) == fields_atoms(fs@),
    decreases fs,
{
    let mut res: Vec<ExpField> = Vec::new();
    for i in 0..fs.len()
        invariant
            fields_view(res@) == fields_view(fs@.take(i as int)),
            fields_atoms(res@) == fields_atoms(fs@.take(i as int)),
    {
        proof {
            assert(decreases_to!(fs => fs[i as int]));
            assert(decreases_to!(fs[i as int] => fs[i as int].exp));
        }
        let f = ExpField { atom: fs[i].atom.clone(), exp: clone_exp(&fs[i].exp) };
        let ghost r0 = res@;
        res.push(f);
        proof {
            assert(res@.drop_last() =~= r0);
            assert(fs@.take(i + 1).drop_last() =~= fs@.take(i as int));
            assert(fields_atoms(r0).len() == i);
            assert forall|j: int| 0 <= j < i implies #[trigger] fields_atoms(res@)[j] == fields_atoms(fs@.take(i + 1))[j] by {
                assert(fields_atoms(r0)[j] == fields_atoms(fs@.take(i as int))[j]);
            }
            assert(fields_atoms(res@) =~= fields_atoms(fs@.take(i + 1)));
        }
    }
    assert(fs@.take(fs.len() as int) =~= fs@);
    res
}

/// Copies an update path.
pub fn clone_path(p: &Path) -> (res: Path)
    ensures
        path_view(res) == path_view(*p),
    decreases p,
{
    let node = match &p.node {
        PathKind::Root => PathKind::Root,
        PathKind::Idx(q, e) => PathKind::Idx(Box::new(clone_path(q)), Box::new(clone_exp(e))),
        PathKind::Slice(q, l, h) => PathKind::Slice(Box::new(clone_path(q)), Box::new(clone_exp(l)), Box::new(clone_exp(h))),
        PathKind::Dot(q, a) => PathKind::Dot(Box::new(clone_path(q)), a.clone()),
    };
    Path { node, span: p.span }
}

/// Copies an argument.
pub fn clone_arg(a: &Arg) -> (res: Arg)
    ensures
        arg_view(res) == arg_view(*a),
        res.span == a.span,
    decreases a,
{
    let node = match &a.node {
        ArgKind::Exp(e) => ArgKind::Exp(Box::new(clone_exp(e))),
        ArgKind::Def(id) => ArgKind::Def(clone_id(id)),
    };
    Arg { node, span: a.span }
}

/// Copies a list of arguments.
#[verifier::loop_isolation(false)]
pub fn clone_args(args: &Vec<Arg>) -> (res: Vec<Arg>)
    ensures
        args_view(res@) == args_view(args@),
    decreases args,
{
    let mut res: Vec<Arg> = Vec::new();
    for i in 0..args.len()
        invariant
            args_view(res@) == args_view(args@.take(i as int)),
    {
        proof {
            assert(decreases_to!(args => args[i as int]));
        }
        let a = clone_arg(&args[i]);
        let ghost r0 = res@;
        res.push(a);
        proof {
            assert(res@.drop_last() =~= r0);
            assert(args@.take(i + 1).drop_last() =~= args@.take(i as int));
        }
    }
    assert(args@.take(args.len() as int) =~= args@);
    res
}

// == Syntactic equality

/// Whether two expressions are equal up to locations.
pub fn exp_eq(a: &Exp, b: &Exp) -> (r: bool)
    ensures
        r == (exp_view(*a) == exp_view(*b)),
    decreases a,
{
    typ_kind_eq(&a.note, &b.note) && exp_kind_eq(&a.node, &b.node)
}

/// Whether two patterns are equal.
pub fn pattern_eq(a: &Pattern, b: &Pattern) -> (r: bool)
    ensures
        r == (pattern_view(*a) == pattern_view(*b)),
{
    match (a, b) {
        (Pattern::Case(x), Pattern::Case(y)) => mixop_eq(x, y),
        (Pattern::Opt(x), Pattern::Opt(y)) => *x == *y,
        (Pattern::List(x), Pattern::List(y)) => *x == *y,
        _ => false,
    }
}

/// Whether two lists of binders are equal up to locations.
pub fn vars_eq(xs: &Vec<crate::il::Var>, ys: &Vec<crate::il::Var>) -> (r: bool)
    ensures
        r == (vars_view(xs@) == vars_view(ys@)),
{
    if xs.len() != ys.len() {
        assert(vars_view(xs@).len() != vars_view(ys@).len());
        return false;
    }
    for i in 0..xs.len()
        invariant
            xs.len() == ys.len(),
            forall|j: int| 0 <= j < i ==> vars_view(xs@)[j] == vars_view(ys@)[j],
    {
        let x = &xs[i];
        let y = &ys[i];
        if !(x.id.node == y.id.node && typ_eq(&x.typ, &y.typ) && x.iters.len() == y.iters.len()) {
            assert(vars_view(xs@)[i as int] != vars_view(ys@)[i as int]);
            return false;
        }
        for k in 0..x.iters.len()
            invariant
                x.iters.len() == y.iters.len(),
                0 <= i < xs.len() == ys.len(),
                *x == xs@[i as int],
                *y == ys@[i as int],
                forall|m: int| 0 <= m < k ==> x.iters@[m] == y.iters@[m],
        {
            if x.iters[k] != y.iters[k] {
                assert(x.iters@ != y.iters@);
                assert(vars_view(xs@)[i as int] != vars_view(ys@)[i as int]);
                return false;
            }
        }
        assert(x.iters@ =~= y.iters@);
    }
    assert(vars_view(xs@) =~= vars_view(ys@));
    true
}

/// Whether two expression nodes are equal up to locations.
pub fn exp_kind_eq(a: &ExpKind, b: &ExpKind) -> (r: bool)
    ensures
        r == (exp_kind_view(*a) == exp_kind_view(*b)),
    decreases a,
{
    match (a, b) {
        (ExpKind::Bool(x), ExpKind::Bool(y)) => *x == *y,
        (ExpKind::Num(x), ExpKind::Num(y)) => *x == *y,
        (ExpKind::Text(x), ExpKind::Text(y)) => *x == *y,
        (ExpKind::Var(x), ExpKind::Var(y)) => x.node == y.node,
        (ExpKind::Un(o1, t1, x), ExpKind::Un(o2, t2, y)) => *o1 == *o2 && *t1 == *t2 && exp_eq(x, y),
        (ExpKind::Bin(o1, t1, x1, x2), ExpKind::Bin(o2, t2, y1, y2)) =>
            *o1 == *o2 && *t1 == *t2 && exp_eq(x1, y1) && exp_eq(x2, y2),
        (ExpKind::Cmp(o1, t1, x1, x2), ExpKind::Cmp(o2, t2, y1, y2)) =>
            *o1 == *o2 && *t1 == *t2 && exp_eq(x1, y1) && exp_eq(x2, y2),
        (ExpKind::UpCast(t1, x), ExpKind::UpCast(t2, y)) => typ_eq(t1, t2) && exp_eq(x, y),
        (ExpKind::DownCast(t1, x), ExpKind::DownCast(t2, y)) => typ_eq(t1, t2) && exp_eq(x, y),
        (ExpKind::Sub(x, t1), ExpKind::Sub(y, t2)) => exp_eq(x, y) && typ_eq(t1, t2),
        (ExpKind::Match(x, p1), ExpKind::Match(y, p2)) => exp_eq(x, y) && pattern_eq(p1, p2),
        (ExpKind::Tuple(xs), ExpKind::Tuple(ys)) => exps_eq(xs, ys),
        (ExpKind::Case(n1), ExpKind::Case(n2)) => mixop_eq(&n1.mixop, &n2.mixop) && exps_eq(&n1.args, &n2.args),
        (ExpKind::Str(f1), ExpKind::Str(f2)) => fields_eq(f1, f2),
        (ExpKind::Opt(o1), ExpKind::Opt(o2)) => match (o1, o2) {
            (Some(x), Some(y)) => exp_eq(x, y),
            (None, None) => true,
            _ => false,
        },
        (ExpKind::List(xs), ExpKind::List(ys)) => exps_eq(xs, ys),
        (ExpKind::Cons(x1, x2), ExpKind::Cons(y1, y2)) => exp_eq(x1, y1) && exp_eq(x2, y2),
        (ExpKind::Cat(x1, x2), ExpKind::Cat(y1, y2)) => exp_eq(x1, y1) && exp_eq(x2, y2),
        (ExpKind::Mem(x1, x2), ExpKind::Mem(y1, y2)) => exp_eq(x1, y1) && exp_eq(x2, y2),
        (ExpKind::Len(x), ExpKind::Len(y)) => exp_eq(x, y),
        (ExpKind::Dot(x, a1), ExpKind::Dot(y, a2)) => exp_eq(x, y) && *a1 == *a2,
        (ExpKind::Idx(x1, x2), ExpKind::Idx(y1, y2)) => exp_eq(x1, y1) && exp_eq(x2, y2),
        (ExpKind::Slice(x1, x2, x3), ExpKind::Slice(y1, y2, y3)) =>
            exp_eq(x1, y1) && exp_eq(x2, y2) && exp_eq(x3, y3),
        (ExpKind::Upd(x1, p1, x2), ExpKind::Upd(y1, p2, y2)) =>
            exp_eq(x1, y1) && path_eq(p1, p2) && exp_eq(x2, y2),
        (ExpKind::Call(i1, t1, a1), ExpKind::Call(i2, t2, a2)) =>
            i1.node == i2.node && typs_eq(t1, t2) && args_eq(a1, a2),
        (ExpKind::Iter(x, it1), ExpKind::Iter(y, it2)) =>
            exp_eq(x, y) && it1.iter == it2.iter && vars_eq(&it1.vars, &it2.vars),
        _ => false,
    }
}

/// Whether two lists of expressions are equal up to locations.
#[verifier::loop_isolation(false)]
pub fn exps_eq(xs: &Vec<Exp>, ys: &Vec<Exp>) -> (r: bool)
    ensures
        r == (exps_view(xs@) == exps_view(ys@)),
    decreases xs,
{
    proof {
        lemma_exps_view(xs@);
        lemma_exps_view(ys@);
    }
    if xs.len() != ys.len() {
        return false;
    }
    for i in 0..xs.len()
        invariant
            forall|j: int| 0 <= j < i ==> exp_view(xs@[j]) == exp_view(ys@[j]),
    {
        proof {
            assert(decreases_to!(xs => xs[i as int]));
        }
        if !exp_eq(&xs[i], &ys[i]) {
            assert(exps_view(xs@)[i as int] != exps_view(ys@)[i as int]);
            return false;
        }
    }
    assert(exps_view(xs@) =~= exps_view(ys@));
    true
}

/// Whether two lists of record fields are equal up to locations.
#[verifier::loop_isolation(false)]
pub fn fields_eq(xs: &Vec<ExpField>, ys: &Vec<ExpField>) -> (r: bool)
    ensures
        r == (fields_atoms(xs@) == fields_atoms(ys@) && fields_view(xs@) == fields_view(ys@)),
    decreases xs,
{
    proof {
        lemma_fields_view(xs@);
        lemma_fields_view(ys@);
    }
    if xs.len() != ys.len() {
        assert(fields_atoms(xs@).len() != fields_atoms(ys@).len());
        return false;
    }
    for i in 0..xs.len()
        invariant
            forall|j: int| 0 <= j < i ==> exp_view(xs@[j].exp) == exp_view(ys@[j].exp) && xs@[j].atom@ == ys@[j].atom@,
    {
        proof {
            assert(decreases_to!(xs => xs[i as int]));
            assert(decreases_to!(xs[i as int] => xs[i as int].exp));
        }
        if xs[i].atom != ys[i].atom {
            assert(fields_atoms(xs@)[i as int] != fields_atoms(ys@)[i as int]);
            return false;
        }
        if !exp_eq(&xs[i].exp, &ys[i].exp) {
            assert(fields_view(xs@)[i as int] != fields_view(ys@)[i as int]);
            return false;
        }
    }
    assert(fields_view(xs@) =~= fields_view(ys@));
    assert(fields_atoms(xs@) =~= fields_atoms(ys@));
    true
}

/// Whether two update paths are equal up to locations.
pub fn path_eq(a: &Path, b: &Path) -> (r: bool)
    ensures
        r == (path_view(*a) == path_view(*b)),
    decreases a,
{
    match (&a.node, &b.node) {
        (PathKind::Root, PathKind::Root) => true,
        (PathKind::Idx(p, x), PathKind::Idx(q, y)) => path_eq(p, q) && exp_eq(x, y),
        (PathKind::Slice(p, x1, x2), PathKind::Slice(q, y1, y2)) => path_eq(p, q) && exp_eq(x1, y1) && exp_eq(x2, y2),
        (PathKind::Dot(p, x), PathKind::Dot(q, y)) => path_eq(p, q) && *x == *y,
        _ => false,
    }
}

/// Whether two arguments are equal up to locations.
pub fn arg_eq(a: &Arg, b: &Arg) -> (r: bool)
    ensures
        r == (arg_view(*a) == arg_view(*b)),
    decreases a,
{
    match (&a.node, &b.node) {
        (ArgKind::Exp(x), ArgKind::Exp(y)) => exp_eq(x, y),
        (ArgKind::Def(x), ArgKind::Def(y)) => x.node == y.node,
        _ => false,
    }
}

/// Whether two lists of arguments are equal up to locations.
#[verifier::loop_isolation(false)]
pub fn args_eq(xs: &Vec<Arg>, ys: &Vec<Arg>) -> (r: bool)
    ensures
        r == (args_view(xs@) == args_view(ys@)),
    decreases xs,
{
    proof {
        lemma_args_view(xs@);
        lemma_args_view(ys@);
    }
    if xs.len() != ys.len() {
        return false;
    }
    for i in 0..xs.len()
        invariant
            forall|j: int| 0 <= j < i ==> arg_view(xs@[j]) == arg_view(ys@[j]),
    {
        proof {
            assert(decreases_to!(xs => xs[i as int]));
        }
        if !arg_eq(&xs[i], &ys[i]) {
            assert(args_view(xs@)[i as int] != args_view(ys@)[i as int]);
            return false;
        }
    }
    assert(args_view(xs@) =~= args_view(ys@));
    true
}

} // verus!
