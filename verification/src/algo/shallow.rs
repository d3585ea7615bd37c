//! Checks for shallow binding patterns.
//!
//! Shallow binders are variables, upcasts of variables or cases, and cases
//! whose arguments are variables under any number of iterations. `check_args`
//! rejects invalid shapes and repeated new binders; failures retain the
//! responsible syntax for caller-specific diagnostics.

use vstd::prelude::*;
use crate::il::{Arg, ArgKind, Exp, ExpKind, ExpField, Id};
use crate::algo::dim::VEnv;

verus! {

/// A shallow binding failure retaining its original syntax.
pub enum ShallowFailure<'a> {
    /// An argument outside the shallow pattern language.
    InvalidShape(&'a Arg),
    /// A new binder repeated after its previous occurrence.
    RepeatedBinding { id: &'a Id, id_previous: &'a Id },
}

/// A variable under any number of iterations.
pub open spec fn iterated_id(e: Exp) -> bool
    decreases e,
{
    match e.node {
        ExpKind::Var(_) => true,
        ExpKind::Iter(x, _) => iterated_id(*x),
        _ => false,
    }
}

/// A variable, an upcast of a variable or case, or a case of iterated variables.
pub open spec fn shallow_exp(e: Exp) -> bool {
    match e.node {
        ExpKind::Var(_) => true,
        ExpKind::UpCast(_, x) => x.node is Var || x.node is Case,
        ExpKind::Case(n) => forall|i: int| 0 <= i < n.args@.len() ==> #[trigger] iterated_id(n.args@[i]),
        _ => false,
    }
}

/// An expression argument that is a shallow binder.
pub open spec fn shallow_arg(a: Arg) -> bool {
    match a.node {
        ArgKind::Exp(e) => shallow_exp(*e),
        ArgKind::Def(_) => false,
    }
}

/// The new binder occurrences of a shallow pattern, left to right; names
/// already bound in `venv` are not new.
pub open spec fn fresh_occ(venv: Map<Seq<char>, crate::algo::dim::DimV>, e: Exp) -> Seq<Id>
    decreases e,
{
    match e.node {
        ExpKind::Var(id) => if venv.contains_key(id@) { Seq::empty() } else { seq![id] },
        ExpKind::UpCast(_, x) => fresh_occ(venv, *x),
        ExpKind::Iter(x, _) => fresh_occ(venv, *x),
        ExpKind::Case(n) => fresh_occ_exps(venv, n.args@),
        ExpKind::Tuple(es) => fresh_occ_exps(venv, es@),
        ExpKind::List(es) => fresh_occ_exps(venv, es@),
        ExpKind::Str(fs) => fresh_occ_fields(venv, fs@),
        ExpKind::Opt(o) => match o {
            Some(x) => fresh_occ(venv, *x),
            None => Seq::empty(),
        },
        ExpKind::Cons(l, r) => fresh_occ(venv, *l) + fresh_occ(venv, *r),
        _ => Seq::empty(),
    }
}

pub open spec fn fresh_occ_exps(venv: Map<Seq<char>, crate::algo::dim::DimV>, es: Seq<Exp>) -> Seq<Id>
    decreases es,
{
    if es.len() == 0 {
        Seq::empty()
    } else {
        fresh_occ_exps(venv, es.drop_last()) + fresh_occ(venv, es.last())
    }
}

pub open spec fn fresh_occ_fields(venv: Map<Seq<char>, crate::algo::dim::DimV>, fs: Seq<ExpField>) -> Seq<Id>
    decreases fs,
{
    if fs.len() == 0 {
        Seq::empty()
    } else {
        fresh_occ_fields(venv, fs.drop_last()) + fresh_occ(venv, fs.last().exp)
    }
}

/// The new binder occurrences of the expression arguments, left to right.
pub open spec fn fresh_occ_args(venv: Map<Seq<char>, crate::algo::dim::DimV>, args: Seq<Arg>) -> Seq<Id>
    decreases args,
{
    if args.len() == 0 {
        Seq::empty()
    } else {
        fresh_occ_args(venv, args.drop_last()) + match args.last().node {
            ArgKind::Exp(e) => fresh_occ(venv, *e),
            ArgKind::Def(_) => Seq::empty(),
        }
    }
}

/// No two identifiers share a name.
pub open spec fn names_distinct(s: Seq<Id>) -> bool {
    forall|i: int, j: int| 0 <= i < j < s.len() ==> s[i]@ != s[j]@
}

/// `id` is the first occurrence in `s` whose name occurred before, and
/// `prev` is that earlier, first occurrence: two positions `a < b` with one
/// name, and no name repeats before `b`.
pub open spec fn repeated_in(s: Seq<Id>, id: Id, prev: Id) -> bool {
    exists|a: int, b: int| 0 <= a < b < s.len() && s[a] == prev && s[b] == id && id@ == prev@
        && names_distinct(s.take(b))
}

/// The identifiers behind a list of references.
pub open spec fn derefs(s: Seq<&Id>) -> Seq<Id> {
    Seq::new(s.len(), |i: int| *s[i])
}

// Expressions

fn is_iterated_id_exp(exp: &Exp) -> (b: bool)
    ensures
        b == iterated_id(*exp),
    decreases exp,
{
    match &exp.node {
        ExpKind::Var(_) => true,
        ExpKind::Iter(x, _) => is_iterated_id_exp(x),
        _ => false,
    }
}

/// Checks whether an expression is a shallow binder.
pub fn check_exp(exp: &Exp) -> (b: bool)
    ensures
        b == shallow_exp(*exp),
{
    match &exp.node {
        ExpKind::Var(_) => true,
        ExpKind::UpCast(_, x) => match &x.node {
            ExpKind::Var(_) | ExpKind::Case(_) => true,
            _ => false,
        },
        ExpKind::Case(n) => {
            let mut ok = true;
            let mut i: usize = 0;
            while i < n.args.len()
                invariant
                    i <= n.args@.len(),
                    ok == forall|j: int| 0 <= j < i ==> #[trigger] iterated_id(n.args@[j]),
                decreases n.args@.len() - i,
            {
                if !is_iterated_id_exp(&n.args[i]) {
                    ok = false;
                }
                i = i + 1;
            }
            ok
        },
        _ => false,
    }
}

// Arguments

/// Checks whether an argument is a shallow binder; function arguments are not.
pub fn check_arg(arg: &Arg) -> (b: bool)
    ensures
        b == shallow_arg(*arg),
{
    match &arg.node {
        ArgKind::Exp(exp) => check_exp(exp),
        ArgKind::Def(_) => false,
    }
}

// Repeated binders

pub open spec fn prefix_of(a: Seq<Id>, b: Seq<Id>) -> bool {
    a.len() <= b.len() && b.take(a.len() as int) == a
}

pub proof fn lemma_repeated_prefix(a: Seq<Id>, b: Seq<Id>, id: Id, prev: Id)
    requires
        prefix_of(a, b),
        repeated_in(a, id, prev),
    ensures
        repeated_in(b, id, prev),
        !names_distinct(b),
{
    let (x, y) = choose|x: int, y: int| 0 <= x < y < a.len() && a[x] == prev && a[y] == id && id@ == prev@
        && names_distinct(a.take(y));
    assert(b.take(a.len() as int)[x] == b[x]);
    assert(b.take(a.len() as int)[y] == b[y]);
    assert(b.take(y) =~= a.take(y));
}

pub proof fn lemma_occ_exps_prefix(venv: Map<Seq<char>, crate::algo::dim::DimV>, es: Seq<Exp>, k: int)
    requires
        0 <= k <= es.len(),
    ensures
        prefix_of(fresh_occ_exps(venv, es.take(k)), fresh_occ_exps(venv, es)),
    decreases es.len(),
{
    if k == es.len() {
        assert(es.take(k) =~= es);
        assert(fresh_occ_exps(venv, es).take(fresh_occ_exps(venv, es).len() as int) =~= fresh_occ_exps(venv, es));
    } else {
        lemma_occ_exps_prefix(venv, es.drop_last(), k);
        assert(es.drop_last().take(k) =~= es.take(k));
        let a = fresh_occ_exps(venv, es.take(k));
        let b = fresh_occ_exps(venv, es.drop_last());
        assert(fresh_occ_exps(venv, es) == b + fresh_occ(venv, es.last()));
        assert((b + fresh_occ(venv, es.last())).take(a.len() as int) =~= b.take(a.len() as int));
    }
}

pub proof fn lemma_occ_fields_prefix(venv: Map<Seq<char>, crate::algo::dim::DimV>, fs: Seq<ExpField>, k: int)
    requires
        0 <= k <= fs.len(),
    ensures
        prefix_of(fresh_occ_fields(venv, fs.take(k)), fresh_occ_fields(venv, fs)),
    decreases fs.len(),
{
    if k == fs.len() {
        assert(fs.take(k) =~= fs);
        assert(fresh_occ_fields(venv, fs).take(fresh_occ_fields(venv, fs).len() as int) =~= fresh_occ_fields(venv, fs));
    } else {
        lemma_occ_fields_prefix(venv, fs.drop_last(), k);
        assert(fs.drop_last().take(k) =~= fs.take(k));
        let a = fresh_occ_fields(venv, fs.take(k));
        let b = fresh_occ_fields(venv, fs.drop_last());
        assert(fresh_occ_fields(venv, fs) == b + fresh_occ(venv, fs.last().exp));
        assert((b + fresh_occ(venv, fs.last().exp)).take(a.len() as int) =~= b.take(a.len() as int));
    }
}

pub proof fn lemma_prefix_append(s: Seq<Id>, a: Seq<Id>, b: Seq<Id>)
    requires
        prefix_of(a, b),
    ensures
        prefix_of(s + a, s + b),
{
    assert((s + b).take((s + a).len() as int) =~= s + a);
}

/// The earlier occurrence of a name among the seen binders.
fn find_seen<'a>(seen: &Vec<&'a Id>, id: &Id) -> (r: Option<&'a Id>)
    ensures
        r matches Some(p) ==> exists|i: int| 0 <= i < seen@.len() && seen@[i] == p && p@ == id@,
        r is None ==> forall|i: int| 0 <= i < seen@.len() ==> (*seen@[i])@ != id@,
{
    for i in 0..seen.len()
        invariant
            forall|j: int| 0 <= j < i ==> (*seen@[j])@ != id@,
    {
        if seen[i].node == id.node {
            return Some(seen[i]);
        }
    }
    None
}

/// Rejects the first repeated new binder in a validated shallow pattern,
/// recording the new binders it visits in `ids_seen`.
fn check_repeated_binding<'a>(venv: &VEnv, ids_seen: &mut Vec<&'a Id>, exp: &'a Exp) -> (r: Result<(), ShallowFailure<'a>>)
    requires
        venv.wf(),
        names_distinct(derefs(old(ids_seen)@)),
    ensures
        r is Ok <==> names_distinct(derefs(old(ids_seen)@) + fresh_occ(venv@, *exp)),
        r is Ok ==> derefs(final(ids_seen)@) == derefs(old(ids_seen)@) + fresh_occ(venv@, *exp),
        r matches Err(f) ==> (f matches ShallowFailure::RepeatedBinding { id, id_previous }
            && repeated_in(derefs(old(ids_seen)@) + fresh_occ(venv@, *exp), *id, *id_previous)),
    decreases exp,
{
    let ghost s0 = derefs(ids_seen@);
    match &exp.node {
        ExpKind::Var(id) => {
            if venv.contains_key(id) {
                assert(s0 + fresh_occ(venv@, *exp) =~= s0);
                return Ok(());
            }
            match find_seen(ids_seen, id) {
                Some(id_previous) => {
                    proof {
                        let i = choose|i: int| 0 <= i < ids_seen@.len() && ids_seen@[i] == id_previous && id_previous@ == id@;
                        let t = s0 + fresh_occ(venv@, *exp);
                        assert(t[i] == *id_previous);
                        assert(t[s0.len() as int] == *id);
                        assert(t.take(s0.len() as int) =~= s0);
                    }
                    return Err(ShallowFailure::RepeatedBinding { id, id_previous });
                },
                None => {
                    ids_seen.push(id);
                    proof {
                        assert(derefs(ids_seen@) =~= s0 + fresh_occ(venv@, *exp));
                        assert forall|i: int, j: int| 0 <= i < j < derefs(ids_seen@).len() implies
                            derefs(ids_seen@)[i]@ != derefs(ids_seen@)[j]@ by {
                            if j == s0.len() {
                                assert((*ids_seen@[i])@ != id@);
                            }
                        }
                    }
                    return Ok(());
                },
            }
        },
        ExpKind::UpCast(_, x) | ExpKind::Iter(x, _) => check_repeated_binding(venv, ids_seen, x),
        ExpKind::Opt(o) => match o {
            Some(x) => check_repeated_binding(venv, ids_seen, x),
            None => {
                assert(s0 + fresh_occ(venv@, *exp) =~= s0);
                Ok(())
            },
        },
        ExpKind::Case(n) => check_repeated_exps(venv, ids_seen, &n.args),
        ExpKind::Tuple(es) | ExpKind::List(es) => check_repeated_exps(venv, ids_seen, es),
        ExpKind::Str(fs) => check_repeated_fields(venv, ids_seen, fs),
        ExpKind::Cons(l, r) => {
            let rl = check_repeated_binding(venv, ids_seen, l);
            match rl {
                Err(f) => {
                    proof {
                        let a = s0 + fresh_occ(venv@, **l);
                        let b = s0 + fresh_occ(venv@, *exp);
                        assert(b =~= a + fresh_occ(venv@, **r));
                        assert(b.take(a.len() as int) =~= a);
                        assert(prefix_of(a, b));
                        if let ShallowFailure::RepeatedBinding { id, id_previous } = f {
                            lemma_repeated_prefix(a, b, *id, *id_previous);
                        }
                    }
                    return Err(f);
                },
                Ok(()) => {},
            }
            let rr = check_repeated_binding(venv, ids_seen, r);
            proof {
                assert(s0 + fresh_occ(venv@, *exp) =~= (s0 + fresh_occ(venv@, **l)) + fresh_occ(venv@, **r));
                if !names_distinct(s0 + fresh_occ(venv@, **l)) {
                    assert(false);
                }
            }
            rr
        },
        _ => {
            assert(s0 + fresh_occ(venv@, *exp) =~= s0);
            Ok(())
        },
    }
}

#[verifier::loop_isolation(false)]
fn check_repeated_exps<'a>(venv: &VEnv, ids_seen: &mut Vec<&'a Id>, es: &'a Vec<Exp>) -> (r: Result<(), ShallowFailure<'a>>)
    requires
        venv.wf(),
        names_distinct(derefs(old(ids_seen)@)),
    ensures
        r is Ok <==> names_distinct(derefs(old(ids_seen)@) + fresh_occ_exps(venv@, es@)),
        r is Ok ==> derefs(final(ids_seen)@) == derefs(old(ids_seen)@) + fresh_occ_exps(venv@, es@),
        r matches Err(f) ==> (f matches ShallowFailure::RepeatedBinding { id, id_previous }
            && repeated_in(derefs(old(ids_seen)@) + fresh_occ_exps(venv@, es@), *id, *id_previous)),
    decreases es,
{
    let ghost s0 = derefs(ids_seen@);
    proof {
        assert(es@.take(0) =~= Seq::<Exp>::empty());
        assert(s0 + fresh_occ_exps(venv@, es@.take(0)) =~= s0);
    }
    for i in 0..es.len()
        invariant
            derefs(ids_seen@) == s0 + fresh_occ_exps(venv@, es@.take(i as int)),
            names_distinct(derefs(ids_seen@)),
    {
        proof {
            assert(decreases_to!(es => es[i as int]));
            assert(es@.take(i + 1).drop_last() =~= es@.take(i as int));
            assert(s0 + fresh_occ_exps(venv@, es@.take(i + 1)) =~= derefs(ids_seen@) + fresh_occ(venv@, es@[i as int]));
            lemma_occ_exps_prefix(venv@, es@, i + 1);
            lemma_prefix_append(s0, fresh_occ_exps(venv@, es@.take(i + 1)), fresh_occ_exps(venv@, es@));
        }
        let r = check_repeated_binding(venv, ids_seen, &es[i]);
        match r {
            Err(f) => {
                proof {
                    if let ShallowFailure::RepeatedBinding { id, id_previous } = f {
                        lemma_repeated_prefix(s0 + fresh_occ_exps(venv@, es@.take(i + 1)), s0 + fresh_occ_exps(venv@, es@), *id, *id_previous);
                    }
                }
                return Err(f);
            },
            Ok(()) => {},
        }
    }
    proof {
        assert(es@.take(es@.len() as int) =~= es@);
    }
    Ok(())
}

#[verifier::loop_isolation(false)]
fn check_repeated_fields<'a>(venv: &VEnv, ids_seen: &mut Vec<&'a Id>, fs: &'a Vec<ExpField>) -> (r: Result<(), ShallowFailure<'a>>)
    requires
        venv.wf(),
        names_distinct(derefs(old(ids_seen)@)),
    ensures
        r is Ok <==> names_distinct(derefs(old(ids_seen)@) + fresh_occ_fields(venv@, fs@)),
        r is Ok ==> derefs(final(ids_seen)@) == derefs(old(ids_seen)@) + fresh_occ_fields(venv@, fs@),
        r matches Err(f) ==> (f matches ShallowFailure::RepeatedBinding { id, id_previous }
            && repeated_in(derefs(old(ids_seen)@) + fresh_occ_fields(venv@, fs@), *id, *id_previous)),
    decreases fs,
{
    let ghost s0 = derefs(ids_seen@);
    proof {
        assert(fs@.take(0) =~= Seq::<ExpField>::empty());
        assert(s0 + fresh_occ_fields(venv@, fs@.take(0)) =~= s0);
    }
    for i in 0..fs.len()
        invariant
            derefs(ids_seen@) == s0 + fresh_occ_fields(venv@, fs@.take(i as int)),
            names_distinct(derefs(ids_seen@)),
    {
        proof {
            assert(decreases_to!(fs => fs[i as int]));
            assert(decreases_to!(fs[i as int] => fs[i as int].exp));
            assert(fs@.take(i + 1).drop_last() =~= fs@.take(i as int));
            assert(s0 + fresh_occ_fields(venv@, fs@.take(i + 1)) =~= derefs(ids_seen@) + fresh_occ(venv@, fs@[i as int].exp));
            lemma_occ_fields_prefix(venv@, fs@, i + 1);
            lemma_prefix_append(s0, fresh_occ_fields(venv@, fs@.take(i + 1)), fresh_occ_fields(venv@, fs@));
        }
        let r = check_repeated_binding(venv, ids_seen, &fs[i].exp);
        match r {
            Err(f) => {
                proof {
                    if let ShallowFailure::RepeatedBinding { id, id_previous } = f {
                        lemma_repeated_prefix(s0 + fresh_occ_fields(venv@, fs@.take(i + 1)), s0 + fresh_occ_fields(venv@, fs@), *id, *id_previous);
                    }
                }
                return Err(f);
            },
            Ok(()) => {},
        }
    }
    proof {
        assert(fs@.take(fs@.len() as int) =~= fs@);
    }
    Ok(())
}

pub proof fn lemma_occ_args_prefix(venv: Map<Seq<char>, crate::algo::dim::DimV>, args: Seq<Arg>, k: int)
    requires
        0 <= k <= args.len(),
    ensures
        prefix_of(fresh_occ_args(venv, args.take(k)), fresh_occ_args(venv, args)),
    decreases args.len(),
{
    if k == args.len() {
        assert(args.take(k) =~= args);
        assert(fresh_occ_args(venv, args).take(fresh_occ_args(venv, args).len() as int) =~= fresh_occ_args(venv, args));
    } else {
        lemma_occ_args_prefix(venv, args.drop_last(), k);
        assert(args.drop_last().take(k) =~= args.take(k));
        let a = fresh_occ_args(venv, args.take(k));
        let b = fresh_occ_args(venv, args.drop_last());
        let y = match args.last().node {
            ArgKind::Exp(e) => fresh_occ(venv, *e),
            ArgKind::Def(_) => Seq::empty(),
        };
        assert(fresh_occ_args(venv, args) == b + y);
        assert((b + y).take(a.len() as int) =~= b.take(a.len() as int));
    }
}

/// Validates shallow arguments and rejects repeated new binders: the first
/// argument outside the shallow pattern language, else a repeated new binder.
pub fn check_args<'a>(venv: &VEnv, args: &'a [Arg]) -> (r: Result<(), ShallowFailure<'a>>)
    requires
        venv.wf(),
    ensures
        r is Ok <==> (forall|i: int| 0 <= i < args@.len() ==> #[trigger] shallow_arg(args@[i]))
            && names_distinct(fresh_occ_args(venv@, args@)),
        r matches Err(f) ==> match f {
            ShallowFailure::InvalidShape(a) => exists|i: int| 0 <= i < args@.len() && *a == args@[i]
                && !shallow_arg(args@[i]) && forall|j: int| 0 <= j < i ==> #[trigger] shallow_arg(args@[j]),
            ShallowFailure::RepeatedBinding { id, id_previous } =>
                (forall|i: int| 0 <= i < args@.len() ==> #[trigger] shallow_arg(args@[i]))
                && repeated_in(fresh_occ_args(venv@, args@), *id, *id_previous),
        },
{
    // Reject the first invalid shape before traversing its binders
    for i in 0..args.len()
        invariant
            forall|j: int| 0 <= j < i ==> #[trigger] shallow_arg(args@[j]),
    {
        if !check_arg(&args[i]) {
            return Err(ShallowFailure::InvalidShape(&args[i]));
        }
    }
    // Reject repeated new binders in occurrence order
    let mut ids_seen: Vec<&'a Id> = Vec::new();
    proof {
        assert(derefs(ids_seen@) =~= Seq::<Id>::empty());
        assert(args@.take(0) =~= Seq::<Arg>::empty());
    }
    for i in 0..args.len()
        invariant
            venv.wf(),
            forall|j: int| 0 <= j < args@.len() ==> #[trigger] shallow_arg(args@[j]),
            derefs(ids_seen@) == fresh_occ_args(venv@, args@.take(i as int)),
            names_distinct(derefs(ids_seen@)),
    {
        proof {
            assert(args@.take(i + 1).drop_last() =~= args@.take(i as int));
            lemma_occ_args_prefix(venv@, args@, i + 1);
            assert(shallow_arg(args@[i as int]));
        }
        match &args[i].node {
            ArgKind::Exp(exp) => {
                proof {
                    assert(fresh_occ_args(venv@, args@.take(i + 1)) =~= derefs(ids_seen@) + fresh_occ(venv@, **exp));
                }
                match check_repeated_binding(venv, &mut ids_seen, exp) {
                    Err(f) => {
                        proof {
                            if let ShallowFailure::RepeatedBinding { id, id_previous } = f {
                                lemma_repeated_prefix(fresh_occ_args(venv@, args@.take(i + 1)), fresh_occ_args(venv@, args@), *id, *id_previous);
                            }
                        }
                        return Err(f);
                    },
                    Ok(()) => {},
                }
            },
            ArgKind::Def(_) => {
                proof {
                    assert(false);
                }
            },
        }
    }
    proof {
        assert(args@.take(args@.len() as int) =~= args@);
    }
    Ok(())
}

} // verus!
