use p4spec::al::{IfPrem, Prem, PremKind};
use p4spec::algo::bind::{BEnv, Binding};
use p4spec::algo::collect::collect_exp;
use p4spec::algo::context::Context;
use p4spec::algo::error::{AlgoErrorKind, Construct};
use p4spec::algo::dim::{Dim, VEnv};
use p4spec::algo::iteration::{ICtx, Iteration};
use p4spec::algo::multiple;
use p4spec::algo::partial;
use p4spec::algo::shallow::check_exp;
use p4spec::ids::IdSet;
use p4spec::il::{BinOp, CmpOp, Exp, ExpKind, Id, Iter, NumTyp, OpTyp, Typ, TypKind, UnOp};
use p4spec::span::Span;

fn sp(lo: u64) -> Span {
    Span { lo, hi: lo + 1 }
}

fn ident(name: &str, lo: u64) -> Id {
    Id { node: name.to_string(), span: sp(lo) }
}

fn int_typ() -> Typ {
    Typ { node: TypKind::Num(NumTyp::Int), span: Span::none() }
}

fn var(name: &str, lo: u64) -> Exp {
    Exp { node: ExpKind::Var(ident(name, lo)), note: TypKind::Num(NumTyp::Int), span: sp(lo) }
}

fn num(n: i64, lo: u64) -> Exp {
    Exp { node: ExpKind::Num(n), note: TypKind::Num(NumTyp::Int), span: sp(lo) }
}

fn tuple(es: Vec<Exp>) -> Exp {
    Exp { node: ExpKind::Tuple(es), note: TypKind::Tuple(vec![]), span: sp(0) }
}

fn var_name(e: &Exp) -> String {
    match &e.node {
        ExpKind::Var(id) => id.node.clone(),
        _ => panic!("not a variable"),
    }
}

fn names_of(b: &BEnv) -> Vec<String> {
    b.iter().iter().map(|(id, _)| id.node.clone()).collect()
}

#[test]
fn union_of_disjoint_bindings_keeps_both_single() {
    let l = BEnv::singleton(ident("x", 1), int_typ());
    let r = BEnv::singleton(ident("y", 2), int_typ());
    let u = l.union(r).ok().unwrap();
    assert_eq!(names_of(&u), vec!["x".to_string(), "y".to_string()]);
    assert!(u.iter().iter().all(|(_, b)| matches!(b, Binding::Single(_))));
}

#[test]
fn union_of_one_name_twice_is_multiple() {
    let l = BEnv::singleton(ident("x", 1), int_typ());
    let r = BEnv::singleton(ident("x", 2), int_typ());
    let u = l.union(r).ok().unwrap();
    assert_eq!(names_of(&u), vec!["x".to_string()]);
    assert!(matches!(u.iter()[0].1, Binding::Multiple(_)));
}

#[test]
fn union_of_different_dimensions_fails() {
    let l = BEnv::singleton(ident("x", 1), int_typ());
    let r = BEnv::singleton(ident("x", 2), int_typ()).add_iter(Iter::List);
    let e = l.union(r).err().unwrap();
    assert_eq!(e.kind, AlgoErrorKind::InconsistentDimensions);
}

#[test]
fn collecting_a_tuple_binds_each_variable() {
    let ctx = Context::new();
    let benv = collect_exp(&ctx, &tuple(vec![var("a", 1), var("b", 2)])).ok().unwrap();
    assert_eq!(names_of(&benv), vec!["a".to_string(), "b".to_string()]);
}

#[test]
fn collecting_a_repeated_variable_binds_it_multiply() {
    let ctx = Context::new();
    let benv = collect_exp(&ctx, &tuple(vec![var("a", 1), var("a", 2)])).ok().unwrap();
    assert_eq!(names_of(&benv), vec!["a".to_string()]);
    assert!(matches!(benv.iter()[0].1, Binding::Multiple(_)));
}

#[test]
fn collecting_under_an_operator_is_refused() {
    let ctx = Context::new();
    let sum = Exp {
        node: ExpKind::Bin(BinOp::Add, OpTyp::Num(NumTyp::Int), Box::new(var("a", 1)), Box::new(num(1, 2))),
        note: TypKind::Num(NumTyp::Int),
        span: sp(0),
    };
    let e = collect_exp(&ctx, &sum).err().unwrap();
    assert!(matches!(e.kind, AlgoErrorKind::NonInvertibleBinding(_)));
}

#[test]
fn a_variable_is_shallow_and_a_tuple_is_not() {
    assert!(check_exp(&var("a", 1)));
    assert!(!check_exp(&tuple(vec![var("a", 1)])));
}

#[test]
fn repeated_binders_are_renamed_with_primes() {
    // let (int, int, int) = ... becomes let (int, int', int'') = ..., if int = int' /\ int = int''
    let mut ctx = Context::new();
    let pattern = tuple(vec![var("int", 1), var("int", 2), var("int", 3)]);
    let benv = collect_exp(&ctx, &pattern).ok().unwrap();
    let mut renv = multiple::RenameEnv::from_bindings(&benv);
    let renamed = multiple::rename_exp(&mut ctx, &mut renv, &pattern);
    let names: Vec<String> = match &renamed.node {
        ExpKind::Tuple(es) => es.iter().map(var_name).collect(),
        _ => panic!("not a tuple"),
    };
    assert_eq!(names, vec!["int".to_string(), "int'".to_string(), "int''".to_string()]);
    let prems = multiple::generate_side_conditions(&ICtx::new(), &renv);
    assert_eq!(prems.len(), 1);
    let exp = match &prems[0].node {
        PremKind::If(IfPrem { exp }) => exp,
        _ => panic!("not a condition"),
    };
    match &exp.node {
        ExpKind::Bin(BinOp::And, _, l, r) => {
            for (side, renamed) in [(l, "int'"), (r, "int''")] {
                match &side.node {
                    ExpKind::Cmp(CmpOp::Eq, _, a, b) => {
                        assert_eq!(var_name(a), "int");
                        assert_eq!(var_name(b), renamed);
                    },
                    _ => panic!("not an equality"),
                }
            }
        },
        _ => panic!("not a conjunction"),
    }
    // The condition stands at the last occurrence
    assert_eq!(prems[0].span, sp(3));
}

#[test]
fn a_single_occurrence_needs_no_side_condition() {
    let mut ctx = Context::new();
    let pattern = tuple(vec![var("a", 1), var("b", 2)]);
    let benv = collect_exp(&ctx, &pattern).ok().unwrap();
    let mut renv = multiple::RenameEnv::from_bindings(&benv);
    let renamed = multiple::rename_exp(&mut ctx, &mut renv, &pattern);
    match &renamed.node {
        ExpKind::Tuple(es) => assert_eq!(es.iter().map(var_name).collect::<Vec<_>>(), vec!["a", "b"]),
        _ => panic!("not a tuple"),
    }
    assert!(multiple::generate_side_conditions(&ICtx::new(), &renv).is_empty());
}

#[test]
fn bound_values_in_a_pattern_become_fresh_variables() {
    // let (a, 1 + 2) = ... becomes let (a, int) = ..., if int = 1 + 2
    let mut ctx = Context::new();
    let mut binds = IdSet::new();
    binds.insert(ident("a", 1));
    let sum = Exp {
        node: ExpKind::Bin(BinOp::Add, OpTyp::Num(NumTyp::Int), Box::new(num(1, 2)), Box::new(num(2, 3))),
        note: TypKind::Num(NumTyp::Int),
        span: sp(4),
    };
    let pattern = tuple(vec![var("a", 1), sum]);
    let mut renv = partial::RenameEnv::new();
    let mut ictx = ICtx::new();
    let renamed = partial::rename_exp(&mut ctx, &binds, &mut renv, &mut ictx, &pattern).ok().unwrap();
    let names: Vec<String> = match &renamed.node {
        ExpKind::Tuple(es) => es.iter().map(var_name).collect(),
        _ => panic!("not a tuple"),
    };
    assert_eq!(names, vec!["a".to_string(), "int".to_string()]);
    let prems = partial::gen_prems(&ctx, &ICtx::new(), &renv).ok().unwrap();
    assert_eq!(prems.len(), 1);
    match &prems[0].node {
        PremKind::If(IfPrem { exp }) => match &exp.node {
            ExpKind::Cmp(CmpOp::Eq, _, l, r) => {
                assert_eq!(var_name(l), "int");
                assert!(matches!(r.node, ExpKind::Bin(BinOp::Add, _, _, _)));
            },
            _ => panic!("not an equality"),
        },
        _ => panic!("not a condition"),
    }
}

#[test]
fn a_fresh_variable_avoids_names_in_use() {
    let mut ctx = Context::new();
    ctx.add_free(ident("int", 9));
    let binds = IdSet::new();
    let mut renv = partial::RenameEnv::new();
    let mut ictx = ICtx::new();
    let renamed = partial::rename_exp(&mut ctx, &binds, &mut renv, &mut ictx, &num(7, 1)).ok().unwrap();
    assert_eq!(var_name(&renamed), "int'");
}

#[test]
fn premises_keep_their_span() {
    let p = Prem { node: PremKind::If(IfPrem { exp: var("b", 5) }), span: sp(5) };
    let iterated = ICtx::new().iterate_prem(p);
    assert_eq!(iterated.span, sp(5));
}

#[test]
fn a_finished_scope_gives_its_iteration_back() {
    let mut ictx = ICtx::new();
    let scope = ictx.scope(Iteration { iter: Iter::List, vars_bound: vec![], vars_bind: vec![] });
    assert_eq!(ictx.as_slice().len(), 1);
    let it = scope.finish(&mut ictx);
    assert!(matches!(it.iter, Iter::List));
    assert_eq!(ictx.as_slice().len(), 0);
    let scope = ictx.scope(Iteration { iter: Iter::Opt, vars_bound: vec![], vars_bind: vec![] });
    scope.rollback(&mut ictx);
    assert_eq!(ictx.as_slice().len(), 0);
}

#[test]
fn recorded_bindings_keep_their_first_dimension() {
    let mut ctx = Context::new();
    let mut first = VEnv::new();
    first.insert(ident("x", 1), Dim { typ: int_typ(), iters: vec![] });
    ctx.add_bounds(&first);
    let mut second = VEnv::new();
    second.insert(ident("x", 2), Dim { typ: int_typ(), iters: vec![Iter::List] });
    second.insert(ident("y", 3), Dim { typ: int_typ(), iters: vec![] });
    ctx.add_bounds(&second);
    assert!(ctx.venv.get(&ident("x", 0)).unwrap().iters.is_empty());
    assert!(ctx.venv.contains_key(&ident("y", 0)));
}

#[test]
fn a_binder_under_an_operator_is_rejected_at_the_operation() {
    // let (x, y + 1) = e: x is collected, y is rejected at `y + 1`
    let ctx = Context::new();
    let sum = Exp {
        node: ExpKind::Bin(BinOp::Add, OpTyp::Num(NumTyp::Int), Box::new(var("y", 3)), Box::new(num(1, 5))),
        note: TypKind::Num(NumTyp::Int),
        span: Span { lo: 3, hi: 6 },
    };
    let e = collect_exp(&ctx, &tuple(vec![var("x", 1), sum])).err().unwrap();
    assert_eq!(e.kind, AlgoErrorKind::NonInvertibleBinding(Construct::BinaryOperator));
    assert_eq!(e.span, Span { lo: 3, hi: 6 });
}

#[test]
fn a_binder_under_a_unary_operator_is_rejected_at_the_operation() {
    let ctx = Context::new();
    let neg = Exp {
        node: ExpKind::Un(UnOp::Minus, OpTyp::Num(NumTyp::Int), Box::new(var("y", 4))),
        note: TypKind::Num(NumTyp::Int),
        span: Span { lo: 3, hi: 5 },
    };
    let e = collect_exp(&ctx, &neg).err().unwrap();
    assert_eq!(e.kind, AlgoErrorKind::NonInvertibleBinding(Construct::UnaryOperator));
    assert_eq!(e.span, Span { lo: 3, hi: 5 });
}

#[test]
fn the_first_failing_component_reports() {
    let ctx = Context::new();
    let bad = |lo: u64| Exp {
        node: ExpKind::Bin(BinOp::Add, OpTyp::Num(NumTyp::Int), Box::new(var("z", lo)), Box::new(num(1, lo))),
        note: TypKind::Num(NumTyp::Int),
        span: sp(lo),
    };
    let e = collect_exp(&ctx, &tuple(vec![var("x", 1), bad(10), bad(20)])).err().unwrap();
    assert_eq!(e.span, sp(10));
}

#[test]
fn a_dimension_conflict_is_reported_at_the_first_occurrence() {
    let l = BEnv::singleton(ident("x", 1), int_typ());
    let r = BEnv::singleton(ident("x", 2), int_typ()).add_iter(Iter::List);
    let e = l.union(r).err().unwrap();
    assert_eq!(e.span, sp(1));
}

#[test]
fn union_keeps_the_stored_key_of_the_left() {
    let l = BEnv::singleton(ident("x", 1), int_typ());
    let r = BEnv::singleton(ident("x", 2), int_typ());
    let u = l.union(r).ok().unwrap();
    assert_eq!(u.iter()[0].0.span, sp(1));
}

#[test]
fn renamed_elements_keep_their_spans() {
    let mut ctx = Context::new();
    let pattern = tuple(vec![var("int", 1), var("int", 2), var("int", 3)]);
    let benv = collect_exp(&ctx, &pattern).ok().unwrap();
    let mut renv = multiple::RenameEnv::from_bindings(&benv);
    let renamed = multiple::rename_exp(&mut ctx, &mut renv, &pattern);
    match &renamed.node {
        ExpKind::Tuple(es) => {
            for (k, e) in es.iter().enumerate() {
                assert_eq!(e.span, sp(k as u64 + 1));
                match &e.node {
                    ExpKind::Var(id) => assert_eq!(id.span, sp(k as u64 + 1)),
                    _ => panic!("not a variable"),
                }
            }
        },
        _ => panic!("not a tuple"),
    }
}

#[test]
fn update_reports_its_path_before_its_field() {
    let ctx = Context::new();
    let len = Exp { node: ExpKind::Len(Box::new(var("z", 4))), note: TypKind::Num(NumTyp::Int), span: sp(5) };
    let path = p4spec::il::Path {
        node: p4spec::il::PathKind::Idx(
            Box::new(p4spec::il::Path { node: p4spec::il::PathKind::Root, span: sp(2) }),
            Box::new(len),
        ),
        span: sp(3),
    };
    let field = Exp {
        node: ExpKind::Bin(BinOp::Add, OpTyp::Num(NumTyp::Int), Box::new(var("y", 6)), Box::new(num(1, 7))),
        note: TypKind::Num(NumTyp::Int),
        span: sp(8),
    };
    let upd = Exp { node: ExpKind::Upd(Box::new(var("b", 1)), path, Box::new(field)), note: TypKind::Num(NumTyp::Int), span: sp(9) };
    let e = collect_exp(&ctx, &upd).err().unwrap();
    assert_eq!(e.kind, AlgoErrorKind::NonInvertibleBinding(Construct::LengthOperator));
    assert_eq!(e.span, sp(5));
}
