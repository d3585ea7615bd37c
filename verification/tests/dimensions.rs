use p4spec::elaborate::dimension::{analyze_clause, analyze_rule, analyze_rule_group, analyze_table_def, analyze_table_row};
use p4spec::elaborate::error::ElabErrorKind;
use p4spec::il::{
    Arg, ArgKind, BinOp, Clause, CmpOp, Exp, ExpIter, ExpKind, Id, IfPrem, Iter, IterPrem, Mixop, NotExp, NumTyp, OpTyp, Prem, PremIter,
    PremKind, Rule, TableRow, Typ, TypKind, Var,
};
use p4spec::span::Span;

fn at(lo: u64) -> Span {
    Span { lo, hi: lo + 1 }
}

fn int_typ() -> TypKind {
    TypKind::Num(NumTyp::Int)
}

fn var(name: &str, typ: TypKind, lo: u64) -> Exp {
    Exp { node: ExpKind::Var(Id { node: name.to_string(), span: at(lo) }), note: typ, span: at(lo) }
}

fn iterated(e: Exp, elem: TypKind, iter: Iter, lo: u64) -> Exp {
    let note = TypKind::Iter(Box::new(Typ { node: elem, span: at(lo) }), iter);
    Exp { node: ExpKind::Iter(Box::new(e), ExpIter { iter, vars: vec![] }), note, span: at(lo) }
}

fn arg(e: Exp) -> Arg {
    let span = e.span;
    Arg { node: ArgKind::Exp(Box::new(e)), span }
}

fn iter_vars(e: &Exp) -> Vec<(String, usize)> {
    match &e.node {
        ExpKind::Iter(_, it) => it.vars.iter().map(|v: &Var| (v.id.node.clone(), v.iters.len())).collect(),
        _ => panic!("not an iteration"),
    }
}

#[test]
fn an_iteration_ranges_over_the_identifiers_iterated_at_their_ambient_dimension() {
    // n_x* in the argument and in the result: n_x : n_x*
    let mut row = TableRow {
        args: vec![arg(iterated(var("n_x", int_typ(), 1), int_typ(), Iter::List, 2))],
        exp: iterated(var("n_x", int_typ(), 3), int_typ(), Iter::List, 4),
        span: at(5),
    };
    analyze_table_row(&mut row).ok().unwrap();
    match &row.args[0].node {
        ArgKind::Exp(e) => assert_eq!(iter_vars(e), vec![("n_x".to_string(), 0)]),
        _ => panic!("not an expression"),
    }
    assert_eq!(iter_vars(&row.exp), vec![("n_x".to_string(), 0)]);
}

#[test]
fn an_iteration_over_an_identifier_bound_without_it_is_empty() {
    // n occurs plainly, so n* ranges over nothing
    let mut row = TableRow {
        args: vec![arg(var("n", int_typ(), 1))],
        exp: iterated(var("n", int_typ(), 3), int_typ(), Iter::List, 4),
        span: at(5),
    };
    let e = analyze_table_row(&mut row).err().unwrap();
    assert_eq!(e.kind, ElabErrorKind::InvalidIteration);
    assert_eq!(e.span, at(4));
}

#[test]
fn occurrences_under_different_iterations_mismatch() {
    // x* and x? share no ambient dimension
    let mut row = TableRow {
        args: vec![arg(iterated(var("x", int_typ(), 1), int_typ(), Iter::List, 2)), arg(iterated(var("x", int_typ(), 3), int_typ(), Iter::Opt, 4))],
        exp: var("y", int_typ(), 5),
        span: at(6),
    };
    let e = analyze_table_row(&mut row).err().unwrap();
    assert_eq!(e.kind, ElabErrorKind::DimensionMismatch);
    assert_eq!(e.span, at(3));
}

#[test]
fn an_identifier_of_two_types_is_rejected() {
    let mut row = TableRow {
        args: vec![arg(var("x", int_typ(), 1)), arg(var("x", TypKind::Bool, 2))],
        exp: var("x", int_typ(), 3),
        span: at(4),
    };
    let e = analyze_table_row(&mut row).err().unwrap();
    assert_eq!(e.kind, ElabErrorKind::TypeMismatch);
    assert_eq!(e.span, at(2));
}

#[test]
fn an_annotated_iteration_is_rejected() {
    let inner = var("n", int_typ(), 1);
    let mut it = iterated(inner, int_typ(), Iter::List, 2);
    if let ExpKind::Iter(_, ei) = &mut it.node {
        ei.vars.push(Var { id: Id { node: "n".to_string(), span: at(1) }, typ: Typ { node: int_typ(), span: at(1) }, iters: vec![] });
    }
    let mut row = TableRow { args: vec![arg(it)], exp: var("n", int_typ(), 3), span: at(4) };
    let e = analyze_table_row(&mut row).err().unwrap();
    assert_eq!(e.kind, ElabErrorKind::InvalidIteration);
    assert_eq!(e.span, at(2));
}

#[test]
fn the_rows_of_a_table_are_analyzed_in_order() {
    let mut rows = vec![
        TableRow { args: vec![arg(var("a", int_typ(), 1))], exp: var("a", int_typ(), 2), span: at(3) },
        TableRow { args: vec![arg(var("b", int_typ(), 4))], exp: iterated(var("b", int_typ(), 5), int_typ(), Iter::Opt, 6), span: at(7) },
    ];
    let e = analyze_table_def(&mut rows).err().unwrap();
    assert_eq!(e.kind, ElabErrorKind::InvalidIteration);
    assert_eq!(e.span, at(6));
    let mut rows = vec![TableRow { args: vec![arg(var("a", int_typ(), 1))], exp: var("a", int_typ(), 2), span: at(3) }];
    assert!(analyze_table_def(&mut rows).is_ok());
}

fn cmp_eq(l: Exp, r: Exp, lo: u64) -> Exp {
    Exp { node: ExpKind::Cmp(CmpOp::Eq, OpTyp::Num(NumTyp::Int), Box::new(l), Box::new(r)), note: TypKind::Bool, span: at(lo) }
}

fn if_prem(e: Exp, lo: u64) -> Prem {
    Prem { node: PremKind::If(IfPrem { exp: e }), span: at(lo) }
}

fn iter_prem(p: Prem, iter: Iter, lo: u64) -> Prem {
    Prem {
        node: PremKind::Iter(IterPrem { prem: Box::new(p), prem_iter: PremIter { iter, vars_bound: vec![], vars_bind: vec![] } }),
        span: at(lo),
    }
}

fn rule(args: Vec<Exp>, prems: Vec<Prem>) -> Rule {
    Rule {
        id: Id { node: "r".to_string(), span: at(90) },
        not_exp: NotExp { mixop: Mixop { phrases: vec![] }, args },
        prems,
        span: at(91),
    }
}

fn bound_vars(p: &Prem) -> Vec<(String, usize)> {
    match &p.node {
        PremKind::Iter(ip) => ip.prem_iter.vars_bound.iter().map(|v: &Var| (v.id.node.clone(), v.iters.len())).collect(),
        _ => panic!("not an iterated premise"),
    }
}

#[test]
fn the_ambient_dimension_is_the_shallowest_occurrence() {
    // -- if n_x* = [ 1, 1 ] ;; -- if n_y = 1 ;; -- if (n_x = n_y)*
    // n_x : n_x* and n_y : n_y, so the iterated premise ranges over n_x only
    let list = Exp { node: ExpKind::List(vec![]), note: TypKind::Bool, span: at(3) };
    let p1 = if_prem(cmp_eq(iterated(var("n_x", int_typ(), 1), int_typ(), Iter::List, 2), list, 4), 5);
    let one = Exp { node: ExpKind::Num(1), note: int_typ(), span: at(7) };
    let p2 = if_prem(cmp_eq(var("n_y", int_typ(), 6), one, 8), 9);
    let p3 = iter_prem(if_prem(cmp_eq(var("n_x", int_typ(), 10), var("n_y", int_typ(), 11), 12), 13), Iter::List, 14);
    let mut r = rule(vec![], vec![p1, p2, p3]);
    analyze_rule(&mut r).ok().unwrap();
    assert_eq!(bound_vars(&r.prems[2]), vec![("n_x".to_string(), 0)]);
}

#[test]
fn an_iterated_premise_over_no_identifier_is_rejected() {
    let p = iter_prem(if_prem(var("b", TypKind::Bool, 1), 2), Iter::List, 3);
    let mut r = rule(vec![var("b", TypKind::Bool, 4)], vec![p]);
    let e = analyze_rule(&mut r).err().unwrap();
    assert_eq!(e.kind, ElabErrorKind::InvalidIteration);
    assert_eq!(e.span, at(3));
}

#[test]
fn an_annotated_iterated_premise_is_rejected_before_analysis() {
    let mut p = iter_prem(if_prem(var("b", TypKind::Bool, 1), 2), Iter::List, 3);
    if let PremKind::Iter(ip) = &mut p.node {
        ip.prem_iter.vars_bind.push(Var { id: Id { node: "b".to_string(), span: at(1) }, typ: Typ { node: TypKind::Bool, span: at(1) }, iters: vec![] });
    }
    let mut r = rule(vec![], vec![p]);
    let e = analyze_rule(&mut r).err().unwrap();
    assert_eq!(e.kind, ElabErrorKind::InvalidIteration);
    assert_eq!(e.span, at(3));
}

#[test]
fn a_clause_annotates_its_arguments_premises_and_result() {
    let sum = Exp {
        node: ExpKind::Bin(BinOp::Add, OpTyp::Num(NumTyp::Int), Box::new(var("x", int_typ(), 4)), Box::new(var("y", int_typ(), 5))),
        note: int_typ(),
        span: at(6),
    };
    let mut c = Clause {
        args: vec![arg(iterated(var("x", int_typ(), 1), int_typ(), Iter::List, 2)), arg(var("y", int_typ(), 3))],
        premises: vec![],
        expression: iterated(sum, int_typ(), Iter::List, 7),
        span: at(8),
    };
    analyze_clause(&mut c).ok().unwrap();
    assert_eq!(iter_vars(&c.expression), vec![("x".to_string(), 0)]);
}

#[test]
fn a_rule_group_stops_at_its_first_failing_rule() {
    let ok = rule(vec![var("a", int_typ(), 1)], vec![]);
    let bad = rule(vec![var("b", int_typ(), 2)], vec![iter_prem(if_prem(var("b", int_typ(), 3), 4), Iter::Opt, 5)]);
    let mut rules = vec![ok, bad];
    let e = analyze_rule_group(&mut rules).err().unwrap();
    assert_eq!(e.kind, ElabErrorKind::InvalidIteration);
    assert_eq!(e.span, at(5));
}
