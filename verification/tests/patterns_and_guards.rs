use p4spec::al::{clone_prem, IfPrem, Prem, PremKind};
use p4spec::algo::antiunify::antiunify;
use p4spec::algo::context::Context;
use p4spec::algo::error::AlgoErrorKind;
use p4spec::algo::guard::insert_prems;
use p4spec::algo::pattern::{find_missing, has_overlap, subtract, PatternSet, PatternSets};
use p4spec::il::{CmpOp, Exp, ExpIter, ExpKind, Id, Iter, Mixop, NotTyp, NumTyp, OpTyp, Typ, TypKind, Var};
use p4spec::span::Span;

fn at(lo: u64) -> Span {
    Span { lo, hi: lo + 1 }
}

fn case(name: &str) -> NotTyp {
    NotTyp { mixop: Mixop { phrases: vec![vec![name.to_string()]] }, typs: vec![], span: Span::none() }
}

fn set(names: &[&str]) -> PatternSet {
    PatternSet::from_not_typs(&names.iter().map(|n| case(n)).collect())
}

fn row(sets: Vec<PatternSet>) -> PatternSets {
    PatternSets::from_sets(sets)
}

fn names(s: &PatternSet) -> Vec<String> {
    let mut v: Vec<String> = s.not_typs.iter().map(|n| n.mixop.phrases[0][0].clone()).collect();
    v.sort();
    v
}

fn rows_as_names(rows: &[PatternSets]) -> Vec<Vec<Vec<String>>> {
    rows.iter().map(|r| r.sets.iter().map(names).collect()).collect()
}

fn covers(rows: &[PatternSets], tuple: &[&str]) -> bool {
    rows.iter().any(|r| r.sets.iter().zip(tuple).all(|(s, t)| names(s).contains(&t.to_string())))
}

#[test]
fn subtraction_covers_exactly_the_tuples_outside() {
    let total = row(vec![set(&["A", "B", "C"]), set(&["X", "Y"])]);
    let p = row(vec![set(&["A"]), set(&["X"])]);
    let rest = subtract(&Span::none(), &total, &p).ok().unwrap();
    for a in ["A", "B", "C"] {
        for x in ["X", "Y"] {
            assert_eq!(covers(&rest, &[a, x]), !(a == "A" && x == "X"), "{a} {x}");
        }
    }
}

#[test]
fn subtraction_of_rows_of_different_widths_fails() {
    let total = row(vec![set(&["A"]), set(&["X"])]);
    let p = row(vec![set(&["A"])]);
    let e = subtract(&at(4), &total, &p).err().unwrap();
    assert_eq!(e.kind, AlgoErrorKind::PatternArityMismatch { expected: 2, actual: 1 });
    assert_eq!(e.span, at(4));
}

#[test]
fn missing_patterns_are_those_no_row_covers() {
    let total = row(vec![set(&["A", "B"]), set(&["X", "Y"])]);
    let group = vec![row(vec![set(&["A"]), set(&["X", "Y"])]), row(vec![set(&["B"]), set(&["X"])])];
    let missing = find_missing(&Span::none(), &total, &group).ok().unwrap();
    assert!(covers(&missing, &["B", "Y"]));
    assert!(!covers(&missing, &["A", "X"]));
    assert!(!covers(&missing, &["A", "Y"]));
    assert!(!covers(&missing, &["B", "X"]));
}

#[test]
fn a_complete_group_misses_nothing() {
    let total = row(vec![set(&["A", "B"])]);
    let group = vec![row(vec![set(&["A"])]), row(vec![set(&["B"])])];
    let missing = find_missing(&Span::none(), &total, &group).ok().unwrap();
    assert!(rows_as_names(&missing).iter().all(|r| r.iter().any(|s| s.is_empty())));
}

#[test]
fn rows_overlap_when_every_column_shares_a_case() {
    let l = row(vec![set(&["A", "B"]), set(&["X"])]);
    let r = row(vec![set(&["B"]), set(&["X", "Y"])]);
    assert!(has_overlap(&Span::none(), &l, &r).ok().unwrap());
    let r2 = row(vec![set(&["B"]), set(&["Y"])]);
    assert!(!has_overlap(&Span::none(), &l, &r2).ok().unwrap());
}

fn boolean(b: bool, lo: u64) -> Exp {
    Exp { node: ExpKind::Bool(b), note: TypKind::Bool, span: at(lo) }
}

fn named(name: &str, typ: TypKind, lo: u64) -> Exp {
    Exp { node: ExpKind::Var(Id { node: name.to_string(), span: at(lo) }), note: typ, span: at(lo) }
}

fn var_name(e: &Exp) -> String {
    match &e.node {
        ExpKind::Var(id) => id.node.clone(),
        _ => panic!("not a variable"),
    }
}

fn condition(p: &Prem) -> &Exp {
    match &p.node {
        PremKind::If(IfPrem { exp }) => exp,
        _ => panic!("not a condition"),
    }
}

#[test]
fn antiunification_abstracts_differing_inputs() {
    // (true, x) and (false, x) become (bool, x), with bool == true and bool == false
    let mut ctx = Context::new();
    let rows = vec![
        vec![boolean(true, 1), named("x", TypKind::Num(NumTyp::Int), 2)],
        vec![boolean(false, 3), named("x", TypKind::Num(NumTyp::Int), 4)],
    ];
    let (templates, prems) = antiunify(&mut ctx, rows).ok().unwrap();
    assert_eq!(templates.len(), 2);
    assert_eq!(var_name(&templates[0]), "bool");
    assert_eq!(var_name(&templates[1]), "x");
    assert_eq!(prems.len(), 2);
    for (prems_rule, b) in prems.iter().zip([true, false]) {
        assert_eq!(prems_rule.len(), 1);
        match &condition(&prems_rule[0]).node {
            ExpKind::Cmp(CmpOp::Eq, OpTyp::Bool, l, r) => {
                assert_eq!(var_name(l), "bool");
                assert!(matches!(r.node, ExpKind::Bool(v) if v == b));
            },
            _ => panic!("not an equality"),
        }
    }
    assert!(ctx.frees.contains(&Id { node: "bool".to_string(), span: Span::none() }));
}

#[test]
fn antiunification_refuses_inputs_of_different_types() {
    let mut ctx = Context::new();
    let rows = vec![vec![boolean(true, 1)], vec![named("n", TypKind::Num(NumTyp::Nat), 2)]];
    let e = antiunify(&mut ctx, rows).err().unwrap();
    assert_eq!(e.kind, AlgoErrorKind::AntiUnification);
}

#[test]
fn antiunification_refuses_rules_of_different_arity() {
    let mut ctx = Context::new();
    let rows = vec![vec![boolean(true, 1)], vec![boolean(true, 2), boolean(false, 3)]];
    let e = antiunify(&mut ctx, rows).err().unwrap();
    assert_eq!(e.kind, AlgoErrorKind::ExpressionArityMismatch { expected: 1, actual: 2 });
}

fn list_of_int() -> TypKind {
    TypKind::Iter(Box::new(Typ { node: TypKind::Num(NumTyp::Int), span: Span::none() }), Iter::List)
}

fn index(base: &str, idx: &str) -> Exp {
    Exp {
        node: ExpKind::Idx(Box::new(named(base, list_of_int(), 1)), Box::new(named(idx, TypKind::Num(NumTyp::Nat), 2))),
        note: TypKind::Num(NumTyp::Int),
        span: at(3),
    }
}

fn eq_prem(l: Exp, r: Exp) -> Prem {
    Prem {
        node: PremKind::If(IfPrem { exp: Exp { node: ExpKind::Cmp(CmpOp::Eq, OpTyp::Bool, Box::new(l), Box::new(r)), note: TypKind::Bool, span: at(5) } }),
        span: at(5),
    }
}

#[test]
fn indexing_is_guarded_by_its_bound() {
    // a[n] requires n < |a|
    let one = Exp { node: ExpKind::Num(1), note: TypKind::Num(NumTyp::Int), span: at(4) };
    let out = insert_prems(&vec![], vec![eq_prem(index("a", "n"), one)]).output;
    assert_eq!(out.len(), 2);
    match &condition(&out[0]).node {
        ExpKind::Cmp(CmpOp::Lt, _, l, r) => {
            assert_eq!(var_name(l), "n");
            match &r.node {
                ExpKind::Len(b) => assert_eq!(var_name(b), "a"),
                _ => panic!("not a length"),
            }
        },
        _ => panic!("not a bound check"),
    }
    assert!(matches!(condition(&out[1]).node, ExpKind::Cmp(CmpOp::Eq, _, _, _)));
}

#[test]
fn a_guard_already_established_is_not_repeated() {
    let one = Exp { node: ExpKind::Num(1), note: TypKind::Num(NumTyp::Int), span: at(4) };
    let two = Exp { node: ExpKind::Num(2), note: TypKind::Num(NumTyp::Int), span: at(6) };
    let out = insert_prems(&vec![], vec![eq_prem(index("a", "n"), one), eq_prem(index("a", "n"), two)]).output;
    assert_eq!(out.len(), 3);
}

#[test]
fn iterated_variables_must_agree_in_length() {
    // e*{x <- x*, y <- y*} requires |x*| = |y*|
    let var = |name: &str| Var {
        id: Id { node: name.to_string(), span: at(1) },
        typ: Typ { node: TypKind::Num(NumTyp::Int), span: Span::none() },
        iters: vec![],
    };
    let body = Exp {
        node: ExpKind::Cmp(CmpOp::Eq, OpTyp::Bool, Box::new(named("x", TypKind::Num(NumTyp::Int), 1)), Box::new(named("y", TypKind::Num(NumTyp::Int), 2))),
        note: TypKind::Bool,
        span: at(3),
    };
    let iterated = Exp {
        node: ExpKind::Iter(Box::new(body), ExpIter { iter: Iter::List, vars: vec![var("x"), var("y")] }),
        note: list_of_int(),
        span: at(4),
    };
    let prem = Prem { node: PremKind::If(IfPrem { exp: iterated }), span: at(4) };
    let out = insert_prems(&vec![], vec![prem]).output;
    assert_eq!(out.len(), 2);
    match &condition(&out[0]).node {
        ExpKind::Cmp(CmpOp::Eq, _, l, r) => {
            assert!(matches!(l.node, ExpKind::Len(_)));
            assert!(matches!(r.node, ExpKind::Len(_)));
        },
        _ => panic!("not a length equality"),
    }
}

#[test]
fn a_guard_that_a_base_premise_states_is_left_out() {
    let one = || Exp { node: ExpKind::Num(1), note: TypKind::Num(NumTyp::Int), span: at(4) };
    let first = insert_prems(&vec![], vec![eq_prem(index("a", "n"), one())]).output;
    let guard = vec![clone_prem(&first[0])];
    let out = insert_prems(&guard, vec![eq_prem(index("a", "n"), one())]).output;
    assert_eq!(out.len(), 1);
}

#[test]
fn identical_rule_inputs_need_no_antiunification() {
    let mut ctx = Context::new();
    let rows = vec![
        vec![boolean(true, 1), named("x", TypKind::Num(NumTyp::Int), 2)],
        vec![boolean(true, 3), named("x", TypKind::Num(NumTyp::Int), 4)],
        vec![boolean(true, 5), named("x", TypKind::Num(NumTyp::Int), 6)],
    ];
    let (templates, prems) = antiunify(&mut ctx, rows).ok().unwrap();
    assert_eq!(templates.len(), 2);
    assert!(matches!(templates[0].node, ExpKind::Bool(true)));
    assert_eq!(var_name(&templates[1]), "x");
    assert_eq!(prems.len(), 3);
    assert!(prems.iter().all(|p| p.is_empty()));
}

#[test]
fn subtracting_a_disjoint_row_leaves_the_total() {
    let total = row(vec![set(&["A", "B"]), set(&["X"])]);
    let p = row(vec![set(&["C"]), set(&["X"])]);
    let rest = subtract(&Span::none(), &total, &p).ok().unwrap();
    assert_eq!(rows_as_names(&rest), vec![vec![vec!["A".to_string(), "B".to_string()], vec!["X".to_string()]]]);
}

#[test]
fn subtraction_fragments_are_disjoint() {
    let total = row(vec![set(&["A", "B", "C"]), set(&["X", "Y"])]);
    let p = row(vec![set(&["A"]), set(&["X"])]);
    let rest = subtract(&Span::none(), &total, &p).ok().unwrap();
    for a in ["A", "B", "C"] {
        for x in ["X", "Y"] {
            let n = rest.iter().filter(|r| covers(std::slice::from_ref(r), &[a, x])).count();
            assert!(n <= 1, "{a} {x}");
        }
    }
}

#[test]
fn nothing_covered_misses_the_total() {
    let total = row(vec![set(&["A", "B"]), set(&["X"])]);
    let missing = find_missing(&Span::none(), &total, &[]).ok().unwrap();
    assert_eq!(rows_as_names(&missing), vec![vec![vec!["A".to_string(), "B".to_string()], vec!["X".to_string()]]]);
}

#[test]
fn subtraction_gives_its_pieces_in_order() {
    let total = row(vec![set(&["A", "B"]), set(&["C", "D"])]);
    let p = row(vec![set(&["A"]), set(&["C"])]);
    let rest = subtract(&Span::none(), &total, &p).ok().unwrap();
    let s = |v: &[&str]| v.iter().map(|x| x.to_string()).collect::<Vec<_>>();
    assert_eq!(rows_as_names(&rest), vec![vec![s(&["B"]), s(&["C", "D"])], vec![s(&["A"]), s(&["D"])]]);
}
