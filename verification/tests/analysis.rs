use p4spec::al::{IfPrem, PremKind, RulePrem};
use p4spec::algo::analyze::{
    analyze_args_as_bind, analyze_args_as_bind_shallow, analyze_debug_prem, analyze_exps_as_bind, analyze_if_hold_prem,
    analyze_if_prem,
};
use p4spec::algo::context::Context;
use p4spec::algo::dim::{Dim, VEnv};
use p4spec::algo::error::{AlgoErrorKind, Construct};
use p4spec::algo::iteration::ICtx;
use p4spec::il::{Arg, ArgKind, BinOp, CmpOp, Exp, ExpKind, Id, Mixop, NotExp, NumTyp, OpTyp, Typ, TypKind};
use p4spec::span::Span;

fn sp(lo: u64) -> Span {
    Span { lo, hi: lo + 1 }
}

fn ident(name: &str, lo: u64) -> Id {
    Id { node: name.to_string(), span: sp(lo) }
}

fn var(name: &str, lo: u64) -> Exp {
    Exp { node: ExpKind::Var(ident(name, lo)), note: TypKind::Num(NumTyp::Int), span: sp(lo) }
}

fn num(n: i64, lo: u64) -> Exp {
    Exp { node: ExpKind::Num(n), note: TypKind::Num(NumTyp::Int), span: sp(lo) }
}

fn tuple(es: Vec<Exp>, lo: u64) -> Exp {
    Exp { node: ExpKind::Tuple(es), note: TypKind::Tuple(vec![]), span: sp(lo) }
}

fn cmp(op: CmpOp, l: Exp, r: Exp, lo: u64) -> Exp {
    Exp { node: ExpKind::Cmp(op, OpTyp::Num(NumTyp::Int), Box::new(l), Box::new(r)), note: TypKind::Bool, span: sp(lo) }
}

fn var_name(e: &Exp) -> String {
    match &e.node {
        ExpKind::Var(id) => id.node.clone(),
        _ => panic!("not a variable"),
    }
}

fn names(e: &Exp) -> Vec<String> {
    match &e.node {
        ExpKind::Tuple(es) => es.iter().map(var_name).collect(),
        _ => panic!("not a tuple"),
    }
}

fn with_bound(names: &[&str]) -> Context {
    let mut ctx = Context::new();
    let mut venv = VEnv::new();
    for n in names {
        venv.insert(ident(n, 0), Dim { typ: Typ { node: TypKind::Num(NumTyp::Int), span: Span::none() }, iters: vec![] });
        ctx.add_free(ident(n, 0));
    }
    ctx.add_bounds(&venv);
    ctx
}

#[test]
fn binding_renames_repeated_binders_and_adds_their_side_condition() {
    let mut ctx = Context::new();
    let pattern = tuple(vec![var("int", 1), var("int", 2), var("int", 3)], 0);
    let (venv, exps, prems) = analyze_exps_as_bind(&mut ctx, &ICtx::new(), &vec![pattern]).ok().unwrap();
    assert_eq!(names(&exps[0]), vec!["int".to_string(), "int'".to_string(), "int''".to_string()]);
    for n in ["int", "int'", "int''"] {
        assert!(venv.contains_key(&ident(n, 0)), "{n}");
    }
    assert_eq!(prems.len(), 1);
    assert!(matches!(&prems[0].node, PremKind::If(IfPrem { exp }) if matches!(exp.node, ExpKind::Bin(BinOp::And, _, _, _))));
}

#[test]
fn binding_turns_bound_values_into_fresh_variables() {
    let mut ctx = Context::new();
    let sum = Exp {
        node: ExpKind::Bin(BinOp::Add, OpTyp::Num(NumTyp::Int), Box::new(num(1, 2)), Box::new(num(2, 3))),
        note: TypKind::Num(NumTyp::Int),
        span: sp(4),
    };
    let pattern = tuple(vec![var("a", 1), sum], 0);
    let (venv, exps, prems) = analyze_exps_as_bind(&mut ctx, &ICtx::new(), &vec![pattern]).ok().unwrap();
    assert_eq!(names(&exps[0]), vec!["a".to_string(), "int".to_string()]);
    assert!(venv.contains_key(&ident("a", 0)));
    assert!(venv.contains_key(&ident("int", 0)));
    assert_eq!(prems.len(), 1);
    match &prems[0].node {
        PremKind::If(IfPrem { exp }) => assert!(matches!(exp.node, ExpKind::Cmp(CmpOp::Eq, _, _, _))),
        _ => panic!("not a condition"),
    }
}

#[test]
fn binding_fails_on_a_binder_under_an_operator() {
    let mut ctx = Context::new();
    let sum = Exp {
        node: ExpKind::Bin(BinOp::Add, OpTyp::Num(NumTyp::Int), Box::new(var("y", 2)), Box::new(num(1, 3))),
        note: TypKind::Num(NumTyp::Int),
        span: sp(4),
    };
    let e = analyze_exps_as_bind(&mut ctx, &ICtx::new(), &vec![tuple(vec![var("x", 1), sum], 0)]).err().unwrap();
    assert!(matches!(e.kind, AlgoErrorKind::NonInvertibleBinding(_)));
}

#[test]
fn arguments_bind_like_patterns() {
    let mut ctx = Context::new();
    let args = vec![
        Arg { node: ArgKind::Exp(Box::new(var("x", 1))), span: sp(1) },
        Arg { node: ArgKind::Exp(Box::new(var("x", 2))), span: sp(2) },
    ];
    let (venv, out, prems) = analyze_args_as_bind(&mut ctx, &args).ok().unwrap();
    assert_eq!(out.len(), 2);
    assert!(venv.contains_key(&ident("x'", 0)));
    assert_eq!(prems.len(), 1);
}

#[test]
fn shallow_arguments_reject_functions_and_repeats() {
    let mut ctx = Context::new();
    let def = vec![Arg { node: ArgKind::Def(ident("f", 3)), span: sp(3) }];
    let e = analyze_args_as_bind_shallow(&mut ctx, &def, sp(9)).err().unwrap();
    assert_eq!(e.kind, AlgoErrorKind::BindingsNotShallow);
    assert_eq!(e.span, sp(3));
    let repeated = vec![
        Arg { node: ArgKind::Exp(Box::new(var("x", 1))), span: sp(1) },
        Arg { node: ArgKind::Exp(Box::new(var("x", 2))), span: sp(2) },
    ];
    let e = analyze_args_as_bind_shallow(&mut ctx, &repeated, sp(9)).err().unwrap();
    assert_eq!(e.kind, AlgoErrorKind::ShallowSideConditions);
    assert_eq!(e.span, sp(1));
    let fine = vec![Arg { node: ArgKind::Exp(Box::new(var("k", 1))), span: sp(1) }];
    let (venv, _, prems) = analyze_args_as_bind_shallow(&mut ctx, &fine, sp(9)).ok().unwrap();
    assert!(venv.contains_key(&ident("k", 0)));
    assert!(prems.is_empty());
}

#[test]
fn an_equality_with_one_binding_side_becomes_a_let_premise() {
    let mut ctx = with_bound(&["e"]);
    let cond = IfPrem { exp: cmp(CmpOp::Eq, var("a", 1), var("e", 2), 3) };
    let (venv, prem, prems) = analyze_if_prem(&mut ctx, ICtx::new(), sp(5), &cond).ok().unwrap();
    assert!(venv.contains_key(&ident("a", 0)));
    assert!(prems.is_empty());
    assert_eq!(prem.span, sp(5));
    match &prem.node {
        PremKind::Let(l) => {
            assert_eq!(var_name(&l.exp_l), "a");
            assert_eq!(var_name(&l.exp_r), "e");
        },
        _ => panic!("not a let premise"),
    }
    // The binding side may also stand on the right
    let cond = IfPrem { exp: cmp(CmpOp::Eq, var("e", 1), var("b", 2), 3) };
    let (_, prem, _) = analyze_if_prem(&mut ctx, ICtx::new(), sp(5), &cond).ok().unwrap();
    assert!(matches!(&prem.node, PremKind::Let(l) if var_name(&l.exp_l) == "b"));
}

#[test]
fn an_equality_binding_on_both_sides_is_rejected() {
    let mut ctx = Context::new();
    let cond = IfPrem { exp: cmp(CmpOp::Eq, var("a", 1), var("b", 2), 3) };
    let e = analyze_if_prem(&mut ctx, ICtx::new(), sp(5), &cond).err().unwrap();
    assert_eq!(e.kind, AlgoErrorKind::BindingOnBothEqualitySides);
    assert_eq!(e.span, sp(3));
}

#[test]
fn a_bound_condition_stays_a_condition() {
    let mut ctx = with_bound(&["e", "f"]);
    let cond = IfPrem { exp: cmp(CmpOp::Eq, var("e", 1), var("f", 2), 3) };
    let (venv, prem, prems) = analyze_if_prem(&mut ctx, ICtx::new(), sp(5), &cond).ok().unwrap();
    assert_eq!(venv.len(), 0);
    assert!(prems.is_empty());
    assert!(matches!(prem.node, PremKind::If(_)));
    let lt = IfPrem { exp: cmp(CmpOp::Lt, var("e", 1), var("z", 2), 3) };
    let e = analyze_if_prem(&mut ctx, ICtx::new(), sp(5), &lt).err().unwrap();
    assert_eq!(e.kind, AlgoErrorKind::NonInvertibleBinding(Construct::ComparisonOperator));
    let free = IfPrem { exp: var("z", 6) };
    let e = analyze_if_prem(&mut ctx, ICtx::new(), sp(5), &free).err().unwrap();
    assert_eq!(e.kind, AlgoErrorKind::FreeBindings);
    assert_eq!(e.span, sp(6));
}

#[test]
fn holding_and_debug_premises_bind_nothing() {
    let ctx = with_bound(&["e"]);
    let rule = RulePrem { id: ident("Eval", 1), not_exp: NotExp { mixop: Mixop { phrases: vec![] }, args: vec![var("e", 2)] } };
    let (_, prem, _) = analyze_if_hold_prem(&ctx, ICtx::new(), sp(4), &rule).ok().unwrap();
    assert!(matches!(prem.node, PremKind::IfHold(_)));
    let rule = RulePrem { id: ident("Eval", 1), not_exp: NotExp { mixop: Mixop { phrases: vec![] }, args: vec![var("q", 2)] } };
    let e = analyze_if_hold_prem(&ctx, ICtx::new(), sp(4), &rule).err().unwrap();
    assert_eq!(e.kind, AlgoErrorKind::FreeBindings);
    let (_, prem, _) = analyze_debug_prem(&ctx, ICtx::new(), sp(4), &IfPrem { exp: var("e", 3) }).ok().unwrap();
    assert!(matches!(prem.node, PremKind::Debug(_)));
}

fn rel_prem(args: Vec<Exp>, positions: Vec<usize>) -> p4spec::il::RelPrem {
    p4spec::il::RelPrem {
        id: ident("Eval", 1),
        not_exp: NotExp { mixop: Mixop { phrases: vec![] }, args },
        input_hint: p4spec::il_decl::InputHint { positions },
    }
}

#[test]
fn rule_premise_reads_inputs_and_binds_outputs() {
    let mut ctx = with_bound(&["e"]);
    let rule = rel_prem(vec![var("e", 2), var("v", 3)], vec![0]);
    let (venv, prem, prems) = p4spec::algo::prems::analyze_rule_prem(&mut ctx, ICtx::new(), sp(4), rule).ok().unwrap();
    assert!(venv.contains_key(&ident("v", 0)));
    assert!(!venv.contains_key(&ident("e", 0)));
    assert!(prems.is_empty());
    assert_eq!(prem.span, sp(4));
    match &prem.node {
        PremKind::Rule(RulePrem { id, not_exp }) => {
            assert_eq!(id.node, "Eval");
            assert_eq!(not_exp.args.iter().map(var_name).collect::<Vec<_>>(), vec!["e".to_string(), "v".to_string()]);
        },
        _ => panic!("not a rule premise"),
    }
}

#[test]
fn rule_premise_rejects_unbound_inputs_and_bad_hints() {
    let mut ctx = with_bound(&["e"]);
    let e = p4spec::algo::prems::analyze_rule_prem(&mut ctx, ICtx::new(), sp(4), rel_prem(vec![var("q", 2), var("v", 3)], vec![0]))
        .err()
        .unwrap();
    assert_eq!(e.kind, AlgoErrorKind::FreeBindings);
    assert_eq!(e.span, sp(2));
    let e = p4spec::algo::prems::analyze_rule_prem(&mut ctx, ICtx::new(), sp(4), rel_prem(vec![var("e", 2)], vec![1])).err().unwrap();
    assert_eq!(e.kind, AlgoErrorKind::InputHint);
    assert_eq!(e.span, sp(4));
}

#[test]
fn input_hints_split_and_combine_in_argument_order() {
    let exps = vec![var("a", 1), var("b", 2), var("c", 3)];
    let (ins, outs) = p4spec::algo::input::split_inputs(&vec![2, 0], exps, sp(9)).ok().unwrap();
    assert_eq!(ins.iter().map(var_name).collect::<Vec<_>>(), vec!["a".to_string(), "c".to_string()]);
    assert_eq!(outs.iter().map(var_name).collect::<Vec<_>>(), vec!["b".to_string()]);
    let all = p4spec::algo::input::combine_inputs(&vec![2, 0], ins, outs);
    assert_eq!(all.iter().map(var_name).collect::<Vec<_>>(), vec!["a".to_string(), "b".to_string(), "c".to_string()]);
    let e = p4spec::algo::input::split_inputs(&vec![3], vec![var("a", 1)], sp(9)).err().unwrap();
    assert_eq!(e.kind, AlgoErrorKind::InputHint);
    assert_eq!(e.span, sp(9));
}

fn il_prem(node: p4spec::il::PremKind, lo: u64) -> p4spec::il::Prem {
    p4spec::il::Prem { node, span: sp(lo) }
}

#[test]
fn premises_bind_for_the_premises_after_them() {
    let mut ctx = with_bound(&["e"]);
    let prems = vec![
        il_prem(p4spec::il::PremKind::Rule(rel_prem(vec![var("e", 2), var("v", 3)], vec![0])), 4),
        il_prem(p4spec::il::PremKind::Debug(p4spec::il::IfPrem { exp: var("v", 6) }), 7),
    ];
    let out = p4spec::algo::prems::analyze_prems(&mut ctx, prems).ok().unwrap();
    assert_eq!(out.len(), 2);
    assert!(matches!(out[0].node, PremKind::Rule(_)));
    assert!(matches!(out[1].node, PremKind::Debug(_)));
    assert!(ctx.venv.contains_key(&ident("v", 0)));
}

#[test]
fn premises_fail_at_the_first_that_reads_an_unbound_variable() {
    let mut ctx = with_bound(&["e"]);
    let prems = vec![
        il_prem(p4spec::il::PremKind::Debug(p4spec::il::IfPrem { exp: var("v", 6) }), 7),
        il_prem(p4spec::il::PremKind::Rule(rel_prem(vec![var("e", 2), var("v", 3)], vec![0])), 4),
    ];
    let e = p4spec::algo::prems::analyze_prems(&mut ctx, prems).err().unwrap();
    assert_eq!(e.kind, AlgoErrorKind::FreeBindings);
    assert_eq!(e.span, sp(6));
    let out = p4spec::algo::prems::analyze_prems(&mut ctx, vec![]).ok().unwrap();
    assert!(out.is_empty());
}

#[test]
fn iterated_premise_that_already_binds_is_rejected() {
    let mut ctx = with_bound(&["e"]);
    let v = p4spec::il::Var { id: ident("x", 0), typ: Typ { node: TypKind::Num(NumTyp::Int), span: Span::none() }, iters: vec![] };
    let inner = il_prem(p4spec::il::PremKind::Debug(p4spec::il::IfPrem { exp: var("e", 2) }), 3);
    let iter = p4spec::il::IterPrem {
        prem: Box::new(inner),
        prem_iter: p4spec::il::PremIter { iter: p4spec::il::Iter::List, vars_bound: vec![], vars_bind: vec![v] },
    };
    let e = p4spec::algo::prems::analyze_prem(&mut ctx, ICtx::new(), il_prem(p4spec::il::PremKind::Iter(iter), 5)).err().unwrap();
    assert_eq!(e.kind, AlgoErrorKind::UnexpectedIterationBindings);
    assert_eq!(e.span, sp(5));
}

#[test]
fn otherwise_premises_must_be_pure() {
    let call = Exp { node: ExpKind::Call(ident("f", 8), vec![], vec![]), note: TypKind::Num(NumTyp::Int), span: sp(9) };
    let debug = p4spec::al::Prem { node: PremKind::Debug(IfPrem { exp: var("x", 1) }), span: sp(2) };
    let let_pure = p4spec::al::Prem { node: PremKind::Let(p4spec::al::LetPrem { exp_l: var("y", 3), exp_r: var("x", 4) }), span: sp(5) };
    assert!(p4spec::algo::purity::check_pure_prems_in_else(&vec![debug, let_pure]).is_ok());
    let let_call = p4spec::al::Prem { node: PremKind::Let(p4spec::al::LetPrem { exp_l: var("y", 3), exp_r: call }), span: sp(5) };
    let cond = p4spec::al::Prem { node: PremKind::If(IfPrem { exp: var("x", 1) }), span: sp(6) };
    let e = p4spec::algo::purity::check_pure_prems_in_else(&vec![let_call, cond]).err().unwrap();
    assert_eq!(e.kind, AlgoErrorKind::ImpureElsePremises);
    assert_eq!(e.span, sp(9));
    let cond = p4spec::al::Prem { node: PremKind::If(IfPrem { exp: var("x", 1) }), span: sp(6) };
    let e = p4spec::algo::purity::check_pure_prems_in_else(&vec![cond]).err().unwrap();
    assert_eq!(e.span, sp(6));
    assert!(p4spec::algo::purity::check_pure_prems_in_else(&vec![]).is_ok());
}

fn clause(args: Vec<Exp>, premises: Vec<p4spec::il::Prem>, expression: Exp) -> p4spec::il::Clause {
    let args = args.into_iter().map(|e| Arg { span: e.span, node: ArgKind::Exp(Box::new(e)) }).collect();
    p4spec::il::Clause { args, premises, expression, span: sp(30) }
}

#[test]
fn clause_arguments_bind_for_its_result() {
    let mut ctx = Context::new();
    let cl = clause(vec![var("x", 1)], vec![], var("x", 2));
    let out = p4spec::algo::clause::lower_clause(&mut ctx, cl, false).ok().unwrap();
    assert_eq!(out.args.len(), 1);
    assert!(out.premises.is_empty());
    assert_eq!(out.span, sp(30));
    assert!(!ctx.venv.contains_key(&ident("x", 0)));
    let cl = clause(vec![var("x", 1)], vec![], var("y", 2));
    let e = p4spec::algo::clause::lower_clause(&mut ctx, cl, false).err().unwrap();
    assert_eq!(e.kind, AlgoErrorKind::FreeBindings);
    assert_eq!(e.span, sp(2));
}

#[test]
fn otherwise_clause_rejects_a_condition() {
    let mut ctx = Context::new();
    let cond = il_prem(p4spec::il::PremKind::If(p4spec::il::IfPrem { exp: var("x", 4) }), 5);
    let cl = clause(vec![var("x", 1)], vec![cond], var("x", 2));
    let out = p4spec::algo::clause::lower_clause(&mut ctx, cl, false).ok().unwrap();
    assert_eq!(out.premises.len(), 1);
    let cond = il_prem(p4spec::il::PremKind::If(p4spec::il::IfPrem { exp: var("x", 4) }), 5);
    let cl = clause(vec![var("x", 1)], vec![cond], var("x", 2));
    let e = p4spec::algo::clause::lower_clause(&mut ctx, cl, true).err().unwrap();
    assert_eq!(e.kind, AlgoErrorKind::ImpureElsePremises);
    assert_eq!(e.span, sp(5));
}

#[test]
fn rule_path_binds_its_outputs_through_its_premises() {
    let mut ctx = with_bound(&["e"]);
    let rule = || il_prem(p4spec::il::PremKind::Rule(rel_prem(vec![var("e", 2), var("v", 3)], vec![0])), 4);
    let path = p4spec::algo::clause::lower_rule_path(&mut ctx, vec![], vec![rule()], vec![var("v", 8)], false).ok().unwrap();
    assert_eq!(path.prems.len(), 1);
    assert_eq!(path.exps_output.len(), 1);
    let mut ctx = with_bound(&["e"]);
    let e = p4spec::algo::clause::lower_rule_path(&mut ctx, vec![], vec![rule()], vec![var("w", 8)], false).err().unwrap();
    assert_eq!(e.kind, AlgoErrorKind::FreeBindings);
    assert_eq!(e.span, sp(8));
    let mut ctx = with_bound(&["e"]);
    let e = p4spec::algo::clause::lower_rule_path(&mut ctx, vec![], vec![rule()], vec![var("v", 8)], true).err().unwrap();
    assert_eq!(e.kind, AlgoErrorKind::ImpureElsePremises);
    assert_eq!(e.span, sp(4));
}

#[test]
fn free_variables_in_order_of_first_occurrence() {
    let e = Exp {
        node: ExpKind::Tuple(vec![var("x", 1), var("y", 2), var("x", 3)]),
        note: TypKind::Num(NumTyp::Int),
        span: sp(4),
    };
    let vs = p4spec::prose::free::free_vars_exp(&e);
    assert_eq!(vs.iter().map(|v| v.id.node.clone()).collect::<Vec<_>>(), vec!["x".to_string(), "y".to_string()]);
    assert!(vs.iter().all(|v| v.iters.is_empty()));
    let bound = p4spec::il::Var { id: ident("x", 0), typ: Typ { node: TypKind::Num(NumTyp::Int), span: Span::none() }, iters: vec![] };
    let it = Exp {
        node: ExpKind::Iter(
            Box::new(e),
            p4spec::il::ExpIter { iter: p4spec::il::Iter::List, vars: vec![bound] },
        ),
        note: TypKind::Num(NumTyp::Int),
        span: sp(5),
    };
    let vs = p4spec::prose::free::free_vars_exp(&it);
    assert_eq!(vs.len(), 2);
    assert_eq!(vs[0].id.node, "x");
    assert_eq!(vs[0].iters, vec![p4spec::il::Iter::List]);
    assert!(vs[1].iters.is_empty());
    let lit = num(3, 6);
    assert!(p4spec::prose::free::free_vars_exp(&lit).is_empty());
}

#[test]
fn function_clauses_are_analysed_in_order() {
    let mut ctx = Context::new();
    let f = p4spec::il_decl::DefinedFunc {
        id: ident("f", 0),
        tparams: vec![],
        params: vec![],
        typ: Typ { node: TypKind::Num(NumTyp::Int), span: Span::none() },
        clauses: vec![clause(vec![var("x", 1)], vec![], var("x", 2))],
        else_clause: Some(clause(vec![var("x", 11)], vec![], var("x", 12))),
    };
    let d = p4spec::algo::clause::lower_defined_func(&mut ctx, f).ok().unwrap();
    assert_eq!(d.id.node, "f");
    assert_eq!(d.clauses.len(), 1);
    assert!(d.else_clause.is_some());
    let f = p4spec::il_decl::DefinedFunc {
        id: ident("f", 0),
        tparams: vec![],
        params: vec![],
        typ: Typ { node: TypKind::Num(NumTyp::Int), span: Span::none() },
        clauses: vec![clause(vec![var("x", 1)], vec![], var("x", 2)), clause(vec![var("x", 1)], vec![], var("w", 22))],
        else_clause: None,
    };
    let e = p4spec::algo::clause::lower_defined_func(&mut ctx, f).err().unwrap();
    assert_eq!(e.kind, AlgoErrorKind::FreeBindings);
    assert_eq!(e.span, sp(22));
}
