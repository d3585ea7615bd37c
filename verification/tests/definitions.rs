use p4spec::algo::context::Context;
use p4spec::algo::defs::{analyze_rule_match, analyze_table_row, analyze_table_rows};
use p4spec::algo::error::AlgoErrorKind;
use p4spec::il::{Arg, ArgKind, Exp, ExpKind, Id, Mixop, NotExp, NotTyp, NumTyp, Param, ParamKind, TableRow, Typ, TypKind};
use p4spec::il_def::{Def, DefKind, DefTyp, DefTypKind, TypDef};
use p4spec::span::Span;

fn at(lo: u64) -> Span {
    Span { lo, hi: lo + 1 }
}

fn id(name: &str, lo: u64) -> Id {
    Id { node: name.to_string(), span: at(lo) }
}

fn mixop(name: &str) -> Mixop {
    Mixop { phrases: vec![vec![name.to_string()]] }
}

fn named(name: &str) -> TypKind {
    TypKind::Var(id(name, 90), vec![])
}

fn variant(name: &str, cases: &[&str]) -> Def {
    let cases = cases.iter().map(|c| NotTyp { mixop: mixop(c), typs: vec![], span: Span::none() }).collect();
    Def {
        node: DefKind::Typ(TypDef::Defined {
            id: id(name, 0),
            tparams: vec![],
            def_typ: DefTyp { node: DefTypKind::Variant(cases), span: Span::none() },
        }),
        span: Span::none(),
    }
}

fn context() -> Context {
    let mut ctx = Context::new();
    ctx.load(&vec![variant("color", &["Red", "Green"])]);
    ctx
}

fn var(name: &str, typ: TypKind, lo: u64) -> Exp {
    Exp { node: ExpKind::Var(id(name, lo)), note: typ, span: at(lo) }
}

fn boolean(b: bool, lo: u64) -> Exp {
    Exp { node: ExpKind::Bool(b), note: TypKind::Bool, span: at(lo) }
}

fn case_exp(name: &str, lo: u64) -> Exp {
    let inner = Exp { node: ExpKind::Case(NotExp { mixop: mixop(name), args: vec![] }), note: named("color"), span: at(lo) };
    Exp { node: ExpKind::UpCast(Typ { node: named("color"), span: at(lo) }, Box::new(inner)), note: named("color"), span: at(lo) }
}

fn arg(e: Exp) -> Arg {
    let span = e.span;
    Arg { node: ArgKind::Exp(Box::new(e)), span }
}

fn row(pats: Vec<Exp>, result: Exp, lo: u64) -> TableRow {
    TableRow { args: pats.into_iter().map(arg).collect(), exp: result, span: at(lo) }
}

fn color_param() -> Param {
    Param { node: ParamKind::Exp(Typ { node: named("color"), span: at(80) }), span: at(80) }
}

fn var_name(e: &Exp) -> String {
    match &e.node {
        ExpKind::Var(id) => id.node.clone(),
        _ => panic!("not a variable"),
    }
}

#[test]
fn a_table_row_binds_its_arguments_for_its_result() {
    let mut ctx = context();
    let r = row(vec![var("c", named("color"), 1)], var("c", named("color"), 2), 3);
    let t = analyze_table_row(&mut ctx, r).ok().unwrap();
    assert_eq!(t.exps_signature.len(), 1);
    assert_eq!(var_name(&t.exps_signature[0]), "c");
    assert_eq!(var_name(&t.exp), "c");
    assert_eq!(t.span, at(3));
    assert!(t.prems.is_empty());
    // the context is as it was
    assert!(!ctx.venv.contains_key(&id("c", 0)));
    assert!(!ctx.frees.contains(&id("c", 0)));
}

#[test]
fn a_table_row_result_must_be_bound() {
    let mut ctx = context();
    let r = row(vec![var("c", named("color"), 1)], var("z", named("color"), 2), 3);
    let e = analyze_table_row(&mut ctx, r).err().unwrap();
    assert_eq!(e.kind, AlgoErrorKind::FreeBindings);
    assert_eq!(e.span, at(2));
}

#[test]
fn a_table_row_argument_must_be_shallow() {
    let mut ctx = context();
    let r = TableRow { args: vec![Arg { node: ArgKind::Def(id("f", 5)), span: at(5) }], exp: boolean(true, 6), span: at(7) };
    let e = analyze_table_row(&mut ctx, r).err().unwrap();
    assert_eq!(e.kind, AlgoErrorKind::BindingsNotShallow);
    assert_eq!(e.span, at(5));
}

#[test]
fn exhaustive_exclusive_rows_make_a_valid_table() {
    let mut ctx = context();
    let rows = vec![
        row(vec![case_exp("Red", 1)], boolean(true, 2), 3),
        row(vec![case_exp("Green", 4)], boolean(false, 5), 6),
    ];
    let rs = analyze_table_rows(&mut ctx, &at(50), &vec![color_param()], rows).ok().unwrap();
    assert_eq!(rs.len(), 2);
    assert_eq!(rs[0].span, at(3));
    assert_eq!(rs[1].span, at(6));
}

#[test]
fn a_table_missing_a_case_is_rejected_unless_closed() {
    let mut ctx = context();
    let rows = vec![row(vec![case_exp("Red", 1)], boolean(true, 2), 3)];
    let e = analyze_table_rows(&mut ctx, &at(50), &vec![color_param()], rows).err().unwrap();
    assert_eq!(e.kind, AlgoErrorKind::MissingTablePatterns);
    assert_eq!(e.span, Span { lo: 4, hi: 4 });
    let rows = vec![
        row(vec![case_exp("Red", 1)], boolean(true, 2), 3),
        row(vec![var("_", named("color"), 4)], boolean(false, 5), 6),
    ];
    let rs = analyze_table_rows(&mut ctx, &at(50), &vec![color_param()], rows).ok().unwrap();
    assert_eq!(rs.len(), 2);
}

#[test]
fn overlapping_table_rows_are_rejected() {
    let mut ctx = context();
    let rows = vec![
        row(vec![case_exp("Red", 1)], boolean(true, 2), 3),
        row(vec![var("c", named("color"), 4)], boolean(false, 5), 6),
    ];
    let e = analyze_table_rows(&mut ctx, &at(50), &vec![color_param()], rows).err().unwrap();
    assert_eq!(e.kind, AlgoErrorKind::OverlappingTablePatterns { earlier: at(3) });
    assert_eq!(e.span, at(6));
}

#[test]
fn a_table_parameter_must_be_a_value() {
    let mut ctx = context();
    let rows = vec![row(vec![var("c", named("color"), 1)], boolean(true, 2), 3)];
    let params = vec![Param { node: ParamKind::Def(id("f", 81)), span: at(81) }];
    let e = analyze_table_rows(&mut ctx, &at(50), &params, rows).err().unwrap();
    assert_eq!(e.kind, AlgoErrorKind::InvalidTableParameter);
    assert_eq!(e.span, at(81));
}

#[test]
fn a_failing_row_fails_the_table() {
    let mut ctx = context();
    let rows = vec![
        row(vec![case_exp("Red", 1)], boolean(true, 2), 3),
        row(vec![var("c", named("color"), 4)], var("z", named("color"), 5), 6),
    ];
    let e = analyze_table_rows(&mut ctx, &at(50), &vec![color_param()], rows).err().unwrap();
    assert_eq!(e.kind, AlgoErrorKind::FreeBindings);
    assert_eq!(e.span, at(5));
}

#[test]
fn a_rule_match_binds_the_antiunified_signature() {
    // (true, x) and (false, x) match on (bool, x), which then are bound
    let mut ctx = Context::new();
    let int = || TypKind::Num(NumTyp::Int);
    let rows = vec![
        vec![boolean(true, 1), var("x", int(), 2)],
        vec![boolean(false, 3), var("x", int(), 4)],
    ];
    let (rm, prems) = analyze_rule_match(&mut ctx, rows).ok().unwrap();
    assert_eq!(rm.exps_signature.len(), 2);
    assert_eq!(var_name(&rm.exps_signature[0]), "bool");
    assert_eq!(var_name(&rm.exps_signature[1]), "x");
    assert_eq!(var_name(&rm.exps_input[0]), "bool");
    assert_eq!(var_name(&rm.exps_input[1]), "x");
    assert!(rm.prems.is_empty());
    assert_eq!(prems.len(), 2);
    assert!(ctx.venv.contains_key(&id("bool", 0)));
    assert!(ctx.venv.contains_key(&id("x", 0)));
}

#[test]
fn a_rule_match_of_rules_of_different_arity_fails() {
    let mut ctx = Context::new();
    let rows = vec![vec![boolean(true, 1)], vec![boolean(true, 2), boolean(false, 3)]];
    let e = analyze_rule_match(&mut ctx, rows).err().unwrap();
    assert_eq!(e.kind, AlgoErrorKind::ExpressionArityMismatch { expected: 1, actual: 2 });
}
