use p4spec::al::TableRow;
use p4spec::algo::analyze::{check_valid_table_rows, pattern_set_covered_by_exp, pattern_set_covered_by_typ};
use p4spec::algo::context::Context;
use p4spec::algo::error::AlgoErrorKind;
use p4spec::il::{Arg, ArgKind, Exp, ExpKind, Id, Mixop, NotExp, NotTyp, Typ, TypKind};
use p4spec::il_def::{Def, DefKind, DefTyp, DefTypKind, TypDef};
use p4spec::span::Span;

fn at(lo: u64) -> Span {
    Span { lo, hi: lo + 1 }
}

fn id(name: &str, lo: u64) -> Id {
    Id { node: name.to_string(), span: at(lo) }
}

fn mixop(name: &str) -> Mixop {
    Mixop { phrases: vec![vec![name.to_string()]] }
}

fn case(name: &str) -> NotTyp {
    NotTyp { mixop: mixop(name), typs: vec![], span: Span::none() }
}

fn named(name: &str) -> TypKind {
    TypKind::Var(id(name, 90), vec![])
}

fn variant(name: &str, cases: &[&str]) -> Def {
    Def {
        node: DefKind::Typ(TypDef::Defined {
            id: id(name, 0),
            tparams: vec![],
            def_typ: DefTyp { node: DefTypKind::Variant(cases.iter().map(|c| case(c)).collect()), span: Span::none() },
        }),
        span: Span::none(),
    }
}

fn alias(name: &str) -> Def {
    Def {
        node: DefKind::Typ(TypDef::Defined {
            id: id(name, 0),
            tparams: vec![],
            def_typ: DefTyp { node: DefTypKind::Plain(Typ { node: TypKind::Bool, span: Span::none() }), span: Span::none() },
        }),
        span: Span::none(),
    }
}

fn context() -> Context {
    let mut ctx = Context::new();
    ctx.load(&vec![variant("color", &["Red", "Green"]), variant("shape", &["Circle", "Square"]), alias("flag")]);
    ctx
}

fn var(name: &str, typ: &str, lo: u64) -> Exp {
    Exp { node: ExpKind::Var(id(name, lo)), note: named(typ), span: at(lo) }
}

fn case_exp(name: &str, typ: &str, lo: u64) -> Exp {
    let inner = Exp { node: ExpKind::Case(NotExp { mixop: mixop(name), args: vec![] }), note: named(typ), span: at(lo) };
    Exp { node: ExpKind::UpCast(Typ { node: named(typ), span: at(lo) }, Box::new(inner)), note: named(typ), span: at(lo) }
}

fn table_row(pats: Vec<Exp>) -> TableRow {
    table_row_at(pats, Span::none())
}

fn table_row_at(pats: Vec<Exp>, span: Span) -> TableRow {
    TableRow {
        exps_signature: pats,
        args: vec![],
        exp: Exp { node: ExpKind::Bool(true), note: TypKind::Bool, span: Span::none() },
        prems: vec![],
        span,
    }
}

fn param(typ: &str) -> Typ {
    Typ { node: named(typ), span: at(70) }
}

fn names(p: &p4spec::algo::pattern::PatternSet) -> Vec<String> {
    let mut v: Vec<String> = p.not_typs.iter().map(|n| n.mixop.phrases[0][0].clone()).collect();
    v.sort();
    v
}

#[test]
fn a_variant_type_covers_all_its_cases() {
    let ctx = context();
    let p = pattern_set_covered_by_typ(&ctx, &param("color")).ok().unwrap();
    assert_eq!(names(&p), vec!["Green".to_string(), "Red".to_string()]);
}

#[test]
fn a_type_that_is_no_variant_covers_nothing() {
    let ctx = context();
    let e = pattern_set_covered_by_typ(&ctx, &param("flag")).err().unwrap();
    assert_eq!(e.kind, AlgoErrorKind::NonVariantPatternType);
    assert_eq!(e.span, at(70));
    let e = pattern_set_covered_by_typ(&ctx, &Typ { node: TypKind::Bool, span: at(71) }).err().unwrap();
    assert_eq!(e.kind, AlgoErrorKind::NonVariantPatternType);
    assert_eq!(e.span, at(71));
}

#[test]
fn an_undefined_pattern_type_is_reported_at_its_name() {
    let ctx = context();
    let e = pattern_set_covered_by_typ(&ctx, &param("nope")).err().unwrap();
    assert_eq!(e.kind, AlgoErrorKind::UndefinedType);
    assert_eq!(e.span, at(90));
}

#[test]
fn a_case_pattern_covers_its_case_and_a_variable_its_type() {
    let ctx = context();
    let p = pattern_set_covered_by_exp(&ctx, &case_exp("Red", "color", 3)).ok().unwrap();
    assert_eq!(names(&p), vec!["Red".to_string()]);
    let p = pattern_set_covered_by_exp(&ctx, &var("c", "shape", 4)).ok().unwrap();
    assert_eq!(names(&p), vec!["Circle".to_string(), "Square".to_string()]);
}

#[test]
fn a_literal_is_no_table_pattern() {
    let ctx = context();
    let lit = Exp { node: ExpKind::Bool(true), note: TypKind::Bool, span: at(5) };
    let e = pattern_set_covered_by_exp(&ctx, &lit).err().unwrap();
    assert_eq!(e.kind, AlgoErrorKind::InvalidTablePattern);
    assert_eq!(e.span, at(5));
}

#[test]
fn exclusive_and_exhaustive_rows_are_valid() {
    let ctx = context();
    let rows = vec![
        table_row(vec![case_exp("Red", "color", 1), var("s", "shape", 2)]),
        table_row(vec![case_exp("Green", "color", 3), case_exp("Circle", "shape", 4)]),
        table_row(vec![case_exp("Green", "color", 5), case_exp("Square", "shape", 6)]),
    ];
    assert!(check_valid_table_rows(&ctx, &at(50), &vec![param("color"), param("shape")], &rows).is_ok());
}

#[test]
fn overlapping_rows_are_rejected() {
    let ctx = context();
    let rows = vec![
        table_row_at(vec![case_exp("Red", "color", 1)], Span { lo: 10, hi: 20 }),
        table_row_at(vec![case_exp("Green", "color", 2)], Span { lo: 20, hi: 30 }),
        table_row_at(vec![var("c", "color", 3)], Span { lo: 30, hi: 40 }),
    ];
    let e = check_valid_table_rows(&ctx, &at(50), &vec![param("color")], &rows).err().unwrap();
    assert_eq!(e.kind, AlgoErrorKind::OverlappingTablePatterns { earlier: Span { lo: 10, hi: 20 } });
    assert_eq!(e.span, Span { lo: 30, hi: 40 });
}

#[test]
fn the_declared_types_are_checked_before_the_rows() {
    let ctx = context();
    let rows = vec![
        table_row_at(vec![case_exp("Red", "color", 1)], Span { lo: 10, hi: 20 }),
        table_row_at(vec![var("c", "color", 2)], Span { lo: 20, hi: 30 }),
        table_row_at(vec![var("_", "color", 3)], Span { lo: 30, hi: 40 }),
    ];
    let e = check_valid_table_rows(&ctx, &at(50), &vec![param("flag")], &rows).err().unwrap();
    assert_eq!(e.kind, AlgoErrorKind::NonVariantPatternType);
    assert_eq!(e.span, at(70));
}

#[test]
fn a_missing_case_is_rejected() {
    let ctx = context();
    let rows = vec![table_row_at(vec![case_exp("Red", "color", 1)], Span { lo: 10, hi: 20 })];
    let e = check_valid_table_rows(&ctx, &at(50), &vec![param("color")], &rows).err().unwrap();
    assert_eq!(e.kind, AlgoErrorKind::MissingTablePatterns);
    assert_eq!(e.span, Span { lo: 20, hi: 20 });
    let e = check_valid_table_rows(&ctx, &at(50), &vec![param("color")], &vec![]).err().unwrap();
    assert_eq!(e.kind, AlgoErrorKind::MissingTablePatterns);
    assert_eq!(e.span, at(50));
}

#[test]
fn a_closing_wildcard_row_makes_up_for_missing_cases() {
    let ctx = context();
    let rows = vec![table_row(vec![case_exp("Red", "color", 1)]), table_row(vec![var("_", "color", 2)])];
    assert!(check_valid_table_rows(&ctx, &at(50), &vec![param("color")], &rows).is_ok());
}

#[test]
fn a_bad_pattern_is_reported_before_anything_else() {
    let ctx = context();
    let lit = Exp { node: ExpKind::Bool(true), note: TypKind::Bool, span: at(8) };
    let rows = vec![table_row(vec![case_exp("Red", "color", 1)]), table_row(vec![lit])];
    let e = check_valid_table_rows(&ctx, &at(50), &vec![param("color")], &rows).err().unwrap();
    assert_eq!(e.kind, AlgoErrorKind::InvalidTablePattern);
    assert_eq!(e.span, at(8));
}

#[test]
fn rows_narrower_than_the_parameters_are_rejected() {
    let ctx = context();
    let rows = vec![table_row(vec![case_exp("Red", "color", 1)])];
    let e = check_valid_table_rows(&ctx, &at(50), &vec![param("color"), param("shape")], &rows).err().unwrap();
    assert!(matches!(e.kind, AlgoErrorKind::PatternArityMismatch { .. }));
    assert_eq!(e.span, at(50));
}

#[test]
fn a_parameter_of_no_variant_type_is_rejected() {
    let ctx = context();
    let rows = vec![table_row(vec![var("_", "color", 2)])];
    let e = check_valid_table_rows(&ctx, &at(50), &vec![param("flag")], &rows).err().unwrap();
    assert_eq!(e.kind, AlgoErrorKind::NonVariantPatternType);
    assert_eq!(e.span, at(70));
}

fn int_var(name: &str, lo: u64) -> Exp {
    Exp { node: ExpKind::Var(id(name, lo)), note: TypKind::Bool, span: at(lo) }
}

fn bound_context(names: &[&str]) -> Context {
    let mut ctx = context();
    let mut venv = p4spec::algo::dim::VEnv::new();
    for n in names {
        venv.insert(id(n, 0), p4spec::algo::dim::Dim { typ: Typ { node: TypKind::Bool, span: Span::none() }, iters: vec![] });
    }
    ctx.add_bounds(&venv);
    ctx
}

#[test]
fn an_expression_of_bound_variables_binds_nothing() {
    let ctx = bound_context(&["x", "y"]);
    let e = Exp { node: ExpKind::Tuple(vec![int_var("x", 1), int_var("y", 2)]), note: TypKind::Tuple(vec![]), span: at(3) };
    assert!(p4spec::algo::analyze::analyze_exp_as_bound(&ctx, &e).is_ok());
}

#[test]
fn a_free_variable_is_reported_at_its_expression() {
    let ctx = bound_context(&["x"]);
    let e = Exp { node: ExpKind::Tuple(vec![int_var("x", 1), int_var("z", 2)]), note: TypKind::Tuple(vec![]), span: at(3) };
    let err = p4spec::algo::analyze::analyze_exp_as_bound(&ctx, &e).err().unwrap();
    assert_eq!(err.kind, AlgoErrorKind::FreeBindings);
    assert_eq!(err.span, at(3));
    let err = p4spec::algo::analyze::analyze_exps_as_bound(&ctx, &vec![int_var("x", 1), int_var("z", 2), int_var("w", 4)]).err().unwrap();
    assert_eq!(err.span, at(2));
}

#[test]
fn a_function_argument_is_not_shallow() {
    let ctx = bound_context(&["x"]);
    let ok = Arg { node: ArgKind::Exp(Box::new(int_var("x", 1))), span: at(1) };
    let def = Arg { node: ArgKind::Def(id("f", 2)), span: at(2) };
    assert!(p4spec::algo::analyze::analyze_args_as_bound_shallow(&ctx, &vec![ok]).is_ok());
    let ok = Arg { node: ArgKind::Exp(Box::new(int_var("x", 1))), span: at(1) };
    let err = p4spec::algo::analyze::analyze_args_as_bound_shallow(&ctx, &vec![ok, def]).err().unwrap();
    assert_eq!(err.kind, AlgoErrorKind::BindingsNotShallow);
    assert_eq!(err.span, at(2));
    let free = Arg { node: ArgKind::Exp(Box::new(int_var("q", 5))), span: at(5) };
    let err = p4spec::algo::analyze::analyze_args_as_bound_shallow(&ctx, &vec![free]).err().unwrap();
    assert_eq!(err.kind, AlgoErrorKind::FreeBindings);
}
