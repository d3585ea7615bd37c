use p4spec::algo::bind::{BEnv, Binding};
use p4spec::algo::diagnostics;
use p4spec::algo::dim::Dim;
use p4spec::elaborate::report::{Diagnostic, LabelStyle, Report, ReportKind, Severity};
use p4spec::il::{Id, Typ, TypKind};
use p4spec::span::Span;

fn at(lo: u64) -> Span {
    Span { lo, hi: lo + 1 }
}

fn id(name: &str, lo: u64) -> Id {
    Id { node: name.to_string(), span: at(lo) }
}

fn cause(r: &Report) -> &Diagnostic {
    match &r.kind {
        ReportKind::Cause(d) => d,
        _ => panic!("not a diagnostic"),
    }
}

fn benv(names: &[&str]) -> BEnv {
    BEnv {
        entries: names
            .iter()
            .map(|n| (id(n, 0), Binding::Single(Dim { typ: Typ { node: TypKind::Bool, span: Span::none() }, iters: vec![] })))
            .collect(),
    }
}

#[test]
fn an_undefined_type_is_reported_at_its_name() {
    let r = diagnostics::type_undefined(&id("packet", 7));
    let d = cause(&r);
    assert_eq!(d.source, "algo");
    assert_eq!(d.code.as_deref(), Some("algo/type-undefined"));
    assert_eq!(d.message, "type `packet` is not defined");
    assert_eq!(d.labels.len(), 1);
    assert_eq!(d.labels[0].span, at(7));
    assert!(r.children.is_empty());
}

#[test]
fn arity_mismatches_print_both_numbers() {
    let r = diagnostics::type_argument_arity_mismatch(at(1), 2, 13);
    assert_eq!(cause(&r).message, "type argument arity mismatch: expected 2, got 13");
    let r = diagnostics::table_pattern_arity_mismatch(at(1), 10, 0);
    assert_eq!(cause(&r).message, "pattern arity mismatch: expected 10, got 0");
    assert_eq!(cause(&r).code.as_deref(), Some("algo/table-pattern-arity-mismatch"));
}

#[test]
fn otherwise_bodies_relate_their_start() {
    let r = diagnostics::otherwise_relation_call_invalid(at(4), at(2));
    let d = cause(&r);
    assert_eq!(d.message, "an `otherwise` body cannot call a relation");
    assert_eq!(d.labels[0].style, LabelStyle::Primary);
    assert_eq!(d.labels[0].span, at(4));
    assert_eq!(d.labels[1].style, LabelStyle::Secondary);
    assert_eq!(d.labels[1].span, at(2));
    assert_eq!(d.labels[1].message, "`otherwise` body starts here");
    assert_eq!(cause(&diagnostics::otherwise_condition_invalid(at(4), at(2))).message, "an `otherwise` body cannot test a condition");
    assert_eq!(cause(&diagnostics::otherwise_function_call_invalid(at(4), at(2))).message, "an `otherwise` body cannot call a function");
}

#[test]
fn bound_names_are_described_in_order() {
    assert_eq!(diagnostics::describe_bindings(&benv(&[])), "no variables");
    assert_eq!(diagnostics::describe_bindings(&benv(&["x"])), "variable `x`");
    assert_eq!(diagnostics::describe_bindings(&benv(&["x", "y", "z"])), "variables `x`, `y`, `z`");
}

#[test]
fn an_equality_binding_on_both_sides_names_both() {
    let r = diagnostics::equality_binding_invalid(at(3), &benv(&["a"]), &benv(&["b", "c"]));
    let d = cause(&r);
    assert_eq!(d.message, "both sides of an equality bind new variables: left side binds variable `a`, right side binds variables `b`, `c`");
    assert_eq!(d.notes.len(), 1);
}

#[test]
fn a_non_invertible_binding_names_the_construct() {
    let r = diagnostics::binding_non_invertible(at(3), "addition", &benv(&["n"]));
    assert_eq!(cause(&r).message, "non-invertible addition contains newly bound variable `n`");
}

#[test]
fn an_unbound_input_relates_the_argument() {
    let x = id("x", 5);
    let rel = id("Eval", 1);
    let r = diagnostics::expression_variable_unbound(&x, Some((&rel, 2, at(9))));
    let d = cause(&r);
    assert_eq!(d.message, "`x` is not bound when this expression is evaluated");
    assert_eq!(d.labels[0].message, "`x` is read here");
    assert_eq!(d.labels[1].message, "argument %2 of relation `Eval` is evaluated as input; it cannot bind `x`");
    assert_eq!(d.labels[1].span, at(9));
    let r = diagnostics::expression_variable_unbound(&x, None);
    assert_eq!(cause(&r).labels.len(), 1);
    assert_eq!(cause(&r).severity, Severity::Error);
}

#[test]
fn table_diagnostics_keep_their_locations() {
    let r = diagnostics::table_binding_repeated(&id("k", 6), at(2));
    let d = cause(&r);
    assert_eq!(d.message, "table row pattern binds `k` more than once");
    assert_eq!(d.labels[1].message, "first bound here");
    assert_eq!(cause(&diagnostics::table_pattern_overlapping(at(8), at(1))).labels[1].span, at(1));
    assert_eq!(cause(&diagnostics::table_parameter_invalid(at(8))).message, "table declaration contains a non-expression parameter");
    assert_eq!(cause(&diagnostics::rule_input_mismatch(at(8))).message, "cannot anti-unify rule inputs");
    assert_eq!(cause(&diagnostics::iteration_binding_invalid(at(8))).code.as_deref(), Some("algo/iteration-binding-invalid"));
}
