use p4spec::elaborate::diagnostics;
use p4spec::elaborate::expected::{notation_shape_mismatch, notation_token_mismatch, ExpectedType, NotationArgument, TypeSubject};
use p4spec::elaborate::report::{annotate_causes, Diagnostic, Label, LabelStyle, Report, ReportKind, Severity};
use p4spec::il::Id;
use p4spec::span::Span;

fn at(lo: u64) -> Span {
    Span { lo, hi: lo + 1 }
}

fn id(name: &str, lo: u64) -> Id {
    Id { node: name.to_string(), span: at(lo) }
}

fn cause(r: &Report) -> &Diagnostic {
    match &r.kind {
        ReportKind::Cause(d) => d,
        _ => panic!("not a diagnostic"),
    }
}

fn leaf(message: &str) -> Report {
    Report {
        kind: ReportKind::Cause(Diagnostic {
            source: "elab".to_string(),
            severity: Severity::Error,
            code: None,
            message: message.to_string(),
            labels: vec![],
            notes: vec![],
        }),
        children: vec![],
    }
}

fn frame(children: Vec<Report>) -> Report {
    Report { kind: ReportKind::Frame { span: at(0), message: "while".to_string() }, children }
}

#[test]
fn premise_diagnostics_keep_codes_and_spans() {
    let r = diagnostics::premise_otherwise_repeated(at(4), at(2));
    let d = cause(&r);
    assert_eq!(d.code.as_deref(), Some("elab/premise-otherwise-repeated"));
    assert_eq!(d.message, "cannot use more than one `otherwise` premise");
    assert_eq!(d.labels[1].message, "first `otherwise` premise here");
    let r = diagnostics::premise_negated_output_unsupported(&id("Eval", 1), at(5), at(6));
    assert_eq!(cause(&r).message, "negated rule premise for relation `Eval` cannot use output positions");
    assert_eq!(cause(&r).notes, vec!["Rule premise negation is supported only for relations without outputs.".to_string()]);
}

#[test]
fn a_rule_in_the_wrong_group_names_both_relations() {
    let r = diagnostics::relation_rule_group_name_mismatch(&id("Step", 1), &id("Eval", 2));
    let d = cause(&r);
    assert_eq!(d.message, "rule belongs to relation `Step`, but its enclosing rule group belongs to relation `Eval`");
    assert_eq!(d.labels[1].message, "enclosing rule group names relation `Eval`");
    assert_eq!(d.labels[1].span, at(2));
}

#[test]
fn input_hint_diagnostics_count_positions() {
    let r = diagnostics::relation_input_hint_index_out_of_bounds(3, 1, at(1), at(2));
    assert_eq!(cause(&r).message, "input hint index `%3` is out of bounds for a relation with 1 position");
    assert_eq!(cause(&r).labels[1].message, "relation has 1 position");
    let r = diagnostics::relation_input_hint_index_out_of_bounds(7, 12, at(1), at(2));
    assert_eq!(cause(&r).message, "input hint index `%7` is out of bounds for a relation with 12 positions");
    let r = diagnostics::relation_input_hint_index_repeated(0, at(1), at(2));
    assert_eq!(cause(&r).message, "input hint repeats index `%0`");
    let w = diagnostics::relation_input_hint_missing(&id("Eval", 1), at(3));
    assert_eq!(cause(&w).severity, Severity::Warning);
    assert_eq!(cause(&w).message, "relation `Eval` has no input hint");
}

#[test]
fn iteration_diagnostics_share_their_message() {
    let e = diagnostics::iteration_expression_empty(at(1));
    let p = diagnostics::iteration_premise_empty(at(1));
    assert_eq!(cause(&e).message, cause(&p).message);
    assert_eq!(cause(&e).code.as_deref(), Some("elab/iteration-expression-empty"));
    assert_eq!(cause(&p).code.as_deref(), Some("elab/iteration-premise-empty"));
    let r = diagnostics::iteration_dimension_mismatch(&id("x", 1), "nat*", at(5), "nat", at(3));
    assert_eq!(cause(&r).message, "identifier `x` has incompatible iteration dimensions: `nat` and `nat*`");
    assert_eq!(cause(&r).labels[1].message, "other occurrence has dimension `nat`");
}

#[test]
fn type_diagnostics_use_singular_and_plural() {
    let r = diagnostics::type_argument_arity_mismatch(&id("list", 1), 1, 2, at(4), Some(at(9)));
    assert_eq!(cause(&r).message, "type `list` expects 1 type argument, but got 2");
    assert_eq!(cause(&r).labels.len(), 2);
    let r = diagnostics::type_argument_arity_mismatch(&id("map", 1), 2, 0, at(4), None);
    assert_eq!(cause(&r).message, "type `map` expects 2 type arguments, but got 0");
    assert_eq!(cause(&r).labels.len(), 1);
    let r = diagnostics::function_call_argument_arity_mismatch(None, 1, 3, at(4), None);
    assert_eq!(cause(&r).message, "expected 1 argument, but got 3");
    let f = id("f", 1);
    let r = diagnostics::function_call_argument_arity_mismatch(Some(&f), 2, 3, at(4), Some(at(8)));
    assert_eq!(cause(&r).message, "function `f` expects 2 arguments, but got 3");
    assert_eq!(cause(&r).labels[1].message, "function declared here");
}

#[test]
fn type_parameters_are_listed_with_commas() {
    let r = diagnostics::type_parameter_mismatch(&id("pair", 1), &vec![id("A", 2), id("B", 3)], &vec![], at(4), at(5));
    assert_eq!(
        cause(&r).message,
        "type `pair` was forward-declared with type parameters `<A, B>`, but its definition has no type parameters"
    );
    let w = diagnostics::type_definition_missing(&id("pair", 1), &vec![id("A", 2), id("B", 3)]);
    assert_eq!(cause(&w).message, "type `pair<A, B>` was declared but not defined");
    assert_eq!(cause(&w).severity, Severity::Warning);
    let w = diagnostics::type_definition_missing(&id("unit", 1), &vec![]);
    assert_eq!(cause(&w).message, "type `unit` was declared but not defined");
    let r = diagnostics::function_clause_type_parameter_mismatch(&id("f", 1), &vec![], &vec![id("T", 2)], at(4), at(5));
    assert_eq!(cause(&r).message, "function `f` was declared with type parameters none, but this clause has type parameters <T>");
}

#[test]
fn a_passed_function_relates_both_declarations() {
    let r = diagnostics::function_argument_parameter_arity_mismatch(&id("g", 1), &id("h", 2), 1, 2, at(3), Some(at(4)));
    let d = cause(&r);
    assert_eq!(d.message, "function parameter `g` has 1 parameter, but passed function `h` has 2");
    assert_eq!(d.labels.len(), 3);
    assert_eq!(d.labels[2].message, "passed function declared here");
    assert_eq!(d.notes.len(), 1);
}

#[test]
fn operator_diagnostics_label_each_operand() {
    let r = diagnostics::operator_binop_type_mismatch("+", "bool", at(1), "nat", at(2));
    let d = cause(&r);
    assert_eq!(d.message, "operator '+' is not defined for 'bool' and 'nat'");
    assert_eq!(d.labels[0].message, "left operand has type 'bool'");
    assert_eq!(d.labels[1].message, "right operand has type 'nat'");
    assert_eq!(d.labels[1].style, LabelStyle::Primary);
    let r = diagnostics::type_extension_primitive_unsupported("nat", at(7));
    assert_eq!(cause(&r).message, "extension is not allowed for primitive type `nat`");
}

#[test]
fn a_cast_failure_names_its_subject() {
    let expected = ExpectedType {
        subject: TypeSubject::FunctionArgument { idx: 1, id_func: id("f", 1) },
        text_typ: "nat".to_string(),
        span_declaration: at(9),
    };
    let r = expected.type_mismatch("nat", "bool", at(3));
    let d = cause(&r);
    assert_eq!(d.message, "argument 1 of function '$f' expects 'nat', but found 'bool'");
    assert_eq!(d.code.as_deref(), Some("elab/function-argument-type-mismatch"));
    let slot = NotationArgument { idx: 0, id_rel: Some(id("Eval", 2)), text_typ: "exp".to_string(), span_typ: at(6) };
    let r = slot.type_mismatch("exp", "nat", at(3));
    assert_eq!(cause(&r).message, "argument 0 of relation 'Eval' expects 'exp', but found 'nat'");
}

#[test]
fn annotating_labels_every_cause_once() {
    let expected = ExpectedType {
        subject: TypeSubject::FunctionReturn { id_func: id("f", 1) },
        text_typ: "nat".to_string(),
        span_declaration: at(9),
    };
    let mut reports = vec![frame(vec![leaf("a"), frame(vec![leaf("b")])]), leaf("c")];
    expected.annotate(&mut reports);
    expected.annotate(&mut reports);
    let a = cause(&reports[0].children[0]);
    let b = cause(&reports[0].children[1].children[0]);
    let c = cause(&reports[1]);
    for d in [a, b, c] {
        assert_eq!(d.labels.len(), 1);
        assert_eq!(d.labels[0].message, "return value of function '$f' expects 'nat'");
        assert_eq!(d.labels[0].span, at(9));
    }
    assert!(matches!(reports[0].kind, ReportKind::Frame { .. }));
}

#[test]
fn annotating_without_dedup_adds_each_time() {
    let slot = NotationArgument { idx: 2, id_rel: None, text_typ: "exp".to_string(), span_typ: at(6) };
    let mut reports = vec![leaf("a")];
    slot.annotate(&mut reports);
    slot.annotate(&mut reports);
    assert_eq!(cause(&reports[0]).labels.len(), 2);
    assert_eq!(cause(&reports[0]).labels[0].message, "argument 2 of notation expects 'exp'");
    let label = Label { style: LabelStyle::Secondary, span: at(1), message: "m".to_string() };
    annotate_causes(&mut reports, &label, true);
    assert_eq!(cause(&reports[0]).labels.len(), 3);
}

#[test]
fn notation_mismatches_name_the_relation() {
    let r = notation_shape_mismatch(at(1), "e ~> e", at(2), &Some(id("Step", 3)));
    assert_eq!(cause(&r).message, "expression does not match notation of relation 'Step'");
    assert_eq!(cause(&r).notes, vec!["expected notation: e ~> e".to_string()]);
    let r = notation_token_mismatch("~>", at(4), "=>", at(5), "e ~> e", &None);
    let d = cause(&r);
    assert_eq!(d.message, "expected '~>', but found '=>'");
    assert_eq!(d.labels[0].message, "unexpected token");
    assert_eq!(d.labels[0].span, at(5));
    assert_eq!(d.notes, vec!["expected notation: e ~> e".to_string()]);
}
