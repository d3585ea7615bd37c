//! Structured diagnostics of the conversion to the algorithmic language.
//!
//! Each constructor owns one stable `algo/...` code and keeps the spans
//! available at the binding, otherwise-body and table checks.

use vstd::prelude::*;
use crate::span::Span;
use crate::il::Id;
use crate::algo::bind::BEnv;
use crate::elaborate::report::{
    Label, LabelStyle, Report, Severity, append_decimal, decimal_text, diagnostic, is_diagnostic, labels1, labels2,
    labels_view, label_view, named, notes0, notes1, primary, primary_v, related, related_v, strings_view,
};

verus! {

/// An error from the algorithmic conversion.
fn cause(code: &str, message: String, labels: Vec<Label>, notes: Vec<String>) -> (r: Report)
    ensures
        is_diagnostic(r, "algo"@, Severity::Error, code@, message@, labels_view(labels@), strings_view(notes@)),
{
    diagnostic("algo", Severity::Error, code, message, labels, notes)
}

// == Types and rule inputs

/// Reports a missing type in the given specification.
pub fn type_undefined(id: &Id) -> (r: Report)
    ensures
        is_diagnostic(r, "algo"@, Severity::Error, "algo/type-undefined"@, "type `"@ + id@ + "` is not defined"@,
            seq![primary_v(id.span)], Seq::empty()),
{
    cause("algo/type-undefined", named("type `", &id.node, "` is not defined"), labels1(primary(id.span)), notes0())
}

/// Reports type arguments of the wrong number.
pub fn type_argument_arity_mismatch(span: Span, expected: usize, actual: usize) -> (r: Report)
    ensures
        is_diagnostic(r, "algo"@, Severity::Error, "algo/type-argument-arity-mismatch"@,
            "type argument arity mismatch: expected "@ + decimal_text(expected as nat) + ", got "@ + decimal_text(actual as nat),
            seq![primary_v(span)], Seq::empty()),
{
    let mut message = String::from_str("type argument arity mismatch: expected ");
    append_decimal(&mut message, expected);
    message.append(", got ");
    append_decimal(&mut message, actual);
    cause("algo/type-argument-arity-mismatch", message, labels1(primary(span)), notes0())
}

/// Reports rule inputs that cannot be overlapped.
pub fn rule_input_mismatch(span: Span) -> (r: Report)
    ensures
        is_diagnostic(r, "algo"@, Severity::Error, "algo/rule-input-mismatch"@, "cannot anti-unify rule inputs"@,
            seq![primary_v(span)], Seq::empty()),
{
    cause("algo/rule-input-mismatch", String::from_str("cannot anti-unify rule inputs"), labels1(primary(span)), notes0())
}

// == Otherwise bodies

/// Reports a conditional premise in an otherwise body.
pub fn otherwise_condition_invalid(span: Span, span_else: Span) -> (r: Report)
    ensures
        is_diagnostic(r, "algo"@, Severity::Error, "algo/otherwise-condition-invalid"@,
            "an `otherwise` body cannot test a condition"@,
            seq![primary_v(span), related_v(span_else, "`otherwise` body starts here"@)], Seq::empty()),
{
    cause(
        "algo/otherwise-condition-invalid",
        String::from_str("an `otherwise` body cannot test a condition"),
        labels2(primary(span), related(span_else, "`otherwise` body starts here")),
        notes0(),
    )
}

/// Reports a function call in an otherwise body.
pub fn otherwise_function_call_invalid(span: Span, span_else: Span) -> (r: Report)
    ensures
        is_diagnostic(r, "algo"@, Severity::Error, "algo/otherwise-function-call-invalid"@,
            "an `otherwise` body cannot call a function"@,
            seq![primary_v(span), related_v(span_else, "`otherwise` body starts here"@)], Seq::empty()),
{
    cause(
        "algo/otherwise-function-call-invalid",
        String::from_str("an `otherwise` body cannot call a function"),
        labels2(primary(span), related(span_else, "`otherwise` body starts here")),
        notes0(),
    )
}

/// Reports a relation call in an otherwise body.
pub fn otherwise_relation_call_invalid(span: Span, span_else: Span) -> (r: Report)
    ensures
        is_diagnostic(r, "algo"@, Severity::Error, "algo/otherwise-relation-call-invalid"@,
            "an `otherwise` body cannot call a relation"@,
            seq![primary_v(span), related_v(span_else, "`otherwise` body starts here"@)], Seq::empty()),
{
    cause(
        "algo/otherwise-relation-call-invalid",
        String::from_str("an `otherwise` body cannot call a relation"),
        labels2(primary(span), related(span_else, "`otherwise` body starts here")),
        notes0(),
    )
}

// == Tables

/// Relates a repeated binder of a table row to its first occurrence.
pub fn table_binding_repeated(id: &Id, span_first: Span) -> (r: Report)
    ensures
        is_diagnostic(r, "algo"@, Severity::Error, "algo/table-binding-repeated"@,
            "table row pattern binds `"@ + id@ + "` more than once"@,
            seq![primary_v(id.span), related_v(span_first, "first bound here"@)],
            seq!["Each table parameter contributes one independent match pattern. Reusing a variable would add an equality condition between positions, which table rows do not support."@]),
{
    cause(
        "algo/table-binding-repeated",
        named("table row pattern binds `", &id.node, "` more than once"),
        labels2(primary(id.span), related(span_first, "first bound here")),
        notes1("Each table parameter contributes one independent match pattern. Reusing a variable would add an equality condition between positions, which table rows do not support."),
    )
}

/// Relates an overlapping row pattern to the earlier row.
pub fn table_pattern_overlapping(span: Span, span_first: Span) -> (r: Report)
    ensures
        is_diagnostic(r, "algo"@, Severity::Error, "algo/table-pattern-overlapping"@,
            "table row pattern overlaps an earlier row"@,
            seq![primary_v(span), related_v(span_first, "earlier overlapping pattern"@)], Seq::empty()),
{
    cause(
        "algo/table-pattern-overlapping",
        String::from_str("table row pattern overlaps an earlier row"),
        labels2(primary(span), related(span_first, "earlier overlapping pattern")),
        notes0(),
    )
}

/// Reports table rows of different widths.
pub fn table_pattern_arity_mismatch(span: Span, expected: usize, actual: usize) -> (r: Report)
    ensures
        is_diagnostic(r, "algo"@, Severity::Error, "algo/table-pattern-arity-mismatch"@,
            "pattern arity mismatch: expected "@ + decimal_text(expected as nat) + ", got "@ + decimal_text(actual as nat),
            seq![primary_v(span)], Seq::empty()),
{
    let mut message = String::from_str("pattern arity mismatch: expected ");
    append_decimal(&mut message, expected);
    message.append(", got ");
    append_decimal(&mut message, actual);
    cause("algo/table-pattern-arity-mismatch", message, labels1(primary(span)), notes0())
}

/// Reports a function parameter of a table.
pub fn table_parameter_invalid(span: Span) -> (r: Report)
    ensures
        is_diagnostic(r, "algo"@, Severity::Error, "algo/table-parameter-invalid"@,
            "table declaration contains a non-expression parameter"@, seq![primary_v(span)], Seq::empty()),
{
    cause(
        "algo/table-parameter-invalid",
        String::from_str("table declaration contains a non-expression parameter"),
        labels1(primary(span)),
        notes0(),
    )
}

// == Bindings

/// The names bound by a binding environment, in its order.
pub open spec fn benv_names(b: BEnv) -> Seq<Seq<char>> {
    Seq::new(b.entries@.len(), |i: int| b.entries@[i].0@)
}

/// Names in backquotes, separated by commas.
pub open spec fn quoted_list(ids: Seq<Seq<char>>) -> Seq<char>
    decreases ids.len(),
{
    if ids.len() == 0 {
        Seq::empty()
    } else if ids.len() == 1 {
        "`"@ + ids[0] + "`"@
    } else {
        quoted_list(ids.drop_last()) + ", `"@ + ids.last() + "`"@
    }
}

/// How a diagnostic names the variables of a binder pattern.
pub open spec fn bindings_text(ids: Seq<Seq<char>>) -> Seq<char> {
    if ids.len() == 0 {
        "no variables"@
    } else if ids.len() == 1 {
        "variable `"@ + ids[0] + "`"@
    } else {
        "variables "@ + quoted_list(ids)
    }
}

/// Describes the variables introduced by a binder pattern, each once, in
/// the environment's order.
pub fn describe_bindings(benv: &BEnv) -> (s: String)
    ensures
        s@ == bindings_text(benv_names(*benv)),
{
    let ghost ids = benv_names(*benv);
    let n = benv.entries.len();
    if n == 0 {
        return String::from_str("no variables");
    }
    if n == 1 {
        return named("variable `", &benv.entries[0].0.node, "`");
    }
    let mut s = String::from_str("variables ");
    for i in 0..n
        invariant
            n == benv.entries@.len(),
            ids == benv_names(*benv),
            s@ == "variables "@ + quoted_list(ids.take(i as int)),
    {
        let ghost before = s@;
        let ghost x = benv.entries@[i as int].0@;
        if i > 0 {
            s.append(", `");
        } else {
            s.append("`");
        }
        s.append(benv.entries[i].0.node.as_str());
        s.append("`");
        proof {
            assert(ids.take(i + 1).drop_last() =~= ids.take(i as int));
            assert(ids.take(i + 1).last() == x);
            if i == 0 {
                assert(ids.take(0) =~= Seq::<Seq<char>>::empty());
                assert(s@ =~= "variables "@ + quoted_list(ids.take(i + 1)));
            } else {
                assert(s@ =~= "variables "@ + quoted_list(ids.take(i + 1)));
            }
        }
    }
    proof {
        assert(ids.take(n as int) =~= ids);
    }
    s
}

/// Reports new variables underneath a construct that cannot be inverted.
pub fn binding_non_invertible(span: Span, construct: &str, benv: &BEnv) -> (r: Report)
    ensures
        is_diagnostic(r, "algo"@, Severity::Error, "algo/binding-non-invertible"@,
            "non-invertible "@ + construct@ + " contains newly bound "@ + bindings_text(benv_names(*benv)),
            seq![primary_v(span)],
            seq!["Each variable in a binding expression must correspond directly to a tuple element, variant case argument, struct field, or list element. Operators are not inverted, even when their inverse would be unique."@]),
{
    let mut message = String::from_str("non-invertible ");
    message.append(construct);
    message.append(" contains newly bound ");
    let d = describe_bindings(benv);
    message.append(d.as_str());
    cause(
        "algo/binding-non-invertible",
        message,
        labels1(primary(span)),
        notes1("Each variable in a binding expression must correspond directly to a tuple element, variant case argument, struct field, or list element. Operators are not inverted, even when their inverse would be unique."),
    )
}

/// Reports an equality that binds new variables on both sides.
pub fn equality_binding_invalid(span: Span, benv_l: &BEnv, benv_r: &BEnv) -> (r: Report)
    ensures
        is_diagnostic(r, "algo"@, Severity::Error, "algo/equality-binding-invalid"@,
            "both sides of an equality bind new variables: left side binds "@ + bindings_text(benv_names(*benv_l))
                + ", right side binds "@ + bindings_text(benv_names(*benv_r)),
            seq![primary_v(span)],
            seq!["An `=` premise reads as a comparison when both sides are already bound, or as a binder when one side is. With new variables on both sides it fits neither."@]),
{
    let mut message = String::from_str("both sides of an equality bind new variables: left side binds ");
    let l = describe_bindings(benv_l);
    message.append(l.as_str());
    message.append(", right side binds ");
    let r = describe_bindings(benv_r);
    message.append(r.as_str());
    cause(
        "algo/equality-binding-invalid",
        message,
        labels1(primary(span)),
        notes1("An `=` premise reads as a comparison when both sides are already bound, or as a binder when one side is. With new variables on both sides it fits neither."),
    )
}

/// Rejects an iterated premise that already lists binding variables.
pub fn iteration_binding_invalid(span: Span) -> (r: Report)
    ensures
        is_diagnostic(r, "algo"@, Severity::Error, "algo/iteration-binding-invalid"@,
            "iterated premise has binding variables before binding analysis"@, seq![primary_v(span)], Seq::empty()),
{
    cause(
        "algo/iteration-binding-invalid",
        String::from_str("iterated premise has binding variables before binding analysis"),
        labels1(primary(span)),
        notes0(),
    )
}

/// Reports a variable read before it is bound; when the read is an input
/// argument of a relation, the argument's index and location are related.
pub fn expression_variable_unbound(id: &Id, input_opt: Option<(&Id, usize, Span)>) -> (r: Report)
    ensures
        is_diagnostic(r, "algo"@, Severity::Error, "algo/expression-variable-unbound"@,
            "`"@ + id@ + "` is not bound when this expression is evaluated"@,
            match input_opt {
                None => seq![(LabelStyle::Primary, id.span, "`"@ + id@ + "` is read here"@)],
                Some((rel, idx, span_idx)) => seq![
                    (LabelStyle::Primary, id.span, "`"@ + id@ + "` is read here"@),
                    related_v(span_idx, "argument %"@ + decimal_text(idx as nat) + " of relation `"@ + rel@
                        + "` is evaluated as input; it cannot bind `"@ + id@ + "`"@),
                ],
            },
            seq!["Bind the variable in an earlier input pattern or premise before reading it here."@]),
{
    let read = Label { style: LabelStyle::Primary, span: id.span, message: named("`", &id.node, "` is read here") };
    let labels = match input_opt {
        None => labels1(read),
        Some((rel, idx, span_idx)) => {
            let mut m = String::from_str("argument %");
            append_decimal(&mut m, idx);
            m.append(" of relation `");
            m.append(rel.node.as_str());
            m.append("` is evaluated as input; it cannot bind `");
            m.append(id.node.as_str());
            m.append("`");
            labels2(read, Label { style: LabelStyle::Secondary, span: span_idx, message: m })
        },
    };
    cause(
        "algo/expression-variable-unbound",
        named("`", &id.node, "` is not bound when this expression is evaluated"),
        labels,
        notes1("Bind the variable in an earlier input pattern or premise before reading it here."),
    )
}

} // verus!
