//! Structured diagnostics of elaboration: declarations and lookups,
//! premises and rules, relation input hints, iteration dimensions and types.
//!
//! Each constructor owns one stable `elab/...` code and keeps the spans
//! available at its check: repeated declarations label the later occurrence
//! and relate the first; missing bodies are warnings. Where a message shows
//! a type or a dimension, the caller passes its printed text.

use vstd::prelude::*;
use crate::span::Span;
use crate::il::Id;
use crate::elaborate::report::{
    Label, LabelStyle, Report, Severity, append_decimal, decimal_text, diagnostic, is_diagnostic, label_view, labels1,
    labels2, labels_view, named, notes0, notes1, primary, primary_v, related, related_v, strings_view,
};

verus! {

/// Reports a missing type at its use.
pub fn type_undefined(id: &Id) -> (r: Report)
    ensures
        is_diagnostic(r, "elab"@, Severity::Error, "elab/type-undefined"@, "type `"@ + id@ + "` is undefined"@, seq![primary_v(id.span)], Seq::empty()),
{
    diagnostic("elab", Severity::Error, "elab/type-undefined", named("type `", &id.node, "` is undefined"), labels1(primary(id.span)), notes0())
}

/// Reports a suffix on a meta-variable declaration identifier.
pub fn meta_variable_identifier_invalid(id: &Id) -> (r: Report)
    ensures
        is_diagnostic(r, "elab"@, Severity::Error, "elab/meta-variable-identifier-invalid"@, "meta-variable identifier `"@ + id@ + "` must not have a suffix"@, seq![primary_v(id.span)], Seq::empty()),
{
    diagnostic("elab", Severity::Error, "elab/meta-variable-identifier-invalid", named("meta-variable identifier `", &id.node, "` must not have a suffix"), labels1(primary(id.span)), notes0())
}

/// Reports a missing relation at its use.
pub fn relation_undefined(id: &Id) -> (r: Report)
    ensures
        is_diagnostic(r, "elab"@, Severity::Error, "elab/relation-undefined"@, "relation `"@ + id@ + "` is undefined"@, seq![primary_v(id.span)], Seq::empty()),
{
    diagnostic("elab", Severity::Error, "elab/relation-undefined", named("relation `", &id.node, "` is undefined"), labels1(primary(id.span)), notes0())
}

/// Reports a missing relation named by a rule.
pub fn relation_rule_undefined(id: &Id) -> (r: Report)
    ensures
        is_diagnostic(r, "elab"@, Severity::Error, "elab/relation-rule-undefined"@, "relation `"@ + id@ + "` is undefined"@, seq![primary_v(id.span)], Seq::empty()),
{
    diagnostic("elab", Severity::Error, "elab/relation-rule-undefined", named("relation `", &id.node, "` is undefined"), labels1(primary(id.span)), notes0())
}

/// Reports a missing function at its use.
pub fn function_undefined(id: &Id) -> (r: Report)
    ensures
        is_diagnostic(r, "elab"@, Severity::Error, "elab/function-undefined"@, "function `"@ + id@ + "` is undefined"@, seq![primary_v(id.span)], Seq::empty()),
{
    diagnostic("elab", Severity::Error, "elab/function-undefined", named("function `", &id.node, "` is undefined"), labels1(primary(id.span)), notes0())
}

/// Requires a matching declaration before a function definition.
pub fn function_declaration_required(id: &Id) -> (r: Report)
    ensures
        is_diagnostic(r, "elab"@, Severity::Error, "elab/function-declaration-required"@, "a definition of function `"@ + id@ + "` requires a preceding matching `dec` declaration"@, seq![primary_v(id.span)], Seq::empty()),
{
    diagnostic("elab", Severity::Error, "elab/function-declaration-required", named("a definition of function `", &id.node, "` requires a preceding matching `dec` declaration"), labels1(primary(id.span)), notes0())
}

/// Reports a missing table function at its use.
pub fn function_table_undefined(id: &Id) -> (r: Report)
    ensures
        is_diagnostic(r, "elab"@, Severity::Error, "elab/function-table-undefined"@, "table function `"@ + id@ + "` is undefined"@, seq![primary_v(id.span)], Seq::empty()),
{
    diagnostic("elab", Severity::Error, "elab/function-table-undefined", named("table function `", &id.node, "` is undefined"), labels1(primary(id.span)), notes0())
}

/// Reports a repeated type with the first declaration's location.
pub fn type_definition_repeated(id: &Id, span_previous: Span) -> (r: Report)
    ensures
        is_diagnostic(
            r,
            "elab"@,
            Severity::Error,
            "elab/type-definition-repeated"@,
            "type `"@ + id@ + "` was already defined"@,
            seq![primary_v(id.span), related_v(span_previous, "first declaration"@)],
            Seq::empty(),
        ),
{
    diagnostic(
        "elab",
        Severity::Error,
        "elab/type-definition-repeated",
        named("type `", &id.node, "` was already defined"),
        labels2(primary(id.span), related(span_previous, "first declaration")),
        notes0(),
    )
}

/// Reports a repeated meta-variable with the first declaration's location.
pub fn meta_variable_repeated(id: &Id, span_previous: Span) -> (r: Report)
    ensures
        is_diagnostic(
            r,
            "elab"@,
            Severity::Error,
            "elab/meta-variable-repeated"@,
            "meta-variable `"@ + id@ + "` was already defined"@,
            seq![primary_v(id.span), related_v(span_previous, "first declaration"@)],
            Seq::empty(),
        ),
{
    diagnostic(
        "elab",
        Severity::Error,
        "elab/meta-variable-repeated",
        named("meta-variable `", &id.node, "` was already defined"),
        labels2(primary(id.span), related(span_previous, "first declaration")),
        notes0(),
    )
}

/// Reports a meta-variable named like a type, and relates the type.
pub fn meta_variable_type_repeated(id: &Id, span_previous: Span) -> (r: Report)
    ensures
        is_diagnostic(
            r,
            "elab"@,
            Severity::Error,
            "elab/meta-variable-type-repeated"@,
            "meta-variable name `"@ + id@ + "` is already used by a type"@,
            seq![primary_v(id.span), related_v(span_previous, "first declaration"@)],
            Seq::empty(),
        ),
{
    diagnostic(
        "elab",
        Severity::Error,
        "elab/meta-variable-type-repeated",
        named("meta-variable name `", &id.node, "` is already used by a type"),
        labels2(primary(id.span), related(span_previous, "first declaration")),
        notes0(),
    )
}

/// Reports a repeated relation with the first declaration's location.
pub fn relation_repeated(id: &Id, span_previous: Span) -> (r: Report)
    ensures
        is_diagnostic(
            r,
            "elab"@,
            Severity::Error,
            "elab/relation-repeated"@,
            "relation `"@ + id@ + "` was already defined"@,
            seq![primary_v(id.span), related_v(span_previous, "first declaration"@)],
            Seq::empty(),
        ),
{
    diagnostic(
        "elab",
        Severity::Error,
        "elab/relation-repeated",
        named("relation `", &id.node, "` was already defined"),
        labels2(primary(id.span), related(span_previous, "first declaration")),
        notes0(),
    )
}

/// Reports a repeated extern relation with the first declaration's location.
pub fn relation_extern_repeated(id: &Id, span_previous: Span) -> (r: Report)
    ensures
        is_diagnostic(
            r,
            "elab"@,
            Severity::Error,
            "elab/relation-extern-repeated"@,
            "extern relation `"@ + id@ + "` was already defined"@,
            seq![primary_v(id.span), related_v(span_previous, "first declaration"@)],
            Seq::empty(),
        ),
{
    diagnostic(
        "elab",
        Severity::Error,
        "elab/relation-extern-repeated",
        named("extern relation `", &id.node, "` was already defined"),
        labels2(primary(id.span), related(span_previous, "first declaration")),
        notes0(),
    )
}

/// Reports a rule for an extern relation, and relates its declaration.
pub fn relation_extern_rule_unsupported(id: &Id, span_previous: Span) -> (r: Report)
    ensures
        is_diagnostic(
            r,
            "elab"@,
            Severity::Error,
            "elab/relation-extern-rule-unsupported"@,
            "extern relation `"@ + id@ + "` does not allow rules"@,
            seq![primary_v(id.span), related_v(span_previous, "extern relation declared here"@)],
            Seq::empty(),
        ),
{
    diagnostic(
        "elab",
        Severity::Error,
        "elab/relation-extern-rule-unsupported",
        named("extern relation `", &id.node, "` does not allow rules"),
        labels2(primary(id.span), related(span_previous, "extern relation declared here")),
        notes0(),
    )
}

/// Reports a repeated rule group with the first declaration's location.
pub fn relation_rule_group_repeated(id: &Id, span_previous: Span) -> (r: Report)
    ensures
        is_diagnostic(
            r,
            "elab"@,
            Severity::Error,
            "elab/relation-rule-group-repeated"@,
            "rule group `"@ + id@ + "` was already defined"@,
            seq![primary_v(id.span), related_v(span_previous, "first declaration"@)],
            Seq::empty(),
        ),
{
    diagnostic(
        "elab",
        Severity::Error,
        "elab/relation-rule-group-repeated",
        named("rule group `", &id.node, "` was already defined"),
        labels2(primary(id.span), related(span_previous, "first declaration")),
        notes0(),
    )
}

/// Reports a repeated function with the first declaration's location.
pub fn function_repeated(id: &Id, span_previous: Span) -> (r: Report)
    ensures
        is_diagnostic(
            r,
            "elab"@,
            Severity::Error,
            "elab/function-repeated"@,
            "function `"@ + id@ + "` was already defined"@,
            seq![primary_v(id.span), related_v(span_previous, "first declaration"@)],
            Seq::empty(),
        ),
{
    diagnostic(
        "elab",
        Severity::Error,
        "elab/function-repeated",
        named("function `", &id.node, "` was already defined"),
        labels2(primary(id.span), related(span_previous, "first declaration")),
        notes0(),
    )
}

/// Reports a repeated extern function with the first declaration's location.
pub fn function_extern_repeated(id: &Id, span_previous: Span) -> (r: Report)
    ensures
        is_diagnostic(
            r,
            "elab"@,
            Severity::Error,
            "elab/function-extern-repeated"@,
            "extern function `"@ + id@ + "` was already defined"@,
            seq![primary_v(id.span), related_v(span_previous, "first declaration"@)],
            Seq::empty(),
        ),
{
    diagnostic(
        "elab",
        Severity::Error,
        "elab/function-extern-repeated",
        named("extern function `", &id.node, "` was already defined"),
        labels2(primary(id.span), related(span_previous, "first declaration")),
        notes0(),
    )
}

/// Reports a repeated builtin function with the first declaration's location.
pub fn function_builtin_repeated(id: &Id, span_previous: Span) -> (r: Report)
    ensures
        is_diagnostic(
            r,
            "elab"@,
            Severity::Error,
            "elab/function-builtin-repeated"@,
            "builtin function `"@ + id@ + "` was already defined"@,
            seq![primary_v(id.span), related_v(span_previous, "first declaration"@)],
            Seq::empty(),
        ),
{
    diagnostic(
        "elab",
        Severity::Error,
        "elab/function-builtin-repeated",
        named("builtin function `", &id.node, "` was already defined"),
        labels2(primary(id.span), related(span_previous, "first declaration")),
        notes0(),
    )
}

/// Reports a repeated type parameter of a function.
pub fn function_type_parameter_repeated(id: &Id, span_previous: Span) -> (r: Report)
    ensures
        is_diagnostic(
            r,
            "elab"@,
            Severity::Error,
            "elab/function-type-parameter-repeated"@,
            "type parameter `"@ + id@ + "` was already defined"@,
            seq![primary_v(id.span), related_v(span_previous, "first declaration"@)],
            Seq::empty(),
        ),
{
    diagnostic(
        "elab",
        Severity::Error,
        "elab/function-type-parameter-repeated",
        named("type parameter `", &id.node, "` was already defined"),
        labels2(primary(id.span), related(span_previous, "first declaration")),
        notes0(),
    )
}

/// Reports a repeated type parameter of an extern function.
pub fn function_extern_type_parameter_repeated(id: &Id, span_previous: Span) -> (r: Report)
    ensures
        is_diagnostic(
            r,
            "elab"@,
            Severity::Error,
            "elab/function-extern-type-parameter-repeated"@,
            "type parameter `"@ + id@ + "` was already defined"@,
            seq![primary_v(id.span), related_v(span_previous, "first declaration"@)],
            Seq::empty(),
        ),
{
    diagnostic(
        "elab",
        Severity::Error,
        "elab/function-extern-type-parameter-repeated",
        named("type parameter `", &id.node, "` was already defined"),
        labels2(primary(id.span), related(span_previous, "first declaration")),
        notes0(),
    )
}

/// Reports a repeated type parameter of a builtin function.
pub fn function_builtin_type_parameter_repeated(id: &Id, span_previous: Span) -> (r: Report)
    ensures
        is_diagnostic(
            r,
            "elab"@,
            Severity::Error,
            "elab/function-builtin-type-parameter-repeated"@,
            "type parameter `"@ + id@ + "` was already defined"@,
            seq![primary_v(id.span), related_v(span_previous, "first declaration"@)],
            Seq::empty(),
        ),
{
    diagnostic(
        "elab",
        Severity::Error,
        "elab/function-builtin-type-parameter-repeated",
        named("type parameter `", &id.node, "` was already defined"),
        labels2(primary(id.span), related(span_previous, "first declaration")),
        notes0(),
    )
}

/// Reports table rows for a non-table function, and relates its declaration.
pub fn function_table_required(id: &Id, span_previous: Span) -> (r: Report)
    ensures
        is_diagnostic(
            r,
            "elab"@,
            Severity::Error,
            "elab/function-table-required"@,
            "non-table function `"@ + id@ + "` does not allow table rows"@,
            seq![primary_v(id.span), related_v(span_previous, "function declared here"@)],
            Seq::empty(),
        ),
{
    diagnostic(
        "elab",
        Severity::Error,
        "elab/function-table-required",
        named("non-table function `", &id.node, "` does not allow table rows"),
        labels2(primary(id.span), related(span_previous, "function declared here")),
        notes0(),
    )
}

/// Reports a repeated table function with the first declaration's location.
pub fn function_table_repeated(id: &Id, span_previous: Span) -> (r: Report)
    ensures
        is_diagnostic(
            r,
            "elab"@,
            Severity::Error,
            "elab/function-table-repeated"@,
            "table function `"@ + id@ + "` was already defined"@,
            seq![primary_v(id.span), related_v(span_previous, "first declaration"@)],
            Seq::empty(),
        ),
{
    diagnostic(
        "elab",
        Severity::Error,
        "elab/function-table-repeated",
        named("table function `", &id.node, "` was already defined"),
        labels2(primary(id.span), related(span_previous, "first declaration")),
        notes0(),
    )
}

/// Reports a repeated table, and relates the first definition.
pub fn table_row_repeated(id: &Id, span_previous: Span) -> (r: Report)
    ensures
        is_diagnostic(
            r,
            "elab"@,
            Severity::Error,
            "elab/table-row-repeated"@,
            "table `"@ + id@ + "` was already defined"@,
            seq![primary_v(id.span), related_v(span_previous, "first table definition"@)],
            Seq::empty(),
        ),
{
    diagnostic(
        "elab",
        Severity::Error,
        "elab/table-row-repeated",
        named("table `", &id.node, "` was already defined"),
        labels2(primary(id.span), related(span_previous, "first table definition")),
        notes0(),
    )
}

/// Reports both `otherwise` rules of a relation, in source order.
pub fn relation_otherwise_repeated(id: &Id, span: Span, span_previous: Span) -> (r: Report)
    ensures
        is_diagnostic(
            r,
            "elab"@,
            Severity::Error,
            "elab/relation-otherwise-repeated"@,
            "an `otherwise` rule for relation `"@ + id@ + "` was already defined"@,
            seq![primary_v(span), related_v(span_previous, "first otherwise rule"@)],
            Seq::empty(),
        ),
{
    diagnostic(
        "elab",
        Severity::Error,
        "elab/relation-otherwise-repeated",
        named("an `otherwise` rule for relation `", &id.node, "` was already defined"),
        labels2(primary(span), related(span_previous, "first otherwise rule")),
        notes0(),
    )
}

/// Reports both `otherwise` clauses of a function, in source order.
pub fn function_otherwise_repeated(id: &Id, span: Span, span_previous: Span) -> (r: Report)
    ensures
        is_diagnostic(
            r,
            "elab"@,
            Severity::Error,
            "elab/function-otherwise-repeated"@,
            "an `otherwise` clause for function `"@ + id@ + "` was already defined"@,
            seq![primary_v(span), related_v(span_previous, "first otherwise clause"@)],
            Seq::empty(),
        ),
{
    diagnostic(
        "elab",
        Severity::Error,
        "elab/function-otherwise-repeated",
        named("an `otherwise` clause for function `", &id.node, "` was already defined"),
        labels2(primary(span), related(span_previous, "first otherwise clause")),
        notes0(),
    )
}

/// Warns that a relation declaration has no rules.
pub fn relation_rule_missing(id: &Id, span: Span) -> (r: Report)
    ensures
        is_diagnostic(r, "elab"@, Severity::Warning, "elab/relation-rule-missing"@, "relation `"@ + id@ + "` has no rules defined"@, seq![primary_v(span)], Seq::empty()),
{
    diagnostic("elab", Severity::Warning, "elab/relation-rule-missing", named("relation `", &id.node, "` has no rules defined"), labels1(primary(span)), notes0())
}

/// Warns that a function declaration has no clauses.
pub fn function_clause_missing(id: &Id, span: Span) -> (r: Report)
    ensures
        is_diagnostic(r, "elab"@, Severity::Warning, "elab/function-clause-missing"@, "function `"@ + id@ + "` has no clauses defined"@, seq![primary_v(span)], Seq::empty()),
{
    diagnostic("elab", Severity::Warning, "elab/function-clause-missing", named("function `", &id.node, "` has no clauses defined"), labels1(primary(span)), notes0())
}

/// Warns that a table declaration has no rows.
pub fn table_row_missing(id: &Id, span: Span) -> (r: Report)
    ensures
        is_diagnostic(r, "elab"@, Severity::Warning, "elab/table-row-missing"@, "table `"@ + id@ + "` has no rows defined"@, seq![primary_v(span)], Seq::empty()),
{
    diagnostic("elab", Severity::Warning, "elab/table-row-missing", named("table `", &id.node, "` has no rows defined"), labels1(primary(span)), notes0())
}

/// Reports a table parameter that is a function parameter.
pub fn table_parameter_unsupported(id: &Id, span: Span) -> (r: Report)
    ensures
        is_diagnostic(r, "elab"@, Severity::Error, "elab/table-parameter-unsupported"@, "table parameter `"@ + id@ + "` must be a value parameter, but it is a function parameter"@, seq![primary_v(span)], Seq::empty()),
{
    diagnostic("elab", Severity::Error, "elab/table-parameter-unsupported", named("table parameter `", &id.node, "` must be a value parameter, but it is a function parameter"), labels1(primary(span)), notes0())
}

/// Reports the non-boolean return type of a table declaration.
pub fn table_return_type_invalid(id: &Id, span: Span, text_typ: &str) -> (r: Report)
    ensures
        is_diagnostic(
            r,
            "elab"@,
            Severity::Error,
            "elab/table-return-type-invalid"@,
            "table `"@ + id@ + "` must return `bool`, but its return type is `"@ + text_typ@ + "`"@,
            seq![primary_v(span)],
            Seq::empty(),
        ),
{
    let mut message = named("table `", &id.node, "` must return `bool`, but its return type is `");
    message.append(text_typ);
    message.append("`");
    diagnostic("elab", Severity::Error, "elab/table-return-type-invalid", message, labels1(primary(span)), notes0())
}

// == Premises and rules

/// Reports a suffix on the identifier of a variable premise.
pub fn premise_variable_identifier_invalid(id: &Id) -> (r: Report)
    ensures
        is_diagnostic(r, "elab"@, Severity::Error, "elab/premise-variable-identifier-invalid"@,
            "meta-variable identifier `"@ + id@ + "` must not have a suffix"@, seq![primary_v(id.span)], Seq::empty()),
{
    diagnostic("elab", Severity::Error, "elab/premise-variable-identifier-invalid",
        named("meta-variable identifier `", &id.node, "` must not have a suffix"), labels1(primary(id.span)), notes0())
}

/// Reports a variable premise whose name is already used by a type.
pub fn premise_variable_type_repeated(id: &Id, span_previous: Span) -> (r: Report)
    ensures
        is_diagnostic(r, "elab"@, Severity::Error, "elab/premise-variable-type-repeated"@,
            "meta-variable name `"@ + id@ + "` is already used by a type"@,
            seq![primary_v(id.span), related_v(span_previous, "type declared here"@)], Seq::empty()),
{
    diagnostic("elab", Severity::Error, "elab/premise-variable-type-repeated",
        named("meta-variable name `", &id.node, "` is already used by a type"),
        labels2(primary(id.span), related(span_previous, "type declared here")), notes0())
}

/// Reports a second `otherwise` premise and relates the first.
pub fn premise_otherwise_repeated(span: Span, span_previous: Span) -> (r: Report)
    ensures
        is_diagnostic(r, "elab"@, Severity::Error, "elab/premise-otherwise-repeated"@,
            "cannot use more than one `otherwise` premise"@,
            seq![primary_v(span), related_v(span_previous, "first `otherwise` premise here"@)], Seq::empty()),
{
    diagnostic("elab", Severity::Error, "elab/premise-otherwise-repeated",
        String::from_str("cannot use more than one `otherwise` premise"),
        labels2(primary(span), related(span_previous, "first `otherwise` premise here")), notes0())
}

/// Reports a negated premise of a relation with output positions.
pub fn premise_negated_output_unsupported(id: &Id, span_output: Span, span_signature: Span) -> (r: Report)
    ensures
        is_diagnostic(r, "elab"@, Severity::Error, "elab/premise-negated-output-unsupported"@,
            "negated rule premise for relation `"@ + id@ + "` cannot use output positions"@,
            seq![primary_v(span_output), related_v(span_signature, "relation signature with output positions here"@)],
            seq!["Rule premise negation is supported only for relations without outputs."@]),
{
    diagnostic("elab", Severity::Error, "elab/premise-negated-output-unsupported",
        named("negated rule premise for relation `", &id.node, "` cannot use output positions"),
        labels2(primary(span_output), related(span_signature, "relation signature with output positions here")),
        notes1("Rule premise negation is supported only for relations without outputs."))
}

/// Reports an iterated variable premise.
pub fn premise_variable_iteration_unsupported(span: Span) -> (r: Report)
    ensures
        is_diagnostic(r, "elab"@, Severity::Error, "elab/premise-variable-iteration-unsupported"@,
            "cannot iterate a `var` premise"@, seq![primary_v(span)],
            seq!["A variable premise declares its variable once for the rule."@]),
{
    diagnostic("elab", Severity::Error, "elab/premise-variable-iteration-unsupported",
        String::from_str("cannot iterate a `var` premise"), labels1(primary(span)),
        notes1("A variable premise declares its variable once for the rule."))
}

/// Reports an iterated `otherwise` premise.
pub fn premise_otherwise_iteration_unsupported(span: Span) -> (r: Report)
    ensures
        is_diagnostic(r, "elab"@, Severity::Error, "elab/premise-otherwise-iteration-unsupported"@,
            "cannot iterate an `otherwise` premise"@, seq![primary_v(span)],
            seq!["An `otherwise` premise selects one fallback path for the rule."@]),
{
    diagnostic("elab", Severity::Error, "elab/premise-otherwise-iteration-unsupported",
        String::from_str("cannot iterate an `otherwise` premise"), labels1(primary(span)),
        notes1("An `otherwise` premise selects one fallback path for the rule."))
}

/// Reports a rule naming another relation than its rule group.
pub fn relation_rule_group_name_mismatch(id_rule: &Id, id_group: &Id) -> (r: Report)
    ensures
        is_diagnostic(r, "elab"@, Severity::Error, "elab/relation-rule-group-name-mismatch"@,
            "rule belongs to relation `"@ + id_rule@ + "`, but its enclosing rule group belongs to relation `"@ + id_group@ + "`"@,
            seq![primary_v(id_rule.span), related_v(id_group.span, "enclosing rule group names relation `"@ + id_group@ + "`"@)],
            Seq::empty()),
{
    let mut message = named("rule belongs to relation `", &id_rule.node, "`, but its enclosing rule group belongs to relation `");
    message.append(id_group.node.as_str());
    message.append("`");
    let group = Label {
        style: LabelStyle::Secondary,
        span: id_group.span,
        message: named("enclosing rule group names relation `", &id_group.node, "`"),
    };
    diagnostic("elab", Severity::Error, "elab/relation-rule-group-name-mismatch", message,
        labels2(primary(id_rule.span), group), notes0())
}

/// Reports a second `otherwise` rule in a rule group.
pub fn relation_rule_otherwise_repeated(span: Span, span_previous: Span) -> (r: Report)
    ensures
        is_diagnostic(r, "elab"@, Severity::Error, "elab/relation-rule-otherwise-repeated"@,
            "cannot use more than one `otherwise` rule in a rule group"@,
            seq![primary_v(span), related_v(span_previous, "first `otherwise` rule here"@)], Seq::empty()),
{
    diagnostic("elab", Severity::Error, "elab/relation-rule-otherwise-repeated",
        String::from_str("cannot use more than one `otherwise` rule in a rule group"),
        labels2(primary(span), related(span_previous, "first `otherwise` rule here")), notes0())
}

/// Reports an `otherwise` rule sharing its rule group with another rule.
pub fn relation_rule_otherwise_invalid(span: Span, span_other: Span, message_other: &str) -> (r: Report)
    ensures
        is_diagnostic(r, "elab"@, Severity::Error, "elab/relation-rule-otherwise-invalid"@,
            "an `otherwise` rule must be the only rule in its rule group"@,
            seq![primary_v(span), related_v(span_other, message_other@)], Seq::empty()),
{
    diagnostic("elab", Severity::Error, "elab/relation-rule-otherwise-invalid",
        String::from_str("an `otherwise` rule must be the only rule in its rule group"),
        labels2(primary(span), related(span_other, message_other)), notes0())
}

// == Relation input hints

/// Reports an input hint without positions.
pub fn relation_input_hint_empty(span: Span) -> (r: Report)
    ensures
        is_diagnostic(r, "elab"@, Severity::Error, "elab/relation-input-hint-empty"@,
            "input hint must contain at least one index such as `%0`"@, seq![primary_v(span)], Seq::empty()),
{
    diagnostic("elab", Severity::Error, "elab/relation-input-hint-empty",
        String::from_str("input hint must contain at least one index such as `%0`"), labels1(primary(span)), notes0())
}

/// Reports a repeated input-hint index and relates its first occurrence.
pub fn relation_input_hint_index_repeated(idx: usize, span: Span, span_previous: Span) -> (r: Report)
    ensures
        is_diagnostic(r, "elab"@, Severity::Error, "elab/relation-input-hint-index-repeated"@,
            "input hint repeats index `%"@ + decimal_text(idx as nat) + "`"@,
            seq![primary_v(span), related_v(span_previous, "first occurrence here"@)], Seq::empty()),
{
    let mut message = String::from_str("input hint repeats index `%");
    append_decimal(&mut message, idx);
    message.append("`");
    diagnostic("elab", Severity::Error, "elab/relation-input-hint-index-repeated", message,
        labels2(primary(span), related(span_previous, "first occurrence here")), notes0())
}

/// How many positions a relation has, in words.
pub open spec fn positions_text(arity: nat) -> Seq<char> {
    decimal_text(arity) + if arity == 1 { " position"@ } else { " positions"@ }
}

fn append_positions(s: &mut String, arity: usize)
    ensures
        final(s)@ == old(s)@ + positions_text(arity as nat),
{
    append_decimal(s, arity);
    if arity == 1 {
        s.append(" position");
    } else {
        s.append(" positions");
    }
}

/// Reports an input-hint index beyond the relation's positions.
pub fn relation_input_hint_index_out_of_bounds(idx: usize, arity: usize, span: Span, span_notation: Span) -> (r: Report)
    ensures
        is_diagnostic(r, "elab"@, Severity::Error, "elab/relation-input-hint-index-out-of-bounds"@,
            "input hint index `%"@ + decimal_text(idx as nat) + "` is out of bounds for a relation with "@
                + positions_text(arity as nat),
            seq![primary_v(span), related_v(span_notation, "relation has "@ + positions_text(arity as nat))],
            Seq::empty()),
{
    let mut message = String::from_str("input hint index `%");
    append_decimal(&mut message, idx);
    message.append("` is out of bounds for a relation with ");
    append_positions(&mut message, arity);
    let mut m = String::from_str("relation has ");
    append_positions(&mut m, arity);
    let notation = Label { style: LabelStyle::Secondary, span: span_notation, message: m };
    diagnostic("elab", Severity::Error, "elab/relation-input-hint-index-out-of-bounds", message,
        labels2(primary(span), notation), notes0())
}

/// Reports an input hint holding something other than indexed holes.
pub fn relation_input_hint_invalid(span: Span, text_actual: &str) -> (r: Report)
    ensures
        is_diagnostic(r, "elab"@, Severity::Error, "elab/relation-input-hint-invalid"@,
            "input hint must be a sequence of indexed holes such as `%0`, but got `"@ + text_actual@ + "`"@,
            seq![primary_v(span)], Seq::empty()),
{
    let mut message = String::from_str("input hint must be a sequence of indexed holes such as `%0`, but got `");
    message.append(text_actual);
    message.append("`");
    diagnostic("elab", Severity::Error, "elab/relation-input-hint-invalid", message, labels1(primary(span)), notes0())
}

/// Warns that a relation has no input hint, so that every position is an input.
pub fn relation_input_hint_missing(id: &Id, span: Span) -> (r: Report)
    ensures
        is_diagnostic(r, "elab"@, Severity::Warning, "elab/relation-input-hint-missing"@,
            "relation `"@ + id@ + "` has no input hint"@, seq![primary_v(span)], Seq::empty()),
{
    diagnostic("elab", Severity::Warning, "elab/relation-input-hint-missing",
        named("relation `", &id.node, "` has no input hint"), labels1(primary(span)), notes0())
}

/// Reports a stored input hint that does not fit a use of the relation.
pub fn relation_input_hint_mismatch(span: Span, message: String) -> (r: Report)
    ensures
        is_diagnostic(r, "elab"@, Severity::Error, "elab/relation-input-hint-mismatch"@, message@,
            seq![primary_v(span)], Seq::empty()),
{
    diagnostic("elab", Severity::Error, "elab/relation-input-hint-mismatch", message, labels1(primary(span)), notes0())
}

// == Iteration dimensions

/// Reports two occurrences of an identifier with incompatible dimensions,
/// given the printed dimensions.
pub fn iteration_dimension_mismatch(id: &Id, text_dim: &str, span: Span, text_dim_previous: &str, span_previous: Span) -> (r: Report)
    ensures
        is_diagnostic(r, "elab"@, Severity::Error, "elab/iteration-dimension-mismatch"@,
            "identifier `"@ + id@ + "` has incompatible iteration dimensions: `"@ + text_dim_previous@ + "` and `"@
                + text_dim@ + "`"@,
            seq![primary_v(span), related_v(span_previous, "other occurrence has dimension `"@ + text_dim_previous@ + "`"@)],
            Seq::empty()),
{
    let mut message = named("identifier `", &id.node, "` has incompatible iteration dimensions: `");
    message.append(text_dim_previous);
    message.append("` and `");
    message.append(text_dim);
    message.append("`");
    let mut m = String::from_str("other occurrence has dimension `");
    m.append(text_dim_previous);
    m.append("`");
    let previous = Label { style: LabelStyle::Secondary, span: span_previous, message: m };
    diagnostic("elab", Severity::Error, "elab/iteration-dimension-mismatch", message, labels2(primary(span), previous), notes0())
}

/// Reports incompatible types of two occurrences of an identifier, given
/// the printed types.
pub fn iteration_identifier_type_mismatch(id: &Id, text_typ: &str, text_typ_other: &str) -> (r: Report)
    ensures
        is_diagnostic(r, "elab"@, Severity::Error, "elab/iteration-identifier-type-mismatch"@,
            "identifier `"@ + id@ + "` has incompatible types `"@ + text_typ@ + "` and `"@ + text_typ_other@
                + "` during dimension analysis"@,
            seq![primary_v(id.span)], Seq::empty()),
{
    let mut message = named("identifier `", &id.node, "` has incompatible types `");
    message.append(text_typ);
    message.append("` and `");
    message.append(text_typ_other);
    message.append("` during dimension analysis");
    diagnostic("elab", Severity::Error, "elab/iteration-identifier-type-mismatch", message, labels1(primary(id.span)), notes0())
}

/// Reports an iterated construct that already carries an annotation.
pub fn iteration_annotation_invalid(span: Span, description: &str) -> (r: Report)
    ensures
        is_diagnostic(r, "elab"@, Severity::Error, "elab/iteration-annotation-invalid"@,
            "iterated "@ + description@ + " should initially have no annotations"@, seq![primary_v(span)], Seq::empty()),
{
    let mut message = String::from_str("iterated ");
    message.append(description);
    message.append(" should initially have no annotations");
    diagnostic("elab", Severity::Error, "elab/iteration-annotation-invalid", message, labels1(primary(span)), notes0())
}

/// An iteration with no variable left to range over, under `code`.
fn empty_iteration(code: &str, span: Span) -> (r: Report)
    ensures
        is_diagnostic(r, "elab"@, Severity::Error, code@, "iteration has no variable to iterate over"@, seq![primary_v(span)],
            seq!["Each iteration consumes one `*` or `?` from a variable inside it; no variable has an iteration left to consume."@]),
{
    diagnostic("elab", Severity::Error, code, String::from_str("iteration has no variable to iterate over"),
        labels1(primary(span)),
        notes1("Each iteration consumes one `*` or `?` from a variable inside it; no variable has an iteration left to consume."))
}

/// Reports an iterated expression with no variable to range over.
pub fn iteration_expression_empty(span: Span) -> (r: Report)
    ensures
        is_diagnostic(r, "elab"@, Severity::Error, "elab/iteration-expression-empty"@, "iteration has no variable to iterate over"@,
            seq![primary_v(span)],
            seq!["Each iteration consumes one `*` or `?` from a variable inside it; no variable has an iteration left to consume."@]),
{
    empty_iteration("elab/iteration-expression-empty", span)
}

/// Reports an iterated premise with no variable to range over.
pub fn iteration_premise_empty(span: Span) -> (r: Report)
    ensures
        is_diagnostic(r, "elab"@, Severity::Error, "elab/iteration-premise-empty"@, "iteration has no variable to iterate over"@,
            seq![primary_v(span)],
            seq!["Each iteration consumes one `*` or `?` from a variable inside it; no variable has an iteration left to consume."@]),
{
    empty_iteration("elab/iteration-premise-empty", span)
}

// == Types

/// Reports a type that does not have the expected structure.
pub fn type_shape_mismatch(description_shape: &str, span: Span) -> (r: Report)
    ensures
        is_diagnostic(r, "elab"@, Severity::Error, "elab/type-shape-mismatch"@,
            "cannot destruct type as "@ + description_shape@, seq![primary_v(span)], Seq::empty()),
{
    let mut message = String::from_str("cannot destruct type as ");
    message.append(description_shape);
    diagnostic("elab", Severity::Error, "elab/type-shape-mismatch", message, labels1(primary(span)), notes0())
}

/// Reports a type applied to the wrong number of arguments, relating its
/// declaration when known.
pub fn type_argument_arity_mismatch(id: &Id, expected: usize, actual: usize, span: Span, span_declaration: Option<Span>) -> (r: Report)
    ensures
        is_diagnostic(r, "elab"@, Severity::Error, "elab/type-argument-arity-mismatch"@,
            "type `"@ + id@ + "` expects "@ + decimal_text(expected as nat)
                + (if expected == 1 { " type argument, but got "@ } else { " type arguments, but got "@ })
                + decimal_text(actual as nat),
            match span_declaration {
                None => seq![primary_v(span)],
                Some(d) => seq![primary_v(span), related_v(d, "type declared here"@)],
            },
            Seq::empty()),
{
    let mut message = named("type `", &id.node, "` expects ");
    append_decimal(&mut message, expected);
    if expected == 1 {
        message.append(" type argument, but got ");
    } else {
        message.append(" type arguments, but got ");
    }
    append_decimal(&mut message, actual);
    let labels = match span_declaration {
        None => labels1(primary(span)),
        Some(d) => labels2(primary(span), related(d, "type declared here")),
    };
    diagnostic("elab", Severity::Error, "elab/type-argument-arity-mismatch", message, labels, notes0())
}

/// Reports a repeated type parameter and relates its first declaration.
pub fn type_parameter_repeated(tparam: &Id, span_previous: Span) -> (r: Report)
    ensures
        is_diagnostic(r, "elab"@, Severity::Error, "elab/type-parameter-repeated"@,
            "type parameter `"@ + tparam@ + "` is repeated"@,
            seq![primary_v(tparam.span), related_v(span_previous, "first declared here"@)], Seq::empty()),
{
    diagnostic("elab", Severity::Error, "elab/type-parameter-repeated", named("type parameter `", &tparam.node, "` is repeated"),
        labels2(primary(tparam.span), related(span_previous, "first declared here")), notes0())
}

/// Reports a repeated type declaration and relates the first.
pub fn type_declaration_repeated(id: &Id, span_previous: Span) -> (r: Report)
    ensures
        is_diagnostic(r, "elab"@, Severity::Error, "elab/type-declaration-repeated"@,
            "type `"@ + id@ + "` was already declared"@,
            seq![primary_v(id.span), related_v(span_previous, "first declared here"@)], Seq::empty()),
{
    diagnostic("elab", Severity::Error, "elab/type-declaration-repeated", named("type `", &id.node, "` was already declared"),
        labels2(primary(id.span), related(span_previous, "first declared here")), notes0())
}

/// A suffix on an identifier that must have none, under `code`.
fn invalid_identifier(code: &str, description_kind: &str, id: &Id) -> (r: Report)
    ensures
        is_diagnostic(r, "elab"@, Severity::Error, code@,
            description_kind@ + " identifier `"@ + id@ + "` must not have a suffix"@, seq![primary_v(id.span)], Seq::empty()),
{
    let mut message = String::from_str(description_kind);
    message.append(" identifier `");
    message.append(id.node.as_str());
    message.append("` must not have a suffix");
    diagnostic("elab", Severity::Error, code, message, labels1(primary(id.span)), notes0())
}

/// Reports a suffix on an extern type identifier.
pub fn type_extern_identifier_invalid(id: &Id) -> (r: Report)
    ensures
        is_diagnostic(r, "elab"@, Severity::Error, "elab/type-extern-identifier-invalid"@,
            "type"@ + " identifier `"@ + id@ + "` must not have a suffix"@, seq![primary_v(id.span)], Seq::empty()),
{
    invalid_identifier("elab/type-extern-identifier-invalid", "type", id)
}

/// Reports a suffix on a syntax declaration identifier.
pub fn type_syntax_identifier_invalid(id: &Id) -> (r: Report)
    ensures
        is_diagnostic(r, "elab"@, Severity::Error, "elab/type-syntax-identifier-invalid"@,
            "type"@ + " identifier `"@ + id@ + "` must not have a suffix"@, seq![primary_v(id.span)], Seq::empty()),
{
    invalid_identifier("elab/type-syntax-identifier-invalid", "type", id)
}

/// Reports a suffix on a type definition identifier.
pub fn type_identifier_invalid(id: &Id) -> (r: Report)
    ensures
        is_diagnostic(r, "elab"@, Severity::Error, "elab/type-identifier-invalid"@,
            "type"@ + " identifier `"@ + id@ + "` must not have a suffix"@, seq![primary_v(id.span)], Seq::empty()),
{
    invalid_identifier("elab/type-identifier-invalid", "type", id)
}

/// Reports a suffix on a type parameter identifier.
pub fn type_parameter_identifier_invalid(id: &Id) -> (r: Report)
    ensures
        is_diagnostic(r, "elab"@, Severity::Error, "elab/type-parameter-identifier-invalid"@,
            "type parameter"@ + " identifier `"@ + id@ + "` must not have a suffix"@, seq![primary_v(id.span)], Seq::empty()),
{
    invalid_identifier("elab/type-parameter-identifier-invalid", "type parameter", id)
}

/// Extension of a type that has no cases to contribute, under `code`.
fn type_extension(code: &str, description_kind: &str, text_typ: &str, span: Span, label_related: Option<(Span, &str)>, note: &str) -> (r: Report)
    ensures
        is_diagnostic(r, "elab"@, Severity::Error, code@,
            "extension is not allowed for "@ + description_kind@ + " `"@ + text_typ@ + "`"@,
            match label_related {
                None => seq![primary_v(span)],
                Some((s, m)) => seq![primary_v(span), related_v(s, m@)],
            },
            seq![note@]),
{
    let mut message = String::from_str("extension is not allowed for ");
    message.append(description_kind);
    message.append(" `");
    message.append(text_typ);
    message.append("`");
    let labels = match label_related {
        None => labels1(primary(span)),
        Some((s, m)) => labels2(primary(span), related(s, m)),
    };
    diagnostic("elab", Severity::Error, code, message, labels, notes1(note))
}

/// Reports extension of a completed struct or alias, given the printed type.
pub fn type_extension_struct_unsupported(text_typ: &str, span: Span, span_definition: Span) -> (r: Report)
    ensures
        is_diagnostic(r, "elab"@, Severity::Error, "elab/type-extension-struct-unsupported"@,
            "extension is not allowed for "@ + "struct type"@ + " `"@ + text_typ@ + "`"@,
            seq![primary_v(span), related_v(span_definition, "originally defined here"@)],
            seq!["A case-line `| T` can extend a variant only with another variant's cases."@]),
{
    type_extension("elab/type-extension-struct-unsupported", "struct type", text_typ, span,
        Some((span_definition, "originally defined here")),
        "A case-line `| T` can extend a variant only with another variant's cases.")
}

/// Reports extension of a primitive type, given the printed type.
pub fn type_extension_primitive_unsupported(text_typ: &str, span: Span) -> (r: Report)
    ensures
        is_diagnostic(r, "elab"@, Severity::Error, "elab/type-extension-primitive-unsupported"@,
            "extension is not allowed for "@ + "primitive type"@ + " `"@ + text_typ@ + "`"@,
            seq![primary_v(span)], seq!["A primitive type has no variant cases to contribute."@]),
{
    type_extension("elab/type-extension-primitive-unsupported", "primitive type", text_typ, span, None,
        "A primitive type has no variant cases to contribute.")
}

/// Reports extension of a type parameter, given the printed type.
pub fn type_extension_parameter_unsupported(text_typ: &str, span: Span, span_declaration: Span) -> (r: Report)
    ensures
        is_diagnostic(r, "elab"@, Severity::Error, "elab/type-extension-parameter-unsupported"@,
            "extension is not allowed for "@ + "type parameter"@ + " `"@ + text_typ@ + "`"@,
            seq![primary_v(span), related_v(span_declaration, "type parameter declared here"@)],
            seq!["Type parameters have no known variant cases."@]),
{
    type_extension("elab/type-extension-parameter-unsupported", "type parameter", text_typ, span,
        Some((span_declaration, "type parameter declared here")), "Type parameters have no known variant cases.")
}

/// Reports extension of an extern type, given the printed type.
pub fn type_extension_extern_unsupported(text_typ: &str, span: Span, span_declaration: Span) -> (r: Report)
    ensures
        is_diagnostic(r, "elab"@, Severity::Error, "elab/type-extension-extern-unsupported"@,
            "extension is not allowed for "@ + "extern type"@ + " `"@ + text_typ@ + "`"@,
            seq![primary_v(span), related_v(span_declaration, "extern type declared here"@)],
            seq!["Extern types have no variant cases."@]),
{
    type_extension("elab/type-extension-extern-unsupported", "extern type", text_typ, span,
        Some((span_declaration, "extern type declared here")), "Extern types have no variant cases.")
}

/// Reports extension of a declared type without a body, given the printed type.
pub fn type_extension_incomplete(text_typ: &str, span: Span, span_declaration: Span) -> (r: Report)
    ensures
        is_diagnostic(r, "elab"@, Severity::Error, "elab/type-extension-incomplete"@,
            "extension is not allowed for "@ + "incomplete type"@ + " `"@ + text_typ@ + "`"@,
            seq![primary_v(span), related_v(span_declaration, "originally declared here"@)],
            seq!["The type has no body yet, so it has no variant cases to contribute."@]),
{
    type_extension("elab/type-extension-incomplete", "incomplete type", text_typ, span,
        Some((span_declaration, "originally declared here")),
        "The type has no body yet, so it has no variant cases to contribute.")
}

/// Reports two variant cases of the same shape, given the printed shape.
pub fn variant_case_shape_repeated(description_shape: &str, span: Span, span_previous: Span) -> (r: Report)
    ensures
        is_diagnostic(r, "elab"@, Severity::Error, "elab/variant-case-shape-repeated"@,
            "variant case shape `"@ + description_shape@ + "` conflicts with an earlier case"@,
            seq![primary_v(span), related_v(span_previous, "earlier case with this shape"@)],
            seq!["Variant cases must differ in literal tokens or argument positions; argument types do not distinguish cases."@]),
{
    let mut message = String::from_str("variant case shape `");
    message.append(description_shape);
    message.append("` conflicts with an earlier case");
    diagnostic("elab", Severity::Error, "elab/variant-case-shape-repeated", message,
        labels2(primary(span), related(span_previous, "earlier case with this shape")),
        notes1("Variant cases must differ in literal tokens or argument positions; argument types do not distinguish cases."))
}

/// The names of a list of identifiers.
pub open spec fn ids_text(ids: Seq<Id>) -> Seq<Seq<char>> {
    Seq::new(ids.len(), |i: int| ids[i]@)
}

/// Names separated by commas.
pub open spec fn comma_joined(names: Seq<Seq<char>>) -> Seq<char>
    decreases names.len(),
{
    if names.len() == 0 {
        Seq::empty()
    } else if names.len() == 1 {
        names[0]
    } else {
        comma_joined(names.drop_last()) + ", "@ + names.last()
    }
}

fn append_joined(s: &mut String, ids: &Vec<Id>)
    ensures
        final(s)@ == old(s)@ + comma_joined(ids_text(ids@)),
{
    let ghost names = ids_text(ids@);
    proof {
        assert(names.take(0) =~= Seq::<Seq<char>>::empty());
        assert(s@ =~= old(s)@ + comma_joined(names.take(0)));
    }
    for i in 0..ids.len()
        invariant
            names == ids_text(ids@),
            s@ == old(s)@ + comma_joined(names.take(i as int)),
    {
        let ghost before = s@;
        if i > 0 {
            s.append(", ");
        }
        s.append(ids[i].node.as_str());
        proof {
            assert(names.take(i + 1).drop_last() =~= names.take(i as int));
            assert(names.take(i + 1).last() == names[i as int]);
            if i == 0 {
                assert(names.take(0) =~= Seq::<Seq<char>>::empty());
            }
            assert(s@ =~= old(s)@ + comma_joined(names.take(i + 1)));
        }
    }
    proof {
        assert(names.take(ids@.len() as int) =~= names);
    }
}

/// How a diagnostic names a list of type parameters.
pub open spec fn tparams_text(ids: Seq<Id>) -> Seq<char> {
    if ids.len() == 0 { "no type parameters"@ } else { "type parameters `<"@ + comma_joined(ids_text(ids)) + ">`"@ }
}

fn append_tparams(s: &mut String, ids: &Vec<Id>)
    ensures
        final(s)@ == old(s)@ + tparams_text(ids@),
{
    if ids.len() == 0 {
        s.append("no type parameters");
    } else {
        s.append("type parameters `<");
        append_joined(s, ids);
        s.append(">`");
    }
}

/// Reports a definition whose type parameters differ from its declaration.
pub fn type_parameter_mismatch(id: &Id, tparams_expect: &Vec<Id>, tparams_actual: &Vec<Id>, span: Span, span_declaration: Span) -> (r: Report)
    ensures
        is_diagnostic(r, "elab"@, Severity::Error, "elab/type-parameter-mismatch"@,
            "type `"@ + id@ + "` was forward-declared with "@ + tparams_text(tparams_expect@) + ", but its definition has "@
                + tparams_text(tparams_actual@),
            seq![primary_v(span), related_v(span_declaration, "forward declaration here"@)],
            seq!["A type definition must repeat the declared type parameters with the same names and order."@]),
{
    let mut message = named("type `", &id.node, "` was forward-declared with ");
    append_tparams(&mut message, tparams_expect);
    message.append(", but its definition has ");
    append_tparams(&mut message, tparams_actual);
    diagnostic("elab", Severity::Error, "elab/type-parameter-mismatch", message,
        labels2(primary(span), related(span_declaration, "forward declaration here")),
        notes1("A type definition must repeat the declared type parameters with the same names and order."))
}

/// Reports a definition of an extern type.
pub fn type_definition_extern_unsupported(id: &Id, span_declaration: Span) -> (r: Report)
    ensures
        is_diagnostic(r, "elab"@, Severity::Error, "elab/type-definition-extern-unsupported"@,
            "extern type `"@ + id@ + "` does not allow a definition"@,
            seq![primary_v(id.span), related_v(span_declaration, "extern type declared here"@)], Seq::empty()),
{
    diagnostic("elab", Severity::Error, "elab/type-definition-extern-unsupported",
        named("extern type `", &id.node, "` does not allow a definition"),
        labels2(primary(id.span), related(span_declaration, "extern type declared here")), notes0())
}

/// Warns that a declared type has no definition.
pub fn type_definition_missing(id: &Id, tparams: &Vec<Id>) -> (r: Report)
    ensures
        is_diagnostic(r, "elab"@, Severity::Warning, "elab/type-definition-missing"@,
            "type `"@ + id@ + (if tparams@.len() == 0 { Seq::empty() } else { "<"@ + comma_joined(ids_text(tparams@)) + ">"@ })
                + "` was declared but not defined"@,
            seq![primary_v(id.span)], Seq::empty()),
{
    let mut message = String::from_str("type `");
    message.append(id.node.as_str());
    if tparams.len() > 0 {
        message.append("<");
        append_joined(&mut message, tparams);
        message.append(">");
    }
    message.append("` was declared but not defined");
    proof {
        let suffix = if tparams@.len() == 0 { Seq::<char>::empty() } else { "<"@ + comma_joined(ids_text(tparams@)) + ">"@ };
        assert(message@ =~= "type `"@ + id@ + suffix + "` was declared but not defined"@);
    }
    diagnostic("elab", Severity::Warning, "elab/type-definition-missing", message, labels1(primary(id.span)), notes0())
}

// == Function parameters, arguments and calls

/// `n` followed by `noun`, in the plural unless `n` is one.
pub open spec fn count_text(n: nat, noun: Seq<char>) -> Seq<char> {
    decimal_text(n) + " "@ + noun + if n == 1 { Seq::<char>::empty() } else { "s"@ }
}

fn append_count(s: &mut String, n: usize, noun: &str)
    ensures
        final(s)@ == old(s)@ + count_text(n as nat, noun@),
{
    append_decimal(s, n);
    s.append(" ");
    s.append(noun);
    if n != 1 {
        s.append("s");
    }
    proof {
        if n == 1 {
            assert(final(s)@ =~= old(s)@ + count_text(n as nat, noun@));
        }
    }
}

/// Reports a repeated type parameter of a function parameter.
pub fn function_parameter_type_parameter_repeated(tparam: &Id, span_previous: Span) -> (r: Report)
    ensures
        is_diagnostic(r, "elab"@, Severity::Error, "elab/function-parameter-type-parameter-repeated"@,
            "type parameter `"@ + tparam@ + "` is repeated"@,
            seq![primary_v(tparam.span), related_v(span_previous, "first declared here"@)], Seq::empty()),
{
    diagnostic("elab", Severity::Error, "elab/function-parameter-type-parameter-repeated",
        named("type parameter `", &tparam.node, "` is repeated"),
        labels2(primary(tparam.span), related(span_previous, "first declared here")), notes0())
}

/// Reports a function argument of a clause named otherwise than its parameter.
pub fn function_argument_name_mismatch(id_arg: &Id, id_param: &Id) -> (r: Report)
    ensures
        is_diagnostic(r, "elab"@, Severity::Error, "elab/function-argument-name-mismatch"@,
            "function argument `"@ + id_arg@ + "` must have the same name as declared function parameter `"@ + id_param@ + "`"@,
            seq![primary_v(id_arg.span), related_v(id_param.span, "function parameter declared here"@)],
            seq!["A function argument in a definition clause binds the name declared by its function parameter."@]),
{
    let mut message = named("function argument `", &id_arg.node, "` must have the same name as declared function parameter `");
    message.append(id_param.node.as_str());
    message.append("`");
    diagnostic("elab", Severity::Error, "elab/function-argument-name-mismatch", message,
        labels2(primary(id_arg.span), related(id_param.span, "function parameter declared here")),
        notes1("A function argument in a definition clause binds the name declared by its function parameter."))
}

/// The labels of a passed function whose signature does not fit.
pub open spec fn signature_labels(id_param: Id, span_arg_declaration: Option<Span>, span: Span) -> Seq<(LabelStyle, Span, Seq<char>)> {
    match span_arg_declaration {
        None => seq![primary_v(span), related_v(id_param.span, "function parameter declared here"@)],
        Some(d) => seq![
            primary_v(span),
            related_v(id_param.span, "function parameter declared here"@),
            related_v(d, "passed function declared here"@),
        ],
    }
}

fn function_signature_labels(id_param: &Id, span_arg_declaration: Option<Span>, span: Span) -> (v: Vec<Label>)
    ensures
        labels_view(v@) == signature_labels(*id_param, span_arg_declaration, span),
{
    let mut v = labels2(primary(span), related(id_param.span, "function parameter declared here"));
    match span_arg_declaration {
        None => {},
        Some(d) => {
            let ghost before = v@;
            let l = related(d, "passed function declared here");
            v.push(l);
            proof {
                assert(labels_view(v@)
                    =~= labels_view(before).push(label_view(l)));
            }
        },
    }
    v
}

/// The note on passed functions.
pub open spec fn signature_note() -> Seq<char> {
    "A passed function must have the same number of type parameters, parameter types, and return type as its function parameter."@
}

fn function_signature_note() -> (v: Vec<String>)
    ensures
        strings_view(v@) == seq![signature_note()],
{
    notes1("A passed function must have the same number of type parameters, parameter types, and return type as its function parameter.")
}

/// Reports a passed function with the wrong number of type parameters.
pub fn function_argument_type_parameter_arity_mismatch(id_param: &Id, id_arg: &Id, expected: usize, actual: usize, span: Span, span_arg_declaration: Option<Span>) -> (r: Report)
    ensures
        is_diagnostic(r, "elab"@, Severity::Error, "elab/function-argument-type-parameter-arity-mismatch"@,
            "function parameter `"@ + id_param@ + "` has "@ + count_text(expected as nat, "type parameter"@)
                + ", but passed function `"@ + id_arg@ + "` has "@ + decimal_text(actual as nat),
            signature_labels(*id_param, span_arg_declaration, span), seq![signature_note()]),
{
    let mut message = named("function parameter `", &id_param.node, "` has ");
    append_count(&mut message, expected, "type parameter");
    message.append(", but passed function `");
    message.append(id_arg.node.as_str());
    message.append("` has ");
    append_decimal(&mut message, actual);
    diagnostic("elab", Severity::Error, "elab/function-argument-type-parameter-arity-mismatch", message,
        function_signature_labels(id_param, span_arg_declaration, span), function_signature_note())
}

/// Reports a passed function with the wrong number of parameters.
pub fn function_argument_parameter_arity_mismatch(id_param: &Id, id_arg: &Id, expected: usize, actual: usize, span: Span, span_arg_declaration: Option<Span>) -> (r: Report)
    ensures
        is_diagnostic(r, "elab"@, Severity::Error, "elab/function-argument-parameter-arity-mismatch"@,
            "function parameter `"@ + id_param@ + "` has "@ + count_text(expected as nat, "parameter"@)
                + ", but passed function `"@ + id_arg@ + "` has "@ + decimal_text(actual as nat),
            signature_labels(*id_param, span_arg_declaration, span), seq![signature_note()]),
{
    let mut message = named("function parameter `", &id_param.node, "` has ");
    append_count(&mut message, expected, "parameter");
    message.append(", but passed function `");
    message.append(id_arg.node.as_str());
    message.append("` has ");
    append_decimal(&mut message, actual);
    diagnostic("elab", Severity::Error, "elab/function-argument-parameter-arity-mismatch", message,
        function_signature_labels(id_param, span_arg_declaration, span), function_signature_note())
}

/// Reports a passed function whose signature differs from its parameter's.
pub fn function_argument_signature_mismatch(id_param: &Id, id_arg: &Id, span: Span, span_arg_declaration: Option<Span>) -> (r: Report)
    ensures
        is_diagnostic(r, "elab"@, Severity::Error, "elab/function-argument-signature-mismatch"@,
            "passed function `"@ + id_arg@ + "` must have the same signature as function parameter `"@ + id_param@ + "`"@,
            signature_labels(*id_param, span_arg_declaration, span), seq![signature_note()]),
{
    let mut message = named("passed function `", &id_arg.node, "` must have the same signature as function parameter `");
    message.append(id_param.node.as_str());
    message.append("`");
    diagnostic("elab", Severity::Error, "elab/function-argument-signature-mismatch", message,
        function_signature_labels(id_param, span_arg_declaration, span), function_signature_note())
}

/// Reports an expression argument where a function is expected, or back.
pub fn function_argument_kind_mismatch(description_expect: &str, description_actual: &str, span: Span, span_param: Span) -> (r: Report)
    ensures
        is_diagnostic(r, "elab"@, Severity::Error, "elab/function-argument-kind-mismatch"@,
            "expected "@ + description_expect@ + " argument, but got "@ + description_actual@ + " argument"@,
            seq![primary_v(span), related_v(span_param, "parameter declared here"@)], Seq::empty()),
{
    let mut message = String::from_str("expected ");
    message.append(description_expect);
    message.append(" argument, but got ");
    message.append(description_actual);
    message.append(" argument");
    diagnostic("elab", Severity::Error, "elab/function-argument-kind-mismatch", message,
        labels2(primary(span), related(span_param, "parameter declared here")), notes0())
}

/// The labels of a call, relating the function's declaration when known.
pub open spec fn call_labels(span: Span, span_declaration: Option<Span>) -> Seq<(LabelStyle, Span, Seq<char>)> {
    match span_declaration {
        None => seq![primary_v(span)],
        Some(d) => seq![primary_v(span), related_v(d, "function declared here"@)],
    }
}

fn call_labels_exec(span: Span, span_declaration: Option<Span>) -> (v: Vec<Label>)
    ensures
        labels_view(v@) == call_labels(span, span_declaration),
{
    match span_declaration {
        None => labels1(primary(span)),
        Some(d) => labels2(primary(span), related(d, "function declared here")),
    }
}

/// Reports a call with the wrong number of arguments, naming the function
/// when known.
pub fn function_call_argument_arity_mismatch(id: Option<&Id>, expected: usize, actual: usize, span: Span, span_declaration: Option<Span>) -> (r: Report)
    ensures
        is_diagnostic(r, "elab"@, Severity::Error, "elab/function-call-argument-arity-mismatch"@,
            match id {
                Some(f) => "function `"@ + f@ + "` expects "@ + count_text(expected as nat, "argument"@) + ", but got "@
                    + decimal_text(actual as nat),
                None => "expected "@ + count_text(expected as nat, "argument"@) + ", but got "@ + decimal_text(actual as nat),
            },
            call_labels(span, span_declaration), Seq::empty()),
{
    let mut message = match id {
        Some(f) => named("function `", &f.node, "` expects "),
        None => String::from_str("expected "),
    };
    append_count(&mut message, expected, "argument");
    message.append(", but got ");
    append_decimal(&mut message, actual);
    diagnostic("elab", Severity::Error, "elab/function-call-argument-arity-mismatch", message,
        call_labels_exec(span, span_declaration), notes0())
}

/// Reports a call with the wrong number of type arguments.
pub fn function_call_type_argument_arity_mismatch(id: &Id, expected: usize, actual: usize, span: Span, span_declaration: Option<Span>) -> (r: Report)
    ensures
        is_diagnostic(r, "elab"@, Severity::Error, "elab/function-call-type-argument-arity-mismatch"@,
            "function `"@ + id@ + "` expects "@ + count_text(expected as nat, "type argument"@) + ", but got "@
                + decimal_text(actual as nat),
            call_labels(span, span_declaration), Seq::empty()),
{
    let mut message = named("function `", &id.node, "` expects ");
    append_count(&mut message, expected, "type argument");
    message.append(", but got ");
    append_decimal(&mut message, actual);
    diagnostic("elab", Severity::Error, "elab/function-call-type-argument-arity-mismatch", message,
        call_labels_exec(span, span_declaration), notes0())
}

/// Reports a clause with another number of arguments than its declaration.
pub fn function_clause_argument_arity_mismatch(id: &Id, expected: usize, actual: usize, span: Span, span_declaration: Span) -> (r: Report)
    ensures
        is_diagnostic(r, "elab"@, Severity::Error, "elab/function-clause-argument-arity-mismatch"@,
            "function `"@ + id@ + "` was declared with "@ + count_text(expected as nat, "parameter"@) + ", but this clause has "@
                + decimal_text(actual as nat),
            seq![primary_v(span), related_v(span_declaration, "function declared here"@)], Seq::empty()),
{
    let mut message = named("function `", &id.node, "` was declared with ");
    append_count(&mut message, expected, "parameter");
    message.append(", but this clause has ");
    append_decimal(&mut message, actual);
    diagnostic("elab", Severity::Error, "elab/function-clause-argument-arity-mismatch", message,
        labels2(primary(span), related(span_declaration, "function declared here")), notes0())
}

/// How a clause diagnostic names a list of type parameters.
pub open spec fn clause_tparams_text(ids: Seq<Id>) -> Seq<char> {
    if ids.len() == 0 { "none"@ } else { "<"@ + comma_joined(ids_text(ids)) + ">"@ }
}

fn append_clause_tparams(s: &mut String, ids: &Vec<Id>)
    ensures
        final(s)@ == old(s)@ + clause_tparams_text(ids@),
{
    if ids.len() == 0 {
        s.append("none");
    } else {
        s.append("<");
        append_joined(s, ids);
        s.append(">");
    }
}

/// Reports a clause whose type parameters differ from its declaration.
pub fn function_clause_type_parameter_mismatch(id: &Id, tparams_expect: &Vec<Id>, tparams_actual: &Vec<Id>, span: Span, span_declaration: Span) -> (r: Report)
    ensures
        is_diagnostic(r, "elab"@, Severity::Error, "elab/function-clause-type-parameter-mismatch"@,
            "function `"@ + id@ + "` was declared with type parameters "@ + clause_tparams_text(tparams_expect@)
                + ", but this clause has type parameters "@ + clause_tparams_text(tparams_actual@),
            seq![primary_v(span), related_v(span_declaration, "expected type parameters declared here"@)],
            seq!["A function clause must repeat the declared type parameters with the same names and order."@]),
{
    let mut message = named("function `", &id.node, "` was declared with type parameters ");
    append_clause_tparams(&mut message, tparams_expect);
    message.append(", but this clause has type parameters ");
    append_clause_tparams(&mut message, tparams_actual);
    diagnostic("elab", Severity::Error, "elab/function-clause-type-parameter-mismatch", message,
        labels2(primary(span), related(span_declaration, "expected type parameters declared here")),
        notes1("A function clause must repeat the declared type parameters with the same names and order."))
}

// == Expressions

/// Reports a construct whose type cannot be inferred without context.
pub fn expression_inference_invalid(span: Span, description: &str) -> (r: Report)
    ensures
        is_diagnostic(r, "elab"@, Severity::Error, "elab/expression-inference-invalid"@,
            "cannot infer type of "@ + description@, seq![primary_v(span)], Seq::empty()),
{
    let mut message = String::from_str("cannot infer type of ");
    message.append(description);
    diagnostic("elab", Severity::Error, "elab/expression-inference-invalid", message, labels1(primary(span)), notes0())
}

/// A label of the given style at `span` saying `message`.
fn label_with(style: LabelStyle, span: Span, message: String) -> (l: Label)
    ensures
        label_view(l) == (style, span, message@),
{
    Label { style, span, message }
}

/// `before` + `text` + `after`.
fn quoted(before: &str, text: &str, after: &str) -> (s: String)
    ensures
        s@ == before@ + text@ + after@,
{
    let mut s = String::from_str(before);
    s.append(text);
    s.append(after);
    s
}

/// Reports a unary operator undefined for its operand's type, given the
/// printed operator and type.
pub fn operator_unop_type_mismatch(text_op: &str, text_typ: &str, span: Span) -> (r: Report)
    ensures
        is_diagnostic(r, "elab"@, Severity::Error, "elab/operator-unop-type-mismatch"@,
            "operator '"@ + text_op@ + "' is not defined for '"@ + text_typ@ + "'"@,
            seq![(LabelStyle::Primary, span, "operand has type '"@ + text_typ@ + "'"@)], Seq::empty()),
{
    let mut message = quoted("operator '", text_op, "' is not defined for '");
    message.append(text_typ);
    message.append("'");
    diagnostic("elab", Severity::Error, "elab/operator-unop-type-mismatch", message,
        labels1(label_with(LabelStyle::Primary, span, quoted("operand has type '", text_typ, "'"))), notes0())
}

/// The message of an operator undefined for two operand types.
pub open spec fn pair_message(text_op: Seq<char>, text_l: Seq<char>, text_r: Seq<char>) -> Seq<char> {
    "operator '"@ + text_op + "' is not defined for '"@ + text_l + "' and '"@ + text_r + "'"@
}

/// The labels of both operands with their types.
pub open spec fn pair_labels(text_l: Seq<char>, span_l: Span, text_r: Seq<char>, span_r: Span) -> Seq<(LabelStyle, Span, Seq<char>)> {
    seq![
        (LabelStyle::Primary, span_l, "left operand has type '"@ + text_l + "'"@),
        (LabelStyle::Primary, span_r, "right operand has type '"@ + text_r + "'"@),
    ]
}

/// An operator undefined for two operand types, under `code`.
fn operator_pair_type_mismatch(code: &str, text_op: &str, text_l: &str, span_l: Span, text_r: &str, span_r: Span) -> (r: Report)
    ensures
        is_diagnostic(r, "elab"@, Severity::Error, code@, pair_message(text_op@, text_l@, text_r@),
            pair_labels(text_l@, span_l, text_r@, span_r), Seq::empty()),
{
    let mut message = quoted("operator '", text_op, "' is not defined for '");
    message.append(text_l);
    message.append("' and '");
    message.append(text_r);
    message.append("'");
    diagnostic("elab", Severity::Error, code, message,
        labels2(
            label_with(LabelStyle::Primary, span_l, quoted("left operand has type '", text_l, "'")),
            label_with(LabelStyle::Primary, span_r, quoted("right operand has type '", text_r, "'")),
        ),
        notes0())
}

/// Reports a binary operator undefined for its operands' types.
pub fn operator_binop_type_mismatch(text_op: &str, text_l: &str, span_l: Span, text_r: &str, span_r: Span) -> (r: Report)
    ensures
        is_diagnostic(r, "elab"@, Severity::Error, "elab/operator-binop-type-mismatch"@, pair_message(text_op@, text_l@, text_r@),
            pair_labels(text_l@, span_l, text_r@, span_r), Seq::empty()),
{
    operator_pair_type_mismatch("elab/operator-binop-type-mismatch", text_op, text_l, span_l, text_r, span_r)
}

/// Reports a comparison operator undefined for its operands' types.
pub fn operator_cmpop_type_mismatch(text_op: &str, text_l: &str, span_l: Span, text_r: &str, span_r: Span) -> (r: Report)
    ensures
        is_diagnostic(r, "elab"@, Severity::Error, "elab/operator-cmpop-type-mismatch"@, pair_message(text_op@, text_l@, text_r@),
            pair_labels(text_l@, span_l, text_r@, span_r), Seq::empty()),
{
    operator_pair_type_mismatch("elab/operator-cmpop-type-mismatch", text_op, text_l, span_l, text_r, span_r)
}

/// Reports an expression that does not have its expected type.
pub fn expression_type_mismatch(span: Span, message: String) -> (r: Report)
    ensures
        is_diagnostic(r, "elab"@, Severity::Error, "elab/expression-type-mismatch"@, message@, seq![primary_v(span)], Seq::empty()),
{
    diagnostic("elab", Severity::Error, "elab/expression-type-mismatch", message, labels1(primary(span)), notes0())
}

/// Reports a failed implicit cast, given the printed types.
pub fn expression_cast_invalid(text_expect: &str, text_infer: &str, span_infer: Span) -> (r: Report)
    ensures
        is_diagnostic(r, "elab"@, Severity::Error, "elab/expression-cast-invalid"@,
            "expected '"@ + text_expect@ + "', but found '"@ + text_infer@ + "'"@, seq![primary_v(span_infer)], Seq::empty()),
{
    let mut message = quoted("expected '", text_expect, "', but found '");
    message.append(text_infer);
    message.append("'");
    diagnostic("elab", Severity::Error, "elab/expression-cast-invalid", message, labels1(primary(span_infer)), notes0())
}

/// Reports an expression iterated otherwise than expected.
pub fn expression_iteration_mismatch(span: Span, message: String) -> (r: Report)
    ensures
        is_diagnostic(r, "elab"@, Severity::Error, "elab/expression-iteration-mismatch"@, message@, seq![primary_v(span)], Seq::empty()),
{
    diagnostic("elab", Severity::Error, "elab/expression-iteration-mismatch", message, labels1(primary(span)), notes0())
}

/// Reports a tuple, struct or notation expression of the wrong arity.
pub fn expression_arity_mismatch(span: Span, message: String) -> (r: Report)
    ensures
        is_diagnostic(r, "elab"@, Severity::Error, "elab/expression-arity-mismatch"@, message@, seq![primary_v(span)], Seq::empty()),
{
    diagnostic("elab", Severity::Error, "elab/expression-arity-mismatch", message, labels1(primary(span)), notes0())
}

/// Reports an expression that matches more than one variant case.
pub fn variant_expression_match_repeated(span: Span) -> (r: Report)
    ensures
        is_diagnostic(r, "elab"@, Severity::Error, "elab/variant-expression-match-repeated"@,
            "expression matches multiple variant cases"@, seq![primary_v(span)], Seq::empty()),
{
    diagnostic("elab", Severity::Error, "elab/variant-expression-match-repeated",
        String::from_str("expression matches multiple variant cases"), labels1(primary(span)), notes0())
}

/// Reports a hole outside a hint.
pub fn hole_outside_hint_unsupported(span: Span) -> (r: Report)
    ensures
        is_diagnostic(r, "elab"@, Severity::Error, "elab/hole-outside-hint-unsupported"@,
            "hole is not allowed outside a hint"@, seq![primary_v(span)],
            seq!["A `%`, `%N`, `%%`, or `!%` marks an argument slot inside a `hint(...)` expression."@]),
{
    diagnostic("elab", Severity::Error, "elab/hole-outside-hint-unsupported", String::from_str("hole is not allowed outside a hint"),
        labels1(primary(span)), notes1("A `%`, `%N`, `%%`, or `!%` marks an argument slot inside a `hint(...)` expression."))
}

/// Reports token concatenation outside a hint.
pub fn fuse_outside_hint_unsupported(span: Span) -> (r: Report)
    ensures
        is_diagnostic(r, "elab"@, Severity::Error, "elab/fuse-outside-hint-unsupported"@,
            "token concatenation `#` is not allowed outside a hint"@, seq![primary_v(span)],
            seq!["The `#` operator joins rendered hint fragments without a space."@]),
{
    diagnostic("elab", Severity::Error, "elab/fuse-outside-hint-unsupported",
        String::from_str("token concatenation `#` is not allowed outside a hint"), labels1(primary(span)),
        notes1("The `#` operator joins rendered hint fragments without a space."))
}

/// Reports unparenthesizing outside a hint.
pub fn unparen_outside_hint_unsupported(span: Span) -> (r: Report)
    ensures
        is_diagnostic(r, "elab"@, Severity::Error, "elab/unparen-outside-hint-unsupported"@,
            "unparenthesizing operator `##` is not allowed outside a hint"@, seq![primary_v(span)],
            seq!["The `##` operator strips parentheses only while rendering a hint."@]),
{
    diagnostic("elab", Severity::Error, "elab/unparen-outside-hint-unsupported",
        String::from_str("unparenthesizing operator `##` is not allowed outside a hint"), labels1(primary(span)),
        notes1("The `##` operator strips parentheses only while rendering a hint."))
}

/// Reports a LaTeX literal outside a hint.
pub fn latex_outside_hint_unsupported(span: Span) -> (r: Report)
    ensures
        is_diagnostic(r, "elab"@, Severity::Error, "elab/latex-outside-hint-unsupported"@,
            "LaTeX literals are not allowed outside a hint"@, seq![primary_v(span)],
            seq!["A `%latex(\"...\")` literal embeds raw LaTeX only inside a hint."@]),
{
    diagnostic("elab", Severity::Error, "elab/latex-outside-hint-unsupported",
        String::from_str("LaTeX literals are not allowed outside a hint"), labels1(primary(span)),
        notes1("A `%latex(\"...\")` literal embeds raw LaTeX only inside a hint."))
}

} // verus!
