//! Expected types of expressions: the notation slot, function argument or
//! function result whose declared type constrains an expression, the
//! diagnostic of a failed cast to it, and the label that relates other
//! failures to its declaration. Types appear in their printed form.

use vstd::prelude::*;
use vstd::string::StringExecFns;
use crate::span::Span;
use crate::il::Id;
use crate::elaborate::report::{
    Label, LabelStyle, Report, Severity, annotate_causes, annotated, append_decimal, decimal_text, diagnostic,
    is_diagnostic, label_view, labels1, labels2, notes1, primary, primary_v, related, related_v,
};

verus! {

/// The declaration whose type constrains an expression.
pub enum TypeSubject {
    /// An argument slot of a notation, counted from zero.
    NotationArgument { idx: usize, id_rel: Option<Id> },
    /// A function parameter, counted from zero.
    FunctionArgument { idx: usize, id_func: Id },
    /// The result of the function whose body is checked.
    FunctionReturn { id_func: Id },
}

/// How a notation's owner is named: the relation, or the plain notation.
pub open spec fn owner_text(id_rel: Option<Id>) -> Seq<char> {
    match id_rel {
        Some(id) => "relation '"@ + id@ + "'"@,
        None => "notation"@,
    }
}

/// How a diagnostic names a subject.
pub open spec fn subject_text(s: TypeSubject) -> Seq<char> {
    match s {
        TypeSubject::NotationArgument { idx, id_rel } => "argument "@ + decimal_text(idx as nat) + " of "@ + owner_text(id_rel),
        TypeSubject::FunctionArgument { idx, id_func } => "argument "@ + decimal_text(idx as nat) + " of function '$"@ + id_func@ + "'"@,
        TypeSubject::FunctionReturn { id_func } => "return value of function '$"@ + id_func@ + "'"@,
    }
}

/// The code of a failed cast to a subject's type.
pub open spec fn subject_code(s: TypeSubject) -> Seq<char> {
    match s {
        TypeSubject::NotationArgument { .. } => "elab/notation-argument-type-mismatch"@,
        TypeSubject::FunctionArgument { .. } => "elab/function-argument-type-mismatch"@,
        TypeSubject::FunctionReturn { .. } => "elab/function-return-type-mismatch"@,
    }
}

fn append_owner(s: &mut String, id_rel: &Option<Id>)
    ensures
        final(s)@ == old(s)@ + owner_text(*id_rel),
{
    match id_rel {
        Some(id) => {
            s.append("relation '");
            s.append(id.node.as_str());
            s.append("'");
        },
        None => s.append("notation"),
    }
}

impl TypeSubject {
    /// Names the slot or result by the declaration that owns it.
    pub fn description(&self) -> (s: String)
        ensures
            s@ == subject_text(*self),
    {
        let mut s = String::new();
        match self {
            TypeSubject::NotationArgument { idx, id_rel } => {
                s.append("argument ");
                append_decimal(&mut s, *idx);
                s.append(" of ");
                append_owner(&mut s, id_rel);
            },
            TypeSubject::FunctionArgument { idx, id_func } => {
                s.append("argument ");
                append_decimal(&mut s, *idx);
                s.append(" of function '$");
                s.append(id_func.node.as_str());
                s.append("'");
            },
            TypeSubject::FunctionReturn { id_func } => {
                s.append("return value of function '$");
                s.append(id_func.node.as_str());
                s.append("'");
            },
        }
        proof {
            assert(s@ =~= subject_text(*self));
        }
        s
    }

    /// The code of a failed cast to this subject's type.
    pub fn code(&self) -> (c: &'static str)
        ensures
            c@ == subject_code(*self),
    {
        match self {
            TypeSubject::NotationArgument { .. } => "elab/notation-argument-type-mismatch",
            TypeSubject::FunctionArgument { .. } => "elab/function-argument-type-mismatch",
            TypeSubject::FunctionReturn { .. } => "elab/function-return-type-mismatch",
        }
    }
}

/// An expected type, printed, with the subject it constrains and the
/// location of the declaration that introduced it.
pub struct ExpectedType {
    pub subject: TypeSubject,
    pub text_typ: String,
    pub span_declaration: Span,
}

/// The label that relates a failure to a declared type.
pub open spec fn expects_label(subject: Seq<char>, text_typ: Seq<char>, span: Span) -> (LabelStyle, Span, Seq<char>) {
    related_v(span, subject + " expects '"@ + text_typ + "'"@)
}

fn expects(subject: &String, text_typ: &String, span: Span) -> (l: Label)
    ensures
        label_view(l) == expects_label(subject@, text_typ@, span),
{
    let mut m = subject.clone();
    m.append(" expects '");
    m.append(text_typ.as_str());
    m.append("'");
    Label { style: LabelStyle::Secondary, span, message: m }
}

/// The message of a failed cast to a subject's type.
pub open spec fn mismatch_text(subject: Seq<char>, text_expect: Seq<char>, text_infer: Seq<char>) -> Seq<char> {
    subject + " expects '"@ + text_expect + "', but found '"@ + text_infer + "'"@
}

fn mismatch_message(subject: &String, text_expect: &str, text_infer: &str) -> (m: String)
    ensures
        m@ == mismatch_text(subject@, text_expect@, text_infer@),
{
    let mut m = subject.clone();
    m.append(" expects '");
    m.append(text_expect);
    m.append("', but found '");
    m.append(text_infer);
    m.append("'");
    m
}

impl ExpectedType {
    /// Reports the inferred type at the failed implicit cast.
    pub fn type_mismatch(&self, text_expect: &str, text_infer: &str, span_infer: Span) -> (r: Report)
        ensures
            is_diagnostic(r, "elab"@, Severity::Error, subject_code(self.subject),
                mismatch_text(subject_text(self.subject), text_expect@, text_infer@), seq![primary_v(span_infer)], Seq::empty()),
    {
        let subject = self.subject.description();
        diagnostic("elab", Severity::Error, self.subject.code(), mismatch_message(&subject, text_expect, text_infer),
            labels1(primary(span_infer)), crate::elaborate::report::notes0())
    }

    /// Relates every cause among the reports to the declared type, once.
    pub fn annotate(&self, reports: &mut Vec<Report>)
        ensures
            final(reports)@.len() == old(reports)@.len(),
            forall|i: int| 0 <= i < old(reports)@.len() ==> exists|l: Label|
                label_view(l) == expects_label(subject_text(self.subject), self.text_typ@, self.span_declaration)
                && annotated(#[trigger] old(reports)@[i], final(reports)@[i], l, true),
    {
        let subject = self.subject.description();
        let label = expects(&subject, &self.text_typ, self.span_declaration);
        annotate_causes(reports, &label, true);
    }
}

/// A notation argument slot: its position among the slots, the relation
/// that owns the notation if any, and its declared type, printed, with its
/// location.
pub struct NotationArgument {
    pub idx: usize,
    pub id_rel: Option<Id>,
    pub text_typ: String,
    pub span_typ: Span,
}

/// How a diagnostic names a notation argument.
pub open spec fn argument_text(a: NotationArgument) -> Seq<char> {
    "argument "@ + decimal_text(a.idx as nat) + " of "@ + owner_text(a.id_rel)
}

impl NotationArgument {
    /// Names the argument by its position among the slots.
    fn subject(&self) -> (s: String)
        ensures
            s@ == argument_text(*self),
    {
        let mut s = String::from_str("argument ");
        append_decimal(&mut s, self.idx);
        s.append(" of ");
        append_owner(&mut s, &self.id_rel);
        s
    }

    /// Reports the inferred type at the failed implicit cast.
    pub fn type_mismatch(&self, text_expect: &str, text_infer: &str, span_infer: Span) -> (r: Report)
        ensures
            is_diagnostic(r, "elab"@, Severity::Error, "elab/notation-argument-type-mismatch"@,
                mismatch_text(argument_text(*self), text_expect@, text_infer@), seq![primary_v(span_infer)], Seq::empty()),
    {
        let subject = self.subject();
        diagnostic("elab", Severity::Error, "elab/notation-argument-type-mismatch",
            mismatch_message(&subject, text_expect, text_infer), labels1(primary(span_infer)),
            crate::elaborate::report::notes0())
    }

    /// Relates every cause among the reports to the declared slot.
    pub fn annotate(&self, reports: &mut Vec<Report>)
        ensures
            final(reports)@.len() == old(reports)@.len(),
            forall|i: int| 0 <= i < old(reports)@.len() ==> exists|l: Label|
                label_view(l) == expects_label(argument_text(*self), self.text_typ@, self.span_typ)
                && annotated(#[trigger] old(reports)@[i], final(reports)@[i], l, false),
    {
        let subject = self.subject();
        let label = expects(&subject, &self.text_typ, self.span_typ);
        annotate_causes(reports, &label, false);
    }
}

// == Notation mismatches

/// How a diagnostic names a whole notation.
pub open spec fn notation_text(id_rel: Option<Id>) -> Seq<char> {
    match id_rel {
        Some(id) => "notation of relation '"@ + id@ + "'"@,
        None => "notation"@,
    }
}

fn notation_subject(id_rel: &Option<Id>) -> (s: String)
    ensures
        s@ == notation_text(*id_rel),
{
    match id_rel {
        Some(id) => {
            let mut s = String::from_str("notation of relation '");
            s.append(id.node.as_str());
            s.append("'");
            s
        },
        None => String::from_str("notation"),
    }
}

/// Reports an expression whose shape matches no declared notation, given
/// the printed notation and its location.
pub fn notation_shape_mismatch(span: Span, text_not_typ: &str, span_not_typ: Span, id_rel: &Option<Id>) -> (r: Report)
    ensures
        is_diagnostic(r, "elab"@, Severity::Error, "elab/notation-shape-mismatch"@,
            "expression does not match "@ + notation_text(*id_rel),
            seq![primary_v(span), related_v(span_not_typ, "notation declared here"@)],
            seq!["expected notation: "@ + text_not_typ@]),
{
    let mut message = String::from_str("expression does not match ");
    let subject = notation_subject(id_rel);
    message.append(subject.as_str());
    let mut note = String::from_str("expected notation: ");
    note.append(text_not_typ);
    let mut notes: Vec<String> = Vec::new();
    notes.push(note);
    proof {
        assert(crate::elaborate::report::strings_view(notes@) =~= seq![note@]);
    }
    diagnostic("elab", Severity::Error, "elab/notation-shape-mismatch", message,
        labels2(primary(span), related(span_not_typ, "notation declared here")), notes)
}

/// Reports differing tokens at corresponding notation positions, given the
/// tokens' spellings and the printed notation.
pub fn notation_token_mismatch(text_expect: &str, span_expect: Span, text_found: &str, span_found: Span, text_not_typ: &str, id_rel: &Option<Id>) -> (r: Report)
    ensures
        is_diagnostic(r, "elab"@, Severity::Error, "elab/notation-token-mismatch"@,
            "expected '"@ + text_expect@ + "', but found '"@ + text_found@ + "'"@,
            seq![(LabelStyle::Primary, span_found, "unexpected token"@), related_v(span_expect, "expected token declared here"@)],
            seq!["expected "@ + notation_text(*id_rel) + ": "@ + text_not_typ@]),
{
    let mut message = String::from_str("expected '");
    message.append(text_expect);
    message.append("', but found '");
    message.append(text_found);
    message.append("'");
    let mut note = String::from_str("expected ");
    let subject = notation_subject(id_rel);
    note.append(subject.as_str());
    note.append(": ");
    note.append(text_not_typ);
    let mut notes: Vec<String> = Vec::new();
    notes.push(note);
    proof {
        assert(crate::elaborate::report::strings_view(notes@) =~= seq![note@]);
    }
    let found = Label { style: LabelStyle::Primary, span: span_found, message: String::from_str("unexpected token") };
    diagnostic("elab", Severity::Error, "elab/notation-token-mismatch", message,
        labels2(found, related(span_expect, "expected token declared here")), notes)
}

} // verus!
