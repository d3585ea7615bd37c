//! Reports of elaboration failures: diagnostics with labelled locations,
//! grouped under frames that say which attempt they belong to.

use vstd::prelude::*;
use vstd::string::StringExecFns;
use crate::span::Span;

verus! {

/// How serious a diagnostic is.
#[derive(Clone, Copy, Debug, PartialEq, Eq, Structural)]
pub enum Severity {
    Error,
    Warning,
}

/// Whether a label marks the location of the failure or a related one.
#[derive(Clone, Copy, Debug, PartialEq, Eq, Structural)]
pub enum LabelStyle {
    Primary,
    Secondary,
}

/// A labelled location.
pub struct Label {
    pub style: LabelStyle,
    pub span: Span,
    pub message: String,
}

/// A diagnostic: where it comes from, how serious it is, its code, message,
/// labelled locations and notes.
pub struct Diagnostic {
    pub source: String,
    pub severity: Severity,
    pub code: Option<String>,
    pub message: String,
    pub labels: Vec<Label>,
    pub notes: Vec<String>,
}

/// A frame of attempt context, a terminal cause, or a set of alternatives.
pub enum ReportKind {
    Frame { span: Span, message: String },
    Cause(Diagnostic),
    Alternatives(Diagnostic),
}

/// A report with the reports it groups.
pub struct Report {
    pub kind: ReportKind,
    pub children: Vec<Report>,
}

/// The span of the first primary label, if any.
pub open spec fn primary_span(labels: Seq<Label>) -> Option<Span>
    decreases labels.len(),
{
    if labels.len() == 0 {
        None
    } else {
        match primary_span(labels.drop_last()) {
            Some(s) => Some(s),
            None => if labels.last().style == LabelStyle::Primary { Some(labels.last().span) } else { None },
        }
    }
}

proof fn lemma_primary_span_prefix(labels: Seq<Label>, n: int)
    requires
        0 <= n <= labels.len(),
        primary_span(labels.take(n)) is Some,
    ensures
        primary_span(labels) == primary_span(labels.take(n)),
    decreases labels.len() - n,
{
    if n < labels.len() {
        assert(labels.take(n + 1).drop_last() =~= labels.take(n));
        lemma_primary_span_prefix(labels, n + 1);
    } else {
        assert(labels.take(n) =~= labels);
    }
}

/// The span of the first primary label of a diagnostic, if any.
pub fn find_primary_span(labels: &Vec<Label>) -> (r: Option<Span>)
    ensures
        r == primary_span(labels@),
{
    let mut i: usize = 0;
    while i < labels.len()
        invariant
            i <= labels@.len(),
            primary_span(labels@.take(i as int)) is None,
        decreases labels@.len() - i,
    {
        proof {
            assert(labels@.take(i + 1).drop_last() =~= labels@.take(i as int));
        }
        if labels[i].style == LabelStyle::Primary {
            proof {
                assert(primary_span(labels@.take(i + 1)) == Some(labels@[i as int].span));
                lemma_primary_span_prefix(labels@, i + 1);
            }
            return Some(labels[i].span);
        }
        i = i + 1;
    }
    proof {
        assert(labels@.take(i as int) =~= labels@);
    }
    None
}

/// A frame of attempt context with no reports beneath it yet.
pub fn frame(span: Span, message: String) -> (r: Report)
    ensures
        r.kind == (ReportKind::Frame { span, message }),
        r.children@.len() == 0,
{
    Report { kind: ReportKind::Frame { span, message }, children: Vec::new() }
}

/// The report that no elaboration alternative applied.
pub fn alternative_missing() -> (r: Report)
    ensures
        r.kind matches ReportKind::Cause(d) && d.message@ == "no elaboration alternative matched"@
            && d.severity == Severity::Error && d.labels@.len() == 1 && d.labels@[0].style == LabelStyle::Primary,
        r.children@.len() == 0,
{
    let mut labels: Vec<Label> = Vec::new();
    labels.push(Label { style: LabelStyle::Primary, span: Span::none(), message: String::new() });
    let d = Diagnostic {
        source: String::from_str("elab"),
        severity: Severity::Error,
        code: Some(String::from_str("elab/elaboration-alternative-missing")),
        message: String::from_str("no elaboration alternative matched"),
        labels,
        notes: Vec::new(),
    };
    Report { kind: ReportKind::Cause(d), children: Vec::new() }
}

// == Building diagnostics

/// A label without locations' messages turned into text.
pub open spec fn label_view(l: Label) -> (LabelStyle, Span, Seq<char>) {
    (l.style, l.span, l.message@)
}

/// The labels' views.
pub open spec fn labels_view(ls: Seq<Label>) -> Seq<(LabelStyle, Span, Seq<char>)> {
    Seq::new(ls.len(), |i: int| label_view(ls[i]))
}

/// The texts of a list of strings.
pub open spec fn strings_view(ss: Seq<String>) -> Seq<Seq<char>> {
    Seq::new(ss.len(), |i: int| ss[i]@)
}

/// Whether `r` is the diagnostic from `source` with the given severity,
/// code, message, labels and notes.
pub open spec fn is_diagnostic(
    r: Report,
    source: Seq<char>,
    severity: Severity,
    code: Seq<char>,
    message: Seq<char>,
    labels: Seq<(LabelStyle, Span, Seq<char>)>,
    notes: Seq<Seq<char>>,
) -> bool {
    &&& r.children@.len() == 0
    &&& r.kind matches ReportKind::Cause(d)
    &&& d.source@ == source
    &&& d.severity == severity
    &&& d.code matches Some(c) && c@ == code
    &&& d.message@ == message
    &&& labels_view(d.labels@) == labels
    &&& strings_view(d.notes@) == notes
}

/// The primary label at `span`.
pub open spec fn primary_v(span: Span) -> (LabelStyle, Span, Seq<char>) {
    (LabelStyle::Primary, span, Seq::empty())
}

/// A secondary label at `span` saying `message`.
pub open spec fn related_v(span: Span, message: Seq<char>) -> (LabelStyle, Span, Seq<char>) {
    (LabelStyle::Secondary, span, message)
}

/// Labels the responsible source occurrence.
pub fn primary(span: Span) -> (l: Label)
    ensures
        label_view(l) == primary_v(span),
{
    let l = Label { style: LabelStyle::Primary, span, message: String::new() };
    assert(l.message@ =~= Seq::<char>::empty());
    l
}

/// Relates another location to the responsible occurrence.
pub fn related(span: Span, message: &str) -> (l: Label)
    ensures
        label_view(l) == related_v(span, message@),
{
    Label { style: LabelStyle::Secondary, span, message: String::from_str(message) }
}

/// One label.
pub fn labels1(a: Label) -> (v: Vec<Label>)
    ensures
        labels_view(v@) == seq![label_view(a)],
{
    let mut v: Vec<Label> = Vec::new();
    v.push(a);
    assert(labels_view(v@) =~= seq![label_view(a)]);
    v
}

/// Two labels, in order.
pub fn labels2(a: Label, b: Label) -> (v: Vec<Label>)
    ensures
        labels_view(v@) == seq![label_view(a), label_view(b)],
{
    let mut v: Vec<Label> = Vec::new();
    v.push(a);
    v.push(b);
    assert(labels_view(v@) =~= seq![label_view(a), label_view(b)]);
    v
}

/// No notes.
pub fn notes0() -> (v: Vec<String>)
    ensures
        strings_view(v@) == Seq::<Seq<char>>::empty(),
{
    let v: Vec<String> = Vec::new();
    assert(strings_view(v@) =~= Seq::<Seq<char>>::empty());
    v
}

/// One note.
pub fn notes1(note: &str) -> (v: Vec<String>)
    ensures
        strings_view(v@) == seq![note@],
{
    let mut v: Vec<String> = Vec::new();
    v.push(String::from_str(note));
    assert(strings_view(v@) =~= seq![note@]);
    v
}

/// `before` + `name` + `after`.
pub fn named(before: &str, name: &String, after: &str) -> (s: String)
    ensures
        s@ == before@ + name@ + after@,
{
    let mut s = String::from_str(before);
    s.append(name.as_str());
    s.append(after);
    s
}

/// A diagnostic report.
pub fn diagnostic(source: &str, severity: Severity, code: &str, message: String, labels: Vec<Label>, notes: Vec<String>) -> (r: Report)
    ensures
        is_diagnostic(r, source@, severity, code@, message@, labels_view(labels@), strings_view(notes@)),
{
    let d = Diagnostic {
        source: String::from_str(source),
        severity,
        code: Some(String::from_str(code)),
        message,
        labels,
        notes,
    };
    Report { kind: ReportKind::Cause(d), children: Vec::new() }
}

// == Numbers in messages

/// The decimal digit `d`.
pub open spec fn digit_text(d: nat) -> Seq<char> {
    if d == 0 { "0"@ } else if d == 1 { "1"@ } else if d == 2 { "2"@ } else if d == 3 { "3"@ }
    else if d == 4 { "4"@ } else if d == 5 { "5"@ } else if d == 6 { "6"@ } else if d == 7 { "7"@ }
    else if d == 8 { "8"@ } else { "9"@ }
}

/// The decimal numeral of `n`.
pub open spec fn decimal_text(n: nat) -> Seq<char>
    decreases n,
{
    if n < 10 { digit_text(n) } else { decimal_text(n / 10) + digit_text(n % 10) }
}

fn digit(d: usize) -> (s: &'static str)
    requires
        d < 10,
    ensures
        s@ == digit_text(d as nat),
{
    if d == 0 { "0" } else if d == 1 { "1" } else if d == 2 { "2" } else if d == 3 { "3" }
    else if d == 4 { "4" } else if d == 5 { "5" } else if d == 6 { "6" } else if d == 7 { "7" }
    else if d == 8 { "8" } else { "9" }
}

/// Appends the decimal numeral of `n`.
pub fn append_decimal(s: &mut String, n: usize)
    ensures
        final(s)@ == old(s)@ + decimal_text(n as nat),
    decreases n,
{
    if n < 10 {
        s.append(digit(n));
    } else {
        append_decimal(s, n / 10);
        s.append(digit(n % 10));
        proof {
            assert(old(s)@ + decimal_text((n / 10) as nat) + digit_text((n % 10) as nat)
                =~= old(s)@ + (decimal_text((n / 10) as nat) + digit_text((n % 10) as nat)));
        }
    }
}

// == Annotating the causes of a report

/// The label views of a diagnostic after `l` is added to it, unless `dedup`
/// and an equal label is there already.
pub open spec fn labeled(labels: Seq<Label>, l: Label, dedup: bool) -> Seq<(LabelStyle, Span, Seq<char>)> {
    if dedup && labels_view(labels).contains(label_view(l)) {
        labels_view(labels)
    } else {
        labels_view(labels).push(label_view(l))
    }
}

/// `b` is `a` with `l` added to every cause diagnostic in it, children
/// included; everything else is kept.
pub open spec fn annotated(a: Report, b: Report, l: Label, dedup: bool) -> bool
    decreases a,
{
    &&& match a.kind {
        ReportKind::Cause(d) => b.kind matches ReportKind::Cause(e) && e.source == d.source && e.severity == d.severity
            && e.code == d.code && e.message == d.message && e.notes == d.notes
            && labels_view(e.labels@) == labeled(d.labels@, l, dedup),
        _ => b.kind == a.kind,
    }
    &&& b.children@.len() == a.children@.len()
    &&& forall|i: int| 0 <= i < a.children@.len() ==> annotated(#[trigger] a.children@[i], b.children@[i], l, dedup)
}

fn clone_label(l: &Label) -> (c: Label)
    ensures
        label_view(c) == label_view(*l),
{
    Label { style: l.style, span: l.span, message: l.message.clone() }
}

/// Whether a list of labels holds one equal to `l`.
fn contains_label(labels: &Vec<Label>, l: &Label) -> (b: bool)
    ensures
        b == labels_view(labels@).contains(label_view(*l)),
{
    for i in 0..labels.len()
        invariant
            forall|j: int| 0 <= j < i ==> label_view(#[trigger] labels@[j]) != label_view(*l),
    {
        let m = &labels[i];
        if m.style == l.style && m.span == l.span && m.message == l.message {
            proof {
                assert(labels_view(labels@)[i as int] == label_view(*l));
            }
            return true;
        }
    }
    proof {
        if labels_view(labels@).contains(label_view(*l)) {
            let j = choose|j: int| 0 <= j < labels_view(labels@).len() && labels_view(labels@)[j] == label_view(*l);
            assert(label_view(labels@[j]) == label_view(*l));
        }
    }
    false
}

fn annotate_report(r: Report, label: &Label, dedup: bool) -> (out: Report)
    ensures
        annotated(r, out, *label, dedup),
    decreases r,
{
    let ghost r0 = r;
    let Report { kind, children } = r;
    let kind = match kind {
        ReportKind::Cause(d) => {
            let Diagnostic { source, severity, code, message, labels, notes } = d;
            let mut labels = labels;
            let ghost before = labels@;
            if !(dedup && contains_label(&labels, label)) {
                let c = clone_label(label);
                labels.push(c);
                proof {
                    assert(labels_view(labels@) =~= labels_view(before).push(label_view(*label)));
                }
            }
            ReportKind::Cause(Diagnostic { source, severity, code, message, labels, notes })
        },
        k => k,
    };
    let children = annotate_all(children, label, dedup);
    Report { kind, children }
}

fn annotate_all(rs: Vec<Report>, label: &Label, dedup: bool) -> (out: Vec<Report>)
    ensures
        out@.len() == rs@.len(),
        forall|i: int| 0 <= i < rs@.len() ==> annotated(#[trigger] rs@[i], out@[i], *label, dedup),
    decreases rs,
{
    let ghost orig = rs@;
    let mut rest = rs;
    let mut out: Vec<Report> = Vec::new();
    let n = rest.len();
    let mut k: usize = 0;
    while k < n
        invariant
            orig == rs@,
            n == orig.len(),
            k <= n,
            rest@ == orig.subrange(k as int, n as int),
            out@.len() == k,
            forall|i: int| 0 <= i < k ==> annotated(#[trigger] orig[i], out@[i], *label, dedup),
        decreases n - k,
    {
        let x = rest.remove(0);
        proof {
            assert(x == orig[k as int]);
        }
        let y = annotate_report(x, label, dedup);
        out.push(y);
        proof {
            assert(rest@ =~= orig.subrange(k + 1, n as int));
        }
        k = k + 1;
    }
    out
}

/// Adds `label` to every cause diagnostic of the reports, children
/// included; when `dedup`, a diagnostic that has an equal label already is
/// left as it is.
pub fn annotate_causes(reports: &mut Vec<Report>, label: &Label, dedup: bool)
    ensures
        final(reports)@.len() == old(reports)@.len(),
        forall|i: int| 0 <= i < old(reports)@.len() ==> annotated(#[trigger] old(reports)@[i], final(reports)@[i], *label, dedup),
{
    let mut taken: Vec<Report> = Vec::new();
    std::mem::swap(reports, &mut taken);
    let out = annotate_all(taken, label, dedup);
    *reports = out;
}

} // verus!
