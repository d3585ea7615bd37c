//! Backtracking among elaboration alternatives.
//!
//! Many constructs have several readings, such as `a ++ b` being a list or a
//! text concatenation. `choose_sequential` runs each reading on the original
//! context and commits only a winner. Failed readings keep complete reports,
//! while flat metadata selects the most informative summary.

use vstd::prelude::*;
use crate::span::Span;
use crate::elaborate::report::{Report, ReportKind, alternative_missing, find_primary_span, primary_span};

verus! {

/// Distinguishes broad no-match context from a concrete failed check.
#[derive(Clone, Copy, Debug, PartialEq, Eq, Structural)]
pub enum Specificity {
    Generic,
    Specific,
}

/// Summary used only to select the final attempt frame.
pub struct Selection {
    pub span: Span,
    pub message: String,
    pub located: bool,
    pub specificity: Specificity,
    pub depth: usize,
}

/// Whether `a` ranks above `b`: by location, then specificity, then nesting
/// depth, each compared in that order.
pub open spec fn outranks(a: Selection, b: Selection) -> bool {
    ||| (a.located && !b.located)
    ||| (a.located == b.located && a.specificity == Specificity::Specific && b.specificity == Specificity::Generic)
    ||| (a.located == b.located && a.specificity == b.specificity && a.depth > b.depth)
}

/// The summary kept when the summary `b` of a later failure meets the summary
/// `a` of earlier ones: the later one only if it ranks strictly higher.
pub open spec fn pick(a: Option<Selection>, b: Option<Selection>) -> Option<Selection> {
    match b {
        None => a,
        Some(sb) => match a {
            None => Some(sb),
            Some(sa) => if outranks(sb, sa) { Some(sb) } else { Some(sa) },
        },
    }
}

impl Selection {
    /// A summary at depth zero, located unless its span is unknown.
    pub fn new(span: Span, message: String, specificity: Specificity) -> (s: Selection)
        ensures
            s.span == span,
            s.message == message,
            s.located == !(span.lo == 0 && span.hi == 0),
            s.specificity == specificity,
            s.depth == 0,
    {
        let located = !span.is_none();
        Selection { span, message, located, specificity, depth: 0 }
    }

    /// Orders candidates by location, specificity, then nesting depth.
    pub fn outranks(&self, other: &Selection) -> (b: bool)
        ensures
            b == outranks(*self, *other),
    {
        if self.located != other.located {
            return self.located;
        }
        if self.specificity != other.specificity {
            return self.specificity == Specificity::Specific;
        }
        self.depth > other.depth
    }
}

/// Backtracking state: every report of the failed alternatives, in source
/// order, and the summary selected among them.
pub struct Backtrack {
    pub reports: Vec<Report>,
    pub selection: Option<Selection>,
}

/// A successful elaboration result or a recoverable failure.
pub type Attempt<T> = Result<T, Backtrack>;

impl Backtrack {
    /// A failure without any report, for alternatives that never apply.
    pub fn empty() -> (b: Backtrack)
        ensures
            b.reports@.len() == 0,
            b.selection is None,
    {
        Backtrack { reports: Vec::new(), selection: None }
    }

    /// A failure holding `report` unchanged, summarised by its frame or by
    /// its diagnostic's message at its first primary label.
    pub fn from_report(report: Report, specificity: Specificity) -> (b: Backtrack)
        ensures
            b.reports@ == seq![report],
            b.selection is Some,
            ({
                let s = b.selection->Some_0;
                &&& s.specificity == specificity
                &&& s.depth == 0
                &&& s.located == !(s.span.lo == 0 && s.span.hi == 0)
                &&& match report.kind {
                    ReportKind::Frame { span, message } => s.span == span && s.message == message,
                    ReportKind::Cause(d) => s.message == d.message && s.span == match primary_span(d.labels@) {
                        Some(p) => p,
                        None => Span { lo: 0, hi: 0 },
                    },
                    ReportKind::Alternatives(d) => s.message == d.message && s.span == match primary_span(d.labels@) {
                        Some(p) => p,
                        None => Span { lo: 0, hi: 0 },
                    },
                }
            }),
    {
        let (span, message) = match &report.kind {
            ReportKind::Frame { span, message } => (*span, message.clone()),
            ReportKind::Cause(d) | ReportKind::Alternatives(d) => {
                let span = match find_primary_span(&d.labels) {
                    Some(s) => s,
                    None => Span::none(),
                };
                (span, d.message.clone())
            },
        };
        let mut reports: Vec<Report> = Vec::new();
        reports.push(report);
        Backtrack { reports, selection: Some(Selection::new(span, message, specificity)) }
    }

    /// Wraps the collected reports under a new attempt-context frame; the
    /// summary goes one level deeper, and the frame takes over as summary
    /// when there was none or it ranks higher.
    pub fn nest(self, span: Span, message: String) -> (b: Backtrack)
        requires
            self.selection matches Some(s) ==> s.depth < usize::MAX,
        ensures
            b.reports@.len() == 1,
            b.reports@[0].kind == (ReportKind::Frame { span, message }),
            b.reports@[0].children@ == self.reports@,
            ({
                let deeper = match self.selection {
                    Some(s) => Some(Selection { depth: (s.depth + 1) as usize, ..s }),
                    None => None,
                };
                let parent = Selection { span, message, located: !(span.lo == 0 && span.hi == 0), specificity: Specificity::Generic, depth: 0 };
                b.selection == match deeper {
                    None => Some(parent),
                    Some(d) => if outranks(parent, d) { Some(parent) } else { Some(d) },
                }
            }),
    {
        let mut this = self;
        let deeper = match this.selection {
            Some(s) => Some(Selection { depth: s.depth + 1, ..s }),
            None => None,
        };
        let parent = Selection::new(span, message.clone(), Specificity::Generic);
        let selection = match deeper {
            None => Some(parent),
            Some(d) => if parent.outranks(&d) { Some(parent) } else { Some(d) },
        };
        let mut reports: Vec<Report> = Vec::new();
        reports.push(Report { kind: ReportKind::Frame { span, message }, children: this.reports });
        Backtrack { reports, selection }
    }

    /// Appends the reports of another failed alternative; its summary wins
    /// only if it ranks strictly higher.
    pub fn merge(self, other: Backtrack) -> (b: Backtrack)
        ensures
            b.reports@ == self.reports@ + other.reports@,
            b.selection == pick(self.selection, other.selection),
    {
        let mut this = self;
        let mut other = other;
        let selection = match other.selection {
            None => this.selection,
            Some(so) => match this.selection {
                None => Some(so),
                Some(ss) => if so.outranks(&ss) { Some(so) } else { Some(ss) },
            },
        };
        this.reports.append(&mut other.reports);
        Backtrack { reports: this.reports, selection }
    }

    /// The failure as one report: the selected summary as a frame holding
    /// every report, or the report that no alternative applied.
    pub fn into_error(self) -> (r: Report)
        ensures
            match self.selection {
                Some(s) => r.kind == (ReportKind::Frame { span: s.span, message: s.message }) && r.children@ == self.reports@,
                None => r.kind matches ReportKind::Cause(d) && d.message@ == "no elaboration alternative matched"@,
            },
    {
        match self.selection {
            Some(s) => Report { kind: ReportKind::Frame { span: s.span, message: s.message }, children: self.reports },
            None => alternative_missing(),
        }
    }
}

/// Fails an attempt with a concrete structured cause.
pub fn fail<T>(report: Report) -> (r: Attempt<T>)
    ensures
        r is Err,
        r->Err_0.reports@ == seq![report],
        r->Err_0.selection is Some,
        r->Err_0.selection->Some_0.specificity == Specificity::Specific,
{
    Err(Backtrack::from_report(report, Specificity::Specific))
}

/// Fails an attempt with broad no-match context.
pub fn fail_generic<T>(report: Report) -> (r: Attempt<T>)
    ensures
        r is Err,
        r->Err_0.reports@ == seq![report],
        r->Err_0.selection is Some,
        r->Err_0.selection->Some_0.specificity == Specificity::Generic,
{
    Err(Backtrack::from_report(report, Specificity::Generic))
}

/// Fails an attempt without a report, for alternatives that never apply.
pub fn fail_silent<T>() -> (r: Attempt<T>)
    ensures
        r is Err,
        r->Err_0.reports@.len() == 0,
        r->Err_0.selection is None,
{
    Err(Backtrack::empty())
}

/// Tries the first alternative and falls back to the second on failure.
///
/// Each alternative starts from the original context and hands back the
/// context it leaves; only the context of the successful alternative is
/// kept, and the reports of both failures are merged when neither succeeds.
pub fn choose_sequential<C, T, F1, F2>(ctx: &mut C, first: F1, second: F2) -> (r: Attempt<T>)
    where
        F1: FnOnce(&C) -> (C, Attempt<T>),
        F2: FnOnce(&C) -> (C, Attempt<T>),
    requires
        call_requires(first, (&*old(ctx),)),
        call_requires(second, (&*old(ctx),)),
    ensures
        exists|o1: (C, Attempt<T>)| #[trigger] call_ensures(first, (&*old(ctx),), o1) && match o1.1 {
            Ok(v1) => r == Ok::<T, Backtrack>(v1) && *final(ctx) == o1.0,
            Err(b1) => exists|o2: (C, Attempt<T>)| #[trigger] call_ensures(second, (&*old(ctx),), o2) && match o2.1 {
                Ok(v2) => r == Ok::<T, Backtrack>(v2) && *final(ctx) == o2.0,
                Err(b2) => r matches Err(b) && b.reports@ == b1.reports@ + b2.reports@
                    && b.selection == pick(b1.selection, b2.selection) && *final(ctx) == *old(ctx),
            },
        },
{
    let o1 = first(&*ctx);
    let (ctx_first, result_first) = o1;
    match result_first {
        Ok(value) => {
            *ctx = ctx_first;
            Ok(value)
        },
        Err(failure) => {
            let o2 = second(&*ctx);
            let (ctx_second, result_second) = o2;
            match result_second {
                Ok(value) => {
                    *ctx = ctx_second;
                    Ok(value)
                },
                Err(failure_second) => Err(failure.merge(failure_second)),
            }
        },
    }
}

/// Converts a finished attempt into a plain elaboration result.
pub fn finish<T>(attempt: Attempt<T>) -> (r: Result<T, Report>)
    ensures
        match attempt {
            Ok(v) => r == Ok::<T, Report>(v),
            Err(b) => r matches Err(rep) && match b.selection {
                Some(s) => rep.kind == (ReportKind::Frame { span: s.span, message: s.message }) && rep.children@ == b.reports@,
                None => rep.kind matches ReportKind::Cause(d) && d.message@ == "no elaboration alternative matched"@,
            },
        },
{
    match attempt {
        Ok(v) => Ok(v),
        Err(b) => Err(b.into_error()),
    }
}

// == Laws

/// Outranking is a strict order: never reflexive, and transitive.
pub proof fn lemma_outranks_strict(a: Selection, b: Selection, c: Selection)
    ensures
        !outranks(a, a),
        outranks(a, b) && outranks(b, c) ==> outranks(a, c),
        outranks(a, b) ==> !outranks(b, a),
{
}

/// Merging failures is associative: the reports come out in source order
/// and the summary is the first of the highest rank, however the merges
/// are grouped.
pub proof fn lemma_merge_associative(a: Option<Selection>, b: Option<Selection>, c: Option<Selection>)
    ensures
        pick(pick(a, b), c) == pick(a, pick(b, c)),
{
}

/// A failure without a summary is neutral for merging, on either side.
pub proof fn lemma_merge_neutral(a: Option<Selection>)
    ensures
        pick(None, a) == a,
        pick(a, None) == a,
{
}

} // verus!
