//! Four-state results for elaboration alternatives.
//!
//! Unavailable rules and mismatches permit another candidate on the original
//! context; a fatal failure stops the search at once. Every failure keeps
//! complete reports in source candidate order.

use vstd::prelude::*;
use vstd::string::StringExecFns;
use crate::span::Span;
use crate::elaborate::report::{Report, ReportKind, alternative_missing, find_primary_span, primary_span};

verus! {

/// A successful elaboration, an unavailable rule, a mismatch, or a fatal
/// failure.
pub enum Backtrack<T, F> {
    /// The operation produced a value.
    Success(T),
    /// The rule's prerequisites did not hold; another candidate may be tried.
    Unavailable(F),
    /// An applicable rule failed; another candidate may be tried.
    Mismatch(F),
    /// The operation failed and no alternative may be tried.
    Fatal(F),
}

impl<T, F> Backtrack<T, F> {
    /// Maps a successful value while preserving each failure state.
    pub fn map<U, M: FnOnce(T) -> U>(self, map: M) -> (r: Backtrack<U, F>)
        requires
            self matches Backtrack::Success(v) ==> call_requires(map, (v,)),
        ensures
            match self {
                Backtrack::Success(v) => r matches Backtrack::Success(u) && call_ensures(map, (v,), u),
                Backtrack::Unavailable(f) => r == Backtrack::<U, F>::Unavailable(f),
                Backtrack::Mismatch(f) => r == Backtrack::<U, F>::Mismatch(f),
                Backtrack::Fatal(f) => r == Backtrack::<U, F>::Fatal(f),
            },
    {
        match self {
            Backtrack::Success(v) => Backtrack::Success(map(v)),
            Backtrack::Unavailable(f) => Backtrack::Unavailable(f),
            Backtrack::Mismatch(f) => Backtrack::Mismatch(f),
            Backtrack::Fatal(f) => Backtrack::Fatal(f),
        }
    }

    /// Maps a failure payload without changing its recovery state.
    pub fn map_failure<G, M: FnOnce(F) -> G>(self, map: M) -> (r: Backtrack<T, G>)
        requires
            match self {
                Backtrack::Success(_) => true,
                Backtrack::Unavailable(f) | Backtrack::Mismatch(f) | Backtrack::Fatal(f) => call_requires(map, (f,)),
            },
        ensures
            match self {
                Backtrack::Success(v) => r == Backtrack::<T, G>::Success(v),
                Backtrack::Unavailable(f) => r matches Backtrack::Unavailable(g) && call_ensures(map, (f,), g),
                Backtrack::Mismatch(f) => r matches Backtrack::Mismatch(g) && call_ensures(map, (f,), g),
                Backtrack::Fatal(f) => r matches Backtrack::Fatal(g) && call_ensures(map, (f,), g),
            },
    {
        match self {
            Backtrack::Success(v) => Backtrack::Success(v),
            Backtrack::Unavailable(f) => Backtrack::Unavailable(map(f)),
            Backtrack::Mismatch(f) => Backtrack::Mismatch(map(f)),
            Backtrack::Fatal(f) => Backtrack::Fatal(map(f)),
        }
    }

    /// Marks an unavailable child as a mismatch of its applicable parent rule.
    pub fn unavailable_as_mismatch(self) -> (r: Self)
        ensures
            r == match self {
                Backtrack::Unavailable(f) => Backtrack::<T, F>::Mismatch(f),
                other => other,
            },
    {
        match self {
            Backtrack::Unavailable(f) => Backtrack::Mismatch(f),
            other => other,
        }
    }

    /// Promotes either recoverable failure at a non-backtracking boundary.
    pub fn recoverable_as_failure(self) -> (r: Self)
        ensures
            r == match self {
                Backtrack::Unavailable(f) => Backtrack::<T, F>::Fatal(f),
                Backtrack::Mismatch(f) => Backtrack::<T, F>::Fatal(f),
                other => other,
            },
    {
        match self {
            Backtrack::Unavailable(f) | Backtrack::Mismatch(f) => Backtrack::Fatal(f),
            other => other,
        }
    }
}

/// A frame of context holding `children`.
pub open spec fn framed(span: Span, message: String, children: Vec<Report>) -> Report {
    Report { kind: ReportKind::Frame { span, message }, children }
}

impl<T> Backtrack<T, Vec<Report>> {
    /// Wraps a recoverable failure under operation context; fatal reports
    /// pass through unchanged so that their direct cause stays first.
    pub fn nest(self, span: Span, message: String) -> (r: Self)
        ensures
            match self {
                Backtrack::Unavailable(children) => r matches Backtrack::Unavailable(v) && v@ == seq![framed(span, message, children)],
                Backtrack::Mismatch(children) => r matches Backtrack::Mismatch(v) && v@ == seq![framed(span, message, children)],
                other => r == other,
            },
    {
        match self {
            Backtrack::Unavailable(children) => {
                let mut v: Vec<Report> = Vec::new();
                v.push(Report { kind: ReportKind::Frame { span, message }, children });
                Backtrack::Unavailable(v)
            },
            Backtrack::Mismatch(children) => {
                let mut v: Vec<Report> = Vec::new();
                v.push(Report { kind: ReportKind::Frame { span, message }, children });
                Backtrack::Mismatch(v)
            },
            other => other,
        }
    }
}

/// An unavailable result with the reports `fs`.
pub open spec fn unavailable_with<T>(r: Backtrack<T, Vec<Report>>, fs: Seq<Report>) -> bool {
    r matches Backtrack::Unavailable(f) && f@ == fs
}

/// A mismatch with the reports `fs`.
pub open spec fn mismatch_with<T>(r: Backtrack<T, Vec<Report>>, fs: Seq<Report>) -> bool {
    r matches Backtrack::Mismatch(f) && f@ == fs
}

/// The report that no elaboration alternative applied.
pub open spec fn is_missing_report(rep: Report) -> bool {
    rep.kind matches ReportKind::Cause(d) && d.message@ == "no elaboration alternative matched"@
}

/// The report grouping the alternatives `reports` under a frame at their
/// first located root span.
pub open spec fn is_alternatives_report(rep: Report, reports: Seq<Report>) -> bool {
    &&& rep.children@ == reports
    &&& rep.kind matches ReportKind::Frame { span, message }
    &&& message@ == "elaboration alternatives failed"@
    &&& span == match first_root_span(reports) {
        Some(s) => s,
        None => Span { lo: 0, hi: 0 },
    }
}

/// Whether the result of choosing between two alternatives is `r`, with the
/// context `c` after it, given the original context `ctx` and the outcome
/// `o1` of the first alternative and `o2` of the second: the first success
/// commits its context, a fatal failure stops the search, and two
/// recoverable failures keep the reports of both, in order; the choice is
/// unavailable only when both alternatives were.
pub open spec fn chosen<C, T>(ctx: C, o1: (C, Backtrack<T, Vec<Report>>), o2: (C, Backtrack<T, Vec<Report>>), c: C, r: Backtrack<T, Vec<Report>>) -> bool {
    match o1.1 {
        Backtrack::Success(v) => r == Backtrack::<T, Vec<Report>>::Success(v) && c == o1.0,
        Backtrack::Fatal(f) => r == Backtrack::<T, Vec<Report>>::Fatal(f) && c == ctx,
        Backtrack::Unavailable(f1) | Backtrack::Mismatch(f1) => match o2.1 {
            Backtrack::Success(v) => r == Backtrack::<T, Vec<Report>>::Success(v) && c == o2.0,
            Backtrack::Fatal(f) => r == Backtrack::<T, Vec<Report>>::Fatal(f) && c == ctx,
            Backtrack::Unavailable(f2) => c == ctx && if o1.1 is Unavailable {
                unavailable_with(r, f1@ + f2@)
            } else {
                mismatch_with(r, f1@ + f2@)
            },
            Backtrack::Mismatch(f2) => c == ctx && mismatch_with(r, f1@ + f2@),
        },
    }
}

/// Tries the second alternative after either recoverable failure of the
/// first. Each alternative starts from the original context and hands back
/// the context it leaves; only the successful alternative's is committed.
pub fn choose_sequential<C, T, F1, F2>(ctx: &mut C, first: F1, second: F2) -> (r: Backtrack<T, Vec<Report>>)
    where
        F1: FnOnce(&C) -> (C, Backtrack<T, Vec<Report>>),
        F2: FnOnce(&C) -> (C, Backtrack<T, Vec<Report>>),
    requires
        call_requires(first, (&*old(ctx),)),
        call_requires(second, (&*old(ctx),)),
    ensures
        exists|o1: (C, Backtrack<T, Vec<Report>>)| #[trigger] call_ensures(first, (&*old(ctx),), o1) && (
            if o1.1 is Unavailable || o1.1 is Mismatch {
                exists|o2: (C, Backtrack<T, Vec<Report>>)| #[trigger] call_ensures(second, (&*old(ctx),), o2)
                    && chosen(*old(ctx), o1, o2, *final(ctx), r)
            } else {
                chosen(*old(ctx), o1, o1, *final(ctx), r)
            }
        ),
{
    let o1 = first(&*ctx);
    let ghost g1 = o1;
    let (ctx_first, result_first) = o1;
    let first_unavailable = matches!(result_first, Backtrack::Unavailable(_));
    match result_first {
        Backtrack::Success(value) => {
            *ctx = ctx_first;
            Backtrack::Success(value)
        },
        Backtrack::Fatal(reports) => Backtrack::Fatal(reports),
        Backtrack::Unavailable(reports) | Backtrack::Mismatch(reports) => {
            let o2 = second(&*ctx);
            let ghost g2 = o2;
            let (ctx_second, result_second) = o2;
            match result_second {
                Backtrack::Success(value) => {
                    *ctx = ctx_second;
                    Backtrack::Success(value)
                },
                Backtrack::Fatal(reports_second) => Backtrack::Fatal(reports_second),
                Backtrack::Unavailable(reports_second) => {
                    let mut reports = reports;
                    let mut reports_second = reports_second;
                    reports.append(&mut reports_second);
                    if first_unavailable {
                        Backtrack::Unavailable(reports)
                    } else {
                        Backtrack::Mismatch(reports)
                    }
                },
                Backtrack::Mismatch(reports_second) => {
                    let mut reports = reports;
                    let mut reports_second = reports_second;
                    reports.append(&mut reports_second);
                    Backtrack::Mismatch(reports)
                },
            }
        },
    }
}

// == Finishing

/// The span of a report's root, when it is located: a frame's own span, or
/// the first primary label of a diagnostic.
pub open spec fn root_span(report: Report) -> Option<Span> {
    let span = match report.kind {
        ReportKind::Frame { span, message: _ } => Some(span),
        ReportKind::Cause(d) => primary_span(d.labels@),
        ReportKind::Alternatives(d) => primary_span(d.labels@),
    };
    match span {
        Some(s) => if s.lo == 0 && s.hi == 0 { None } else { Some(s) },
        None => None,
    }
}

/// The first located root span among `reports`.
pub open spec fn first_root_span(reports: Seq<Report>) -> Option<Span>
    decreases reports.len(),
{
    if reports.len() == 0 {
        None
    } else {
        match first_root_span(reports.drop_last()) {
            Some(s) => Some(s),
            None => root_span(reports.last()),
        }
    }
}

/// Finds the first located root span without inspecting report presentation.
fn report_span(report: &Report) -> (r: Option<Span>)
    ensures
        r == root_span(*report),
{
    let span = match &report.kind {
        ReportKind::Frame { span, .. } => Some(*span),
        ReportKind::Cause(d) | ReportKind::Alternatives(d) => find_primary_span(&d.labels),
    };
    match span {
        Some(s) => if s.is_none() { None } else { Some(s) },
        None => None,
    }
}

proof fn lemma_first_root_span_prefix(reports: Seq<Report>, n: int)
    requires
        0 <= n <= reports.len(),
        first_root_span(reports.take(n)) is Some,
    ensures
        first_root_span(reports) == first_root_span(reports.take(n)),
    decreases reports.len() - n,
{
    if n < reports.len() {
        assert(reports.take(n + 1).drop_last() =~= reports.take(n));
        lemma_first_root_span_prefix(reports, n + 1);
    } else {
        assert(reports.take(n) =~= reports);
    }
}

fn find_root_span(reports: &Vec<Report>) -> (r: Option<Span>)
    ensures
        r == first_root_span(reports@),
{
    let mut i: usize = 0;
    while i < reports.len()
        invariant
            i <= reports@.len(),
            first_root_span(reports@.take(i as int)) is None,
        decreases reports@.len() - i,
    {
        proof {
            assert(reports@.take(i + 1).drop_last() =~= reports@.take(i as int));
        }
        match report_span(&reports[i]) {
            Some(s) => {
                proof {
                    assert(first_root_span(reports@.take(i + 1)) == Some(s));
                    lemma_first_root_span_prefix(reports@, i + 1);
                }
                return Some(s);
            },
            None => {},
        }
        i = i + 1;
    }
    proof {
        assert(reports@.take(i as int) =~= reports@);
    }
    None
}

/// Keeps one report unchanged and groups several alternative reports under
/// a frame at the first located root span.
fn finish_reports(reports: Vec<Report>) -> (r: Report)
    ensures
        reports@.len() == 0 ==> is_missing_report(r),
        reports@.len() == 1 ==> r == reports@[0],
        reports@.len() > 1 ==> is_alternatives_report(r, reports@),
{
    let mut reports = reports;
    if reports.len() == 0 {
        alternative_missing()
    } else if reports.len() == 1 {
        reports.remove(0)
    } else {
        let span = match find_root_span(&reports) {
            Some(s) => s,
            None => Span::none(),
        };
        Report { kind: ReportKind::Frame { span, message: String::from_str("elaboration alternatives failed") }, children: reports }
    }
}

/// Converts a completed backtrack into a plain elaboration result: its value,
/// or its reports as one.
pub fn finish<T>(result: Backtrack<T, Vec<Report>>) -> (r: Result<T, Report>)
    ensures
        match result {
            Backtrack::Success(v) => r == Ok::<T, Report>(v),
            Backtrack::Unavailable(f) | Backtrack::Mismatch(f) | Backtrack::Fatal(f) => r is Err && {
                let rep = r->Err_0;
                &&& f@.len() == 0 ==> is_missing_report(rep)
                &&& f@.len() == 1 ==> rep == f@[0]
                &&& f@.len() > 1 ==> is_alternatives_report(rep, f@)
            },
        },
{
    match result {
        Backtrack::Success(value) => Ok(value),
        Backtrack::Unavailable(reports) | Backtrack::Mismatch(reports) | Backtrack::Fatal(reports) => Err(finish_reports(reports)),
    }
}

} // verus!
