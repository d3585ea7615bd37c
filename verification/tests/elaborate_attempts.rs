use p4spec::elaborate::attempt::{self, Backtrack as Attempted, Specificity};
use p4spec::elaborate::backtrack::{self, Backtrack};
use p4spec::elaborate::diagnostics;
use p4spec::elaborate::report::{frame, LabelStyle, Report, ReportKind, Severity};
use p4spec::il::Id;
use p4spec::prose::error::{ProseError, ProseErrorKind};
use p4spec::span::Span;

fn at(lo: u64) -> Span {
    Span { lo, hi: lo + 2 }
}

fn framed(lo: u64, message: &str) -> Report {
    frame(at(lo), message.to_string())
}

fn frame_message(r: &Report) -> String {
    match &r.kind {
        ReportKind::Frame { message, .. } => message.clone(),
        ReportKind::Cause(d) | ReportKind::Alternatives(d) => d.message.clone(),
    }
}

#[test]
fn the_first_successful_reading_commits_its_context() {
    let mut ctx: u32 = 0;
    let r = attempt::choose_sequential(&mut ctx, |c: &u32| (*c + 1, Ok::<u32, Attempted>(7)), |c: &u32| (*c + 10, Ok::<u32, Attempted>(8)));
    assert!(matches!(r, Ok(7)));
    assert_eq!(ctx, 1);
}

#[test]
fn the_second_reading_starts_from_the_original_context() {
    let mut ctx: u32 = 0;
    let r = attempt::choose_sequential(
        &mut ctx,
        |c: &u32| (*c + 1, attempt::fail_generic::<u32>(framed(1, "list concatenation"))),
        |c: &u32| (*c + 10, Ok::<u32, Attempted>(8)),
    );
    assert!(matches!(r, Ok(8)));
    assert_eq!(ctx, 10);
}

#[test]
fn two_failed_readings_keep_both_reports_in_order() {
    let mut ctx: u32 = 3;
    let r = attempt::choose_sequential(
        &mut ctx,
        |c: &u32| (*c + 1, attempt::fail_generic::<u32>(framed(1, "first"))),
        |c: &u32| (*c + 10, attempt::fail::<u32>(framed(5, "second"))),
    );
    assert_eq!(ctx, 3);
    let b = r.err().unwrap();
    assert_eq!(b.reports.iter().map(frame_message).collect::<Vec<_>>(), vec!["first", "second"]);
    // The specific failure outranks the generic one
    let s = b.selection.unwrap();
    assert_eq!(s.message, "second");
    assert_eq!(s.specificity, Specificity::Specific);
}

#[test]
fn a_located_summary_outranks_an_unlocated_one() {
    let a = attempt::fail_generic::<u32>(frame(Span::none(), "somewhere".to_string())).err().unwrap();
    let b = attempt::fail_generic::<u32>(framed(4, "here")).err().unwrap();
    let m = a.merge(b);
    assert_eq!(m.selection.unwrap().message, "here");
}

#[test]
fn a_tie_keeps_the_earlier_summary() {
    let a = attempt::fail_generic::<u32>(framed(1, "earlier")).err().unwrap();
    let b = attempt::fail_generic::<u32>(framed(2, "later")).err().unwrap();
    let m = a.merge(b);
    assert_eq!(m.selection.unwrap().message, "earlier");
}

#[test]
fn nesting_wraps_the_reports_in_one_frame() {
    let b = attempt::fail::<u32>(framed(1, "cause")).err().unwrap();
    let n = b.nest(at(9), "while elaborating".to_string());
    assert_eq!(n.reports.len(), 1);
    assert_eq!(frame_message(&n.reports[0]), "while elaborating");
    assert_eq!(n.reports[0].children.len(), 1);
    // The specific cause still ranks above the generic frame, one level deeper
    let s = n.selection.unwrap();
    assert_eq!(s.message, "cause");
    assert_eq!(s.depth, 1);
}

#[test]
fn finishing_without_a_summary_reports_no_alternative() {
    let r = attempt::finish(attempt::fail_silent::<u32>()).err().unwrap();
    assert_eq!(frame_message(&r), "no elaboration alternative matched");
    assert!(matches!(attempt::finish(Ok::<u32, Attempted>(3)), Ok(3)));
}

#[test]
fn a_fatal_first_reading_stops_the_search() {
    let mut ctx: u32 = 0;
    let mut second_ran = false;
    let r = backtrack::choose_sequential(
        &mut ctx,
        |c: &u32| (*c + 1, Backtrack::<u32, Vec<Report>>::Fatal(vec![framed(1, "fatal")])),
        |c: &u32| {
            second_ran = true;
            (*c + 10, Backtrack::<u32, Vec<Report>>::Success(8))
        },
    );
    assert!(!second_ran);
    assert!(matches!(r, Backtrack::Fatal(_)));
    assert_eq!(ctx, 0);
}

#[test]
fn two_unavailable_readings_stay_unavailable_and_a_mismatch_wins() {
    let mut ctx: u32 = 0;
    let r = backtrack::choose_sequential(
        &mut ctx,
        |c: &u32| (*c, Backtrack::<u32, Vec<Report>>::Unavailable(vec![framed(1, "a")])),
        |c: &u32| (*c, Backtrack::<u32, Vec<Report>>::Unavailable(vec![framed(2, "b")])),
    );
    match r {
        Backtrack::Unavailable(rs) => assert_eq!(rs.iter().map(frame_message).collect::<Vec<_>>(), vec!["a", "b"]),
        _ => panic!("expected unavailable"),
    }
    let r = backtrack::choose_sequential(
        &mut ctx,
        |c: &u32| (*c, Backtrack::<u32, Vec<Report>>::Unavailable(vec![framed(1, "a")])),
        |c: &u32| (*c, Backtrack::<u32, Vec<Report>>::Mismatch(vec![framed(2, "b")])),
    );
    assert!(matches!(r, Backtrack::Mismatch(_)));
}

#[test]
fn recovery_states_can_be_promoted() {
    let u = Backtrack::<u32, Vec<Report>>::Unavailable(vec![]);
    assert!(matches!(u.unavailable_as_mismatch(), Backtrack::Mismatch(_)));
    let m = Backtrack::<u32, Vec<Report>>::Mismatch(vec![]);
    assert!(matches!(m.recoverable_as_failure(), Backtrack::Fatal(_)));
    let s = Backtrack::<u32, Vec<Report>>::Success(1);
    assert!(matches!(s.recoverable_as_failure(), Backtrack::Success(1)));
}

#[test]
fn finishing_groups_several_alternatives() {
    let r = backtrack::finish(Backtrack::<u32, Vec<Report>>::Mismatch(vec![framed(0, "a"), framed(4, "b")])).err().unwrap();
    assert_eq!(frame_message(&r), "elaboration alternatives failed");
    assert_eq!(r.children.len(), 2);
    match &r.kind {
        ReportKind::Frame { span, .. } => assert_eq!(*span, at(0)),
        _ => panic!("not a frame"),
    }
    let one = backtrack::finish(Backtrack::<u32, Vec<Report>>::Fatal(vec![framed(4, "only")])).err().unwrap();
    assert_eq!(frame_message(&one), "only");
}

#[test]
fn declaration_diagnostics_name_and_relate() {
    let id = Id { node: "Step".to_string(), span: at(3) };
    let r = diagnostics::relation_repeated(&id, at(1));
    match &r.kind {
        ReportKind::Cause(d) => {
            assert_eq!(d.message, "relation `Step` was already defined");
            assert_eq!(d.code.as_deref(), Some("elab/relation-repeated"));
            assert_eq!(d.severity, Severity::Error);
            assert_eq!(d.labels.len(), 2);
            assert_eq!(d.labels[0].style, LabelStyle::Primary);
            assert_eq!(d.labels[0].span, at(3));
            assert_eq!(d.labels[1].message, "first declaration");
        },
        _ => panic!("not a diagnostic"),
    }
    let w = diagnostics::table_row_missing(&id, at(5));
    match &w.kind {
        ReportKind::Cause(d) => {
            assert_eq!(d.severity, Severity::Warning);
            assert_eq!(d.message, "table `Step` has no rows defined");
        },
        _ => panic!("not a diagnostic"),
    }
}

#[test]
fn prose_error_texts() {
    let e = ProseError::new(ProseErrorKind::InvalidHintExpression("alter".to_string()), at(2));
    assert_eq!(e.kind.text(), "invalid expression for prose hint `alter`");
    assert_eq!(e.span, at(2));
    assert_eq!(ProseErrorKind::InvalidGroupTier.text(), "a rule group cannot appear in a group body");
}
