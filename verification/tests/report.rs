use umoja::error::DomainError;
use umoja::report::{Report, ReportKind, MAX_BODY_BYTES};

fn now() -> i64 {
    chrono::DateTime::parse_from_rfc3339("2026-08-23T12:00:00Z").unwrap().timestamp()
}

fn report(title: &str, body: &str) -> Result<Report, DomainError> {
    Report::new(
        "rep-1",
        ReportKind::Bug,
        title,
        body,
        Some("ast_rewrite".into()),
        "coder",
        Some("ses-1".into()),
        now(),
    )
}

#[test]
fn a_report_without_a_reproduction_is_refused() {
    assert!(report("ast_rewrite eats the file", "   ").is_err());
    assert!(report("   ", "expected X, got Y").is_err());
    assert!(report("ast_rewrite eats the file", "expected X, got Y").is_ok());
}

#[test]
fn an_oversized_body_is_refused_rather_than_truncated() {
    let huge = "x".repeat(MAX_BODY_BYTES + 1);
    assert!(matches!(report("too much", &huge), Err(DomainError::LimitReached { .. })));
}

#[test]
fn kinds_round_trip_through_their_labels() {
    for kind in [ReportKind::Bug, ReportKind::Error, ReportKind::Friction, ReportKind::Idea] {
        assert_eq!(ReportKind::parse(kind.label()).unwrap(), kind);
    }
    assert!(ReportKind::parse("nonsense").is_err());
}

#[test]
fn a_new_report_is_open_and_renders_its_provenance() {
    let r = report("ast_rewrite eats the file", "expected X, got Y").unwrap();
    assert!(r.is_open());
    let md = r.to_markdown();
    assert!(md.contains("[bug] ast_rewrite eats the file"));
    assert!(md.contains("ast_rewrite"));
    assert!(md.contains("ses-1"));
    assert!(md.contains("expected X, got Y"));
}

#[test]
fn a_blank_component_is_dropped() {
    let r = Report::new(
        "rep-2",
        ReportKind::Idea,
        "add ast_rewrite",
        "it would help",
        Some("  ".into()),
        "coder",
        None,
        now(),
    )
    .unwrap();
    assert!(r.component.is_none());
    assert!(r.to_markdown().contains("unspecified"));
}

#[test]
fn the_markdown_form_is_exact() {
    let r = report("t", "b").unwrap();
    assert_eq!(
        r.to_markdown(),
        "## [bug] t\n\n- **id**: `rep-1`\n- **component**: `ast_rewrite`\n- **status**: open\n- **filed by**: coder (session `ses-1`)\n- **when**: 2026-08-23T12:00:00+00:00\n\nb\n"
    );
}

#[test]
fn a_long_title_is_refused() {
    assert!(report(&"t".repeat(201), "b").is_err());
    assert!(report(&"t".repeat(200), "b").is_ok());
}
