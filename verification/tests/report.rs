use apex::detect::finding::{Finding, FindingCategory, Severity};
use apex::detect::report::AnalysisReport;

fn make_finding(severity: Severity) -> Finding {
    Finding {
        id: uuid::Uuid::nil(),
        detector: "test".into(),
        severity,
        category: FindingCategory::PanicPath,
        file: "test.rs".into(),
        line: Some(1),
        title: "t".into(),
        description: "d".into(),
        evidence: vec![],
        covered: false,
        suggestion: "s".into(),
        explanation: None,
        fix: None,
        cwe_ids: vec![],
    }
}

#[test]
fn security_summary_counts_severities() {
    let report = AnalysisReport {
        findings: vec![
            make_finding(Severity::Critical),
            make_finding(Severity::High),
            make_finding(Severity::High),
            make_finding(Severity::Medium),
            make_finding(Severity::Low),
            make_finding(Severity::Info),
        ],
        detector_status: vec![("test".into(), true)],
    };
    let summary = report.security_summary();
    assert_eq!(summary.critical, 1);
    assert_eq!(summary.high, 2);
    assert_eq!(summary.medium, 1);
    assert_eq!(summary.low, 1);
}

#[test]
fn empty_report_gives_zero_summary() {
    let report = AnalysisReport { findings: vec![], detector_status: vec![] };
    let summary = report.security_summary();
    assert_eq!(summary.critical, 0);
    assert_eq!(summary.high, 0);
    assert!(summary.top_risk.is_none());
}

#[test]
fn security_summary_top_risk_prefers_severe_then_uncovered() {
    let mut covered_critical = make_finding(Severity::Critical);
    covered_critical.covered = true;
    covered_critical.title = "covered".into();
    let mut uncovered_critical = make_finding(Severity::Critical);
    uncovered_critical.file = "src/main.rs".into();
    uncovered_critical.title = "uncovered panic".into();
    let mut second = make_finding(Severity::Critical);
    second.title = "later".into();
    let report = AnalysisReport {
        findings: vec![make_finding(Severity::High), covered_critical, uncovered_critical, second],
        detector_status: vec![("panic".into(), true), ("ssrf".into(), false)],
    };
    let summary = report.security_summary();
    assert_eq!(summary.top_risk.as_deref(), Some("src/main.rs — uncovered panic"));
    assert_eq!(summary.detectors_run, vec!["panic", "ssrf"]);
    let low_only = AnalysisReport { findings: vec![make_finding(Severity::Medium)], detector_status: vec![] };
    assert!(low_only.security_summary().top_risk.is_none());
}
