//! Findings reported by the detectors.
use vstd::prelude::*;
use uuid::Uuid;

verus! {

/// How serious a finding is.
#[derive(Debug, Clone, Copy, PartialEq, Eq, Structural)]
pub enum Severity {
    Critical,
    High,
    Medium,
    Low,
    Info,
}

/// Rank of a severity, most serious first.
pub open spec fn severity_rank(s: Severity) -> u8 {
    match s {
        Severity::Critical => 0,
        Severity::High => 1,
        Severity::Medium => 2,
        Severity::Low => 3,
        Severity::Info => 4,
    }
}

impl Severity {
    /// Rank, most serious first (Critical is 0).
    pub fn rank(&self) -> (r: u8)
        ensures
            r == severity_rank(*self),
    {
        match self {
            Severity::Critical => 0,
            Severity::High => 1,
            Severity::Medium => 2,
            Severity::Low => 3,
            Severity::Info => 4,
        }
    }
}

/// Kind of weakness a finding points at.
#[derive(Debug, Clone, Copy, PartialEq, Eq, Structural)]
pub enum FindingCategory {
    PanicPath,
    Injection,
    PathTraversal,
    SecuritySmell,
}

/// One issue reported by a detector.
#[derive(Debug)]
pub struct Finding {
    pub id: Uuid,
    pub detector: String,
    pub severity: Severity,
    pub category: FindingCategory,
    pub file: String,
    pub line: Option<u32>,
    pub title: String,
    pub description: String,
    pub evidence: Vec<String>,
    pub covered: bool,
    pub suggestion: String,
    pub explanation: Option<String>,
    pub fix: Option<String>,
    pub cwe_ids: Vec<u32>,
}

/// A fresh random finding identifier: calls `uuid::Uuid::new_v4`; nothing is
/// stated of the value.
#[verifier::external_body]
pub(crate) fn new_finding_id() -> Uuid {
    Uuid::new_v4()
}

} // verus!
