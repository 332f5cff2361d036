//! Security rules defined outside the detectors (loaded from YAML files).
use vstd::prelude::*;

verus! {

/// Severity level of a rule's findings.
#[derive(Debug, Clone, Copy, PartialEq, Eq, Structural)]
pub enum RuleSeverity {
    Error,
    Warning,
    Info,
}

/// A security rule definition.
#[derive(Debug, Clone)]
pub struct RuleDefinition {
    /// Unique rule identifier (e.g. "APEX-SQL-001").
    pub id: String,
    /// Human-readable message describing the issue.
    pub message: String,
    /// Severity level.
    pub severity: RuleSeverity,
    /// Pattern expressions to match (any match triggers the rule).
    pub patterns: Vec<String>,
    /// CWE identifier (e.g. 89 for SQL injection).
    pub cwe: Option<u32>,
    /// Languages this rule applies to (empty: all).
    pub languages: Vec<String>,
    /// Fix suggestion text.
    pub fix: Option<String>,
}

} // verus!
