//! The outcome of an analysis run and its security summary.
use vstd::prelude::*;
use crate::detect::finding::{severity_rank, Finding, Severity};
use crate::text::{push_str, push_all, chars_of, string_of};

verus! {

/// The findings of an analysis run and which detectors ran (and whether
/// each succeeded).
#[derive(Debug)]
pub struct AnalysisReport {
    pub findings: Vec<Finding>,
    pub detector_status: Vec<(String, bool)>,
}

/// Counts of findings per severity, the detectors that ran, and the most
/// pressing finding.
#[derive(Debug, Clone)]
pub struct SecuritySummary {
    pub critical: usize,
    pub high: usize,
    pub medium: usize,
    pub low: usize,
    pub detectors_run: Vec<String>,
    pub top_risk: Option<String>,
}

/// Number of findings of severity `s`.
pub open spec fn count_severity(fs: Seq<Finding>, s: Severity) -> nat
    decreases fs.len(),
{
    if fs.len() == 0 {
        0
    } else {
        count_severity(fs.drop_last(), s) + if fs.last().severity == s { 1nat } else { 0nat }
    }
}

/// Ordering key of a finding for the top risk: severity rank, then
/// uncovered before covered.
pub open spec fn risk_key(f: Finding) -> (u8, u8) {
    (severity_rank(f.severity), if f.covered { 1u8 } else { 0u8 })
}

/// `a` orders strictly before `b`.
pub open spec fn key_before(a: (u8, u8), b: (u8, u8)) -> bool {
    a.0 < b.0 || (a.0 == b.0 && a.1 < b.1)
}

/// Index of the first finding of critical or high severity with the least
/// risk key, among the first `n`.
pub open spec fn top_risk_index(fs: Seq<Finding>, n: int) -> Option<int>
    decreases n,
{
    if n <= 0 {
        None
    } else {
        let prev = top_risk_index(fs, n - 1);
        let f = fs[n - 1];
        if severity_rank(f.severity) > 1 {
            prev
        } else {
            match prev {
                Some(p) => if key_before(risk_key(f), risk_key(fs[p])) {
                    Some(n - 1)
                } else {
                    Some(p)
                },
                None => Some(n - 1),
            }
        }
    }
}

/// The top-risk line of a finding: `file — title`.
pub open spec fn risk_line(f: Finding) -> Seq<char> {
    f.file@ + " — "@ + f.title@
}

impl AnalysisReport {
    /// Summarizes the report: how many findings of each severity from
    /// critical to low, the names of the detectors that ran, and, among the
    /// critical and high findings, the first most severe (uncovered before
    /// covered) one, as `file — title`.
    pub fn security_summary(&self) -> (s: SecuritySummary)
        ensures
            s.critical == count_severity(self.findings@, Severity::Critical),
            s.high == count_severity(self.findings@, Severity::High),
            s.medium == count_severity(self.findings@, Severity::Medium),
            s.low == count_severity(self.findings@, Severity::Low),
            s.detectors_run@.map_values(|n: String| n@) == self.detector_status@.map_values(
                |d: (String, bool)| d.0@,
            ),
            match top_risk_index(self.findings@, self.findings@.len() as int) {
                Some(i) => s.top_risk matches Some(t) && t@ == risk_line(self.findings@[i]),
                None => s.top_risk is None,
            },
    {
        let ghost fs = self.findings@;
        let mut critical: usize = 0;
        let mut high: usize = 0;
        let mut medium: usize = 0;
        let mut low: usize = 0;
        let mut top: Option<usize> = None;
        let mut i: usize = 0;
        while i < self.findings.len()
            invariant
                i <= fs.len(),
                fs == self.findings@,
                critical == count_severity(fs.take(i as int), Severity::Critical),
                high == count_severity(fs.take(i as int), Severity::High),
                medium == count_severity(fs.take(i as int), Severity::Medium),
                low == count_severity(fs.take(i as int), Severity::Low),
                critical <= i,
                high <= i,
                medium <= i,
                low <= i,
                match top {
                    Some(p) => top_risk_index(fs, i as int) == Some(p as int) && p < i,
                    None => top_risk_index(fs, i as int) is None,
                },
            decreases fs.len() - i,
        {
            let f = &self.findings[i];
            assert(fs.take(i + 1).drop_last() =~= fs.take(i as int));
            assert(fs.take(i + 1).last() == fs[i as int]);
            match f.severity {
                Severity::Critical => critical = critical + 1,
                Severity::High => high = high + 1,
                Severity::Medium => medium = medium + 1,
                Severity::Low => low = low + 1,
                Severity::Info => {},
            }
            let r = f.severity.rank();
            if r <= 1 {
                let c: u8 = if f.covered { 1 } else { 0 };
                match top {
                    Some(p) => {
                        let g = &self.findings[p];
                        let gr = g.severity.rank();
                        let gc: u8 = if g.covered { 1 } else { 0 };
                        if r < gr || (r == gr && c < gc) {
                            top = Some(i);
                        }
                    },
                    None => {
                        top = Some(i);
                    },
                }
            }
            i = i + 1;
        }
        assert(fs.take(fs.len() as int) =~= fs);
        let mut detectors_run: Vec<String> = Vec::new();
        let mut d: usize = 0;
        while d < self.detector_status.len()
            invariant
                d <= self.detector_status@.len(),
                detectors_run@.map_values(|n: String| n@) == self.detector_status@.take(d as int).map_values(
                    |e: (String, bool)| e.0@,
                ),
            decreases self.detector_status@.len() - d,
        {
            let ghost before = detectors_run@;
            let name = String::from_str(self.detector_status[d].0.as_str());
            detectors_run.push(name);
            assert(self.detector_status@.take(d + 1) =~= self.detector_status@.take(d as int).push(
                self.detector_status@[d as int],
            ));
            assert(detectors_run@ =~= before.push(name));
            assert(detectors_run@.map_values(|n: String| n@) =~= before.map_values(|n: String| n@).push(
                name@,
            ));
            assert(detectors_run@.map_values(|n: String| n@) =~= self.detector_status@.take(d + 1).map_values(
                |e: (String, bool)| e.0@,
            ));
            d = d + 1;
        }
        assert(self.detector_status@.take(self.detector_status@.len() as int) =~= self.detector_status@);
        let top_risk = match top {
            Some(p) => {
                let f = &self.findings[p];
                let mut line: Vec<char> = Vec::new();
                push_all(&mut line, &chars_of(f.file.as_str()));
                push_str(&mut line, " — ");
                push_all(&mut line, &chars_of(f.title.as_str()));
                Some(string_of(&line))
            },
            None => None,
        };
        SecuritySummary { critical, high, medium, low, detectors_run, top_risk }
    }
}

// ───────────────────────── laws ─────────────────────────

/// A finding of critical or high severity.
pub open spec fn is_serious(f: Finding) -> bool {
    f.severity == Severity::Critical || f.severity == Severity::High
}

/// The top risk among the first `n` findings exists exactly when one of them
/// is critical or high. It is such a finding, and no other serious finding
/// beats it: a critical finding anywhere makes it critical; among findings
/// of its severity an uncovered one makes it uncovered; and among findings
/// of its severity and coverage it is the first.
pub proof fn law_top_risk(fs: Seq<Finding>, n: int)
    requires
        0 <= n <= fs.len(),
    ensures
        top_risk_index(fs, n) is Some <==> exists|j: int| 0 <= j < n && is_serious(#[trigger] fs[j]),
        top_risk_index(fs, n) matches Some(i) ==> {
            &&& 0 <= i < n
            &&& is_serious(fs[i])
            &&& forall|j: int| 0 <= j < n && #[trigger] is_serious(fs[j]) ==> {
                &&& (fs[j].severity == Severity::Critical ==> fs[i].severity == Severity::Critical)
                &&& (fs[j].severity == fs[i].severity && !fs[j].covered ==> !fs[i].covered)
                &&& (fs[j].severity == fs[i].severity && fs[j].covered == fs[i].covered ==> i <= j)
            }
        },
    decreases n,
{
    if n > 0 {
        law_top_risk(fs, n - 1);
        let f = fs[n - 1];
        if top_risk_index(fs, n - 1) is Some {
            let p = top_risk_index(fs, n - 1)->0;
            assert(is_serious(fs[p]));
        }
        if !is_serious(f) {
            assert forall|j: int| 0 <= j < n && is_serious(#[trigger] fs[j]) implies j < n - 1 by {}
        }
    }
}

} // verus!
