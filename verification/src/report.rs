//! The report of an analysis.

use vstd::prelude::*;

verus! {

/// Breakdown by severity.
#[derive(Debug, Clone)]
pub struct SeverityBreakdown {
    /// Critical violations.
    pub critical: usize,
    /// High severity violations.
    pub high: usize,
    /// Medium severity violations.
    pub medium: usize,
    /// Low severity violations.
    pub low: usize,
}

impl Default for SeverityBreakdown {
    fn default() -> (b: Self)
        ensures
            b.critical == 0,
            b.high == 0,
            b.medium == 0,
            b.low == 0,
    {
        SeverityBreakdown { critical: 0, high: 0, medium: 0, low: 0 }
    }
}

/// A complete analysis report.
#[derive(Debug, Clone)]
pub struct Report {
    /// Report title.
    pub title: String,
    /// Timestamp of generation.
    pub generated_at: String,
    /// Program analyzed.
    pub program: String,
    /// Total invariants checked.
    pub invariants_checked: usize,
    /// Violations found.
    pub violations_found: usize,
    /// Coverage percentage.
    pub coverage_percent: u8,
    /// Functions protected.
    pub protected_functions: Vec<String>,
    /// Functions not protected.
    pub unprotected_functions: Vec<String>,
    /// Severity breakdown.
    pub severity_breakdown: SeverityBreakdown,
}

impl Report {
    /// Whether the report is a fresh one for the given title and program:
    /// nothing counted, nothing listed.
    pub open spec fn is_blank(self, title: String, program: String) -> bool {
        &&& self.title == title
        &&& self.program == program
        &&& self.invariants_checked == 0
        &&& self.violations_found == 0
        &&& self.coverage_percent == 0
        &&& self.protected_functions@.len() == 0
        &&& self.unprotected_functions@.len() == 0
        &&& self.severity_breakdown.critical == 0
        &&& self.severity_breakdown.high == 0
        &&& self.severity_breakdown.medium == 0
        &&& self.severity_breakdown.low == 0
    }

    /// Create a new report with a given time of generation.
    pub fn stamped(title: String, program: String, generated_at: String) -> (r: Self)
        ensures
            r.is_blank(title, program),
            r.generated_at == generated_at,
    {
        Report {
            title,
            generated_at,
            program,
            invariants_checked: 0,
            violations_found: 0,
            coverage_percent: 0,
            protected_functions: Vec::new(),
            unprotected_functions: Vec::new(),
            severity_breakdown: SeverityBreakdown::default(),
        }
    }
}

} // verus!
