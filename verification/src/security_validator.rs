//! Validation of source code against the catalogue of attack patterns.

use crate::attack_patterns::{
    affecting, borrowed_views, AttackPattern, AttackPatternDB, PatternView,
};
use crate::text::{
    chars_views, contains_chars, contains_seq, decimal, lines_of, push_decimal, split_lines,
    str_eq, to_chars,
};
use vstd::prelude::*;
use vstd::string::*;

verus! {

/// Issue severity level, from the least to the most severe.
#[derive(Debug, Clone, Copy, PartialEq, Eq, PartialOrd, Ord, Structural)]
pub enum IssueSeverity {
    /// Minor risk or best practice violation.
    Low,
    /// Could enable attacks under certain conditions.
    Medium,
    /// Can cause significant fund loss.
    High,
    /// Can cause total loss of funds.
    Critical,
}

impl IssueSeverity {
    /// The level in capital letters.
    pub open spec fn label(self) -> Seq<char> {
        match self {
            IssueSeverity::Critical => "CRITICAL"@,
            IssueSeverity::High => "HIGH"@,
            IssueSeverity::Medium => "MEDIUM"@,
            IssueSeverity::Low => "LOW"@,
        }
    }

    /// The level in capital letters.
    pub fn to_string(&self) -> (s: String)
        ensures
            s@ == self.label(),
    {
        match self {
            IssueSeverity::Critical => String::from_str("CRITICAL"),
            IssueSeverity::High => String::from_str("HIGH"),
            IssueSeverity::Medium => String::from_str("MEDIUM"),
            IssueSeverity::Low => String::from_str("LOW"),
        }
    }
}

/// The level of a CVSS score given in tenths: critical from 9.0, high from
/// 7.0, medium from 5.0, low below.
pub open spec fn severity_of(cvss_tenths: u32) -> IssueSeverity {
    if cvss_tenths >= 90 {
        IssueSeverity::Critical
    } else if cvss_tenths >= 70 {
        IssueSeverity::High
    } else if cvss_tenths >= 50 {
        IssueSeverity::Medium
    } else {
        IssueSeverity::Low
    }
}

/// The level of a CVSS score given in tenths.
pub fn severity_for(cvss_tenths: u32) -> (s: IssueSeverity)
    ensures
        s == severity_of(cvss_tenths),
{
    if cvss_tenths >= 90 {
        IssueSeverity::Critical
    } else if cvss_tenths >= 70 {
        IssueSeverity::High
    } else if cvss_tenths >= 50 {
        IssueSeverity::Medium
    } else {
        IssueSeverity::Low
    }
}

/// A detected security issue.
#[derive(Debug, Clone)]
pub struct SecurityIssue {
    /// Attack pattern involved.
    pub attack_pattern: String,
    /// Location in code (file:line).
    pub location: String,
    /// Description of the issue.
    pub description: String,
    /// Suggested fix.
    pub suggested_fix: String,
    /// Severity level.
    pub severity: IssueSeverity,
}

/// A security issue with its texts as sequences of characters.
pub struct IssueView {
    pub attack_pattern: Seq<char>,
    pub location: Seq<char>,
    pub description: Seq<char>,
    pub suggested_fix: Seq<char>,
    pub severity: IssueSeverity,
}

impl View for SecurityIssue {
    type V = IssueView;

    open spec fn view(&self) -> IssueView {
        IssueView {
            attack_pattern: self.attack_pattern@,
            location: self.location@,
            description: self.description@,
            suggested_fix: self.suggested_fix@,
            severity: self.severity,
        }
    }
}

/// The views of a list of issues.
pub open spec fn issues_view(v: Seq<SecurityIssue>) -> Seq<IssueView> {
    Seq::new(v.len(), |i: int| v[i]@)
}

/// Security validation report.
#[derive(Debug, Clone)]
pub struct SecurityReport {
    /// Critical vulnerabilities found.
    pub critical_issues: Vec<SecurityIssue>,
    /// High-risk issues found.
    pub high_issues: Vec<SecurityIssue>,
    /// Medium-risk issues found.
    pub medium_issues: Vec<SecurityIssue>,
    /// Low-risk issues found.
    pub low_issues: Vec<SecurityIssue>,
    /// Pass/fail status.
    pub passed: bool,
    /// Overall risk score (0-100).
    pub risk_score: u32,
}

/// A report with its issues as sequences.
pub struct ReportView {
    pub critical_issues: Seq<IssueView>,
    pub high_issues: Seq<IssueView>,
    pub medium_issues: Seq<IssueView>,
    pub low_issues: Seq<IssueView>,
    pub passed: bool,
    pub risk_score: u32,
}

impl View for SecurityReport {
    type V = ReportView;

    open spec fn view(&self) -> ReportView {
        ReportView {
            critical_issues: issues_view(self.critical_issues@),
            high_issues: issues_view(self.high_issues@),
            medium_issues: issues_view(self.medium_issues@),
            low_issues: issues_view(self.low_issues@),
            passed: self.passed,
            risk_score: self.risk_score,
        }
    }
}

/// Where an issue was found: the file and the line, counted from one.
pub open spec fn location_text(path: Seq<char>, line_index: nat) -> Seq<char> {
    path + ":"@ + decimal(line_index + 1)
}

/// What an issue of a pattern says.
pub open spec fn description_text(pattern: PatternView) -> Seq<char> {
    "Potential "@ + pattern.name + " vulnerability detected. "@ + pattern.description
}

/// The issue for a vulnerable pattern found in a line.
pub open spec fn pattern_issue(path: Seq<char>, line_index: nat, pattern: PatternView) -> IssueView {
    IssueView {
        attack_pattern: pattern.name,
        location: location_text(path, line_index),
        description: description_text(pattern),
        suggested_fix: "Apply defensive invariant: "@ + (if pattern.defensive_invariants.len() > 0 {
            pattern.defensive_invariants[0]
        } else {
            "Review code"@
        }),
        severity: severity_of(pattern.cvss_tenths),
    }
}

/// The issue for an external call with no state update before it.
pub open spec fn reentrancy_issue(path: Seq<char>, line_index: nat, pattern: PatternView) -> IssueView {
    IssueView {
        attack_pattern: pattern.name,
        location: location_text(path, line_index),
        description: description_text(pattern),
        suggested_fix: "Apply defensive invariant: state_update_before_external_call"@,
        severity: IssueSeverity::Critical,
    }
}

/// One issue for each of the first `n` vulnerable patterns that occurs in
/// the line.
pub open spec fn line_issues(
    line: Seq<char>,
    path: Seq<char>,
    line_index: nat,
    pattern: PatternView,
    n: nat,
) -> Seq<IssueView>
    decreases n,
{
    if n == 0 || n > pattern.vulnerable_patterns.len() {
        Seq::<IssueView>::empty()
    } else if contains_seq(line, pattern.vulnerable_patterns[n - 1]) {
        line_issues(line, path, line_index, pattern, (n - 1) as nat).push(
            pattern_issue(path, line_index, pattern),
        )
    } else {
        line_issues(line, path, line_index, pattern, (n - 1) as nat)
    }
}

/// The issues of the first `n` lines, line by line.
pub open spec fn generic_issues(
    lines: Seq<Seq<char>>,
    path: Seq<char>,
    pattern: PatternView,
    n: nat,
) -> Seq<IssueView>
    decreases n,
{
    if n == 0 || n > lines.len() {
        Seq::<IssueView>::empty()
    } else {
        generic_issues(lines, path, pattern, (n - 1) as nat) + line_issues(
            lines[n - 1],
            path,
            (n - 1) as nat,
            pattern,
            pattern.vulnerable_patterns.len(),
        )
    }
}

/// Whether a line makes an external call.
pub open spec fn calls_out(line: Seq<char>) -> bool {
    contains_seq(line, "transfer("@) || contains_seq(line, ".call("@) || contains_seq(
        line,
        ".send("@,
    )
}

/// Whether a line sets a balance to zero.
pub open spec fn zeroes_state(line: Seq<char>) -> bool {
    (contains_seq(line, "balances["@) && contains_seq(line, "= 0"@)) || (contains_seq(
        line,
        "balance ="@,
    ) && contains_seq(line, "= 0"@))
}

/// Whether a line carries the guard against reentrancy.
pub open spec fn is_guarded(line: Seq<char>) -> bool {
    contains_seq(line, "nonReentrant"@)
}

/// Whether one of the up to fifty lines before line `i` sets a balance to
/// zero.
pub open spec fn state_updated_before(lines: Seq<Seq<char>>, i: int) -> bool {
    exists|j: int| 0 <= j < i && i - 50 <= j && j < lines.len() && zeroes_state(#[trigger] lines[j])
}

/// Whether line `i` is open to reentrancy: an unguarded external call
/// with no state update in the fifty lines before it.
pub open spec fn exposed(lines: Seq<Seq<char>>, i: int) -> bool {
    &&& 0 <= i < lines.len()
    &&& !is_guarded(lines[i])
    &&& calls_out(lines[i])
    &&& !state_updated_before(lines, i)
}

/// One issue for each of the first `n` lines that is open to reentrancy.
pub open spec fn reentrancy_issues(
    lines: Seq<Seq<char>>,
    path: Seq<char>,
    pattern: PatternView,
    n: nat,
) -> Seq<IssueView>
    decreases n,
{
    if n == 0 || n > lines.len() {
        Seq::<IssueView>::empty()
    } else if exposed(lines, n - 1) {
        reentrancy_issues(lines, path, pattern, (n - 1) as nat).push(
            reentrancy_issue(path, (n - 1) as nat, pattern),
        )
    } else {
        reentrancy_issues(lines, path, pattern, (n - 1) as nat)
    }
}

/// The issues of one pattern in a text: for reentrancy the lines that are
/// open to it, for any other pattern the lines that hold one of its
/// vulnerable patterns.
pub open spec fn issues_of_pattern(lines: Seq<Seq<char>>, path: Seq<char>, pattern: PatternView) -> Seq<
    IssueView,
> {
    if pattern.id == "reentrancy"@ {
        reentrancy_issues(lines, path, pattern, lines.len())
    } else {
        generic_issues(lines, path, pattern, lines.len())
    }
}

/// The issues of the first `n` patterns, pattern by pattern.
pub open spec fn issues_of_patterns(
    lines: Seq<Seq<char>>,
    path: Seq<char>,
    patterns: Seq<PatternView>,
    n: nat,
) -> Seq<IssueView>
    decreases n,
{
    if n == 0 || n > patterns.len() {
        Seq::<IssueView>::empty()
    } else {
        issues_of_patterns(lines, path, patterns, (n - 1) as nat) + issues_of_pattern(
            lines,
            path,
            patterns[n - 1],
        )
    }
}

/// Among the first `n` issues, those of one level, in order.
pub open spec fn of_level(issues: Seq<IssueView>, level: IssueSeverity, n: nat) -> Seq<IssueView>
    decreases n,
{
    if n == 0 || n > issues.len() {
        Seq::<IssueView>::empty()
    } else if issues[n - 1].severity == level {
        of_level(issues, level, (n - 1) as nat).push(issues[n - 1])
    } else {
        of_level(issues, level, (n - 1) as nat)
    }
}

/// The risk score of a report: 25 for each critical issue, 15 for each
/// high, 8 for each medium and 3 for each low one, at most 100.
pub open spec fn risk_of(critical: nat, high: nat, medium: nat, low: nat) -> nat {
    let total = critical * 25 + high * 15 + medium * 8 + low * 3;
    if total > 100 {
        100
    } else {
        total
    }
}

/// The report on a list of issues: the issues by level, the score, and
/// whether there is neither a critical nor a high issue.
pub open spec fn report_on(issues: Seq<IssueView>) -> ReportView {
    let critical = of_level(issues, IssueSeverity::Critical, issues.len());
    let high = of_level(issues, IssueSeverity::High, issues.len());
    let medium = of_level(issues, IssueSeverity::Medium, issues.len());
    let low = of_level(issues, IssueSeverity::Low, issues.len());
    ReportView {
        critical_issues: critical,
        high_issues: high,
        medium_issues: medium,
        low_issues: low,
        passed: critical.len() == 0 && high.len() == 0,
        risk_score: risk_of(critical.len(), high.len(), medium.len(), low.len()) as u32,
    }
}

fn copy_issue(issue: &SecurityIssue) -> (r: SecurityIssue)
    ensures
        r@ == issue@,
{
    SecurityIssue {
        attack_pattern: issue.attack_pattern.clone(),
        location: issue.location.clone(),
        description: issue.description.clone(),
        suggested_fix: issue.suggested_fix.clone(),
        severity: issue.severity,
    }
}

fn pick(issues: &Vec<SecurityIssue>, level: IssueSeverity) -> (r: Vec<SecurityIssue>)
    ensures
        issues_view(r@) == of_level(issues_view(issues@), level, issues.len() as nat),
{
    let ghost all = issues_view(issues@);
    let mut out: Vec<SecurityIssue> = Vec::new();
    let mut i: usize = 0;
    proof {
        assert(issues_view(out@) =~= of_level(all, level, 0));
    }
    while i < issues.len()
        invariant
            i <= issues.len(),
            all == issues_view(issues@),
            issues_view(out@) == of_level(all, level, i as nat),
        decreases issues.len() - i,
    {
        proof {
            assert(all[i as int] == issues@[i as int]@);
        }
        if issues[i].severity == level {
            let c = copy_issue(&issues[i]);
            proof {
                assert(issues_view(out@.push(c)) =~= issues_view(out@).push(c@));
            }
            out.push(c);
        }
        i += 1;
    }
    out
}

/// 25 for each critical issue, 15 for each high, 8 for each medium and 3
/// for each low one, at most 100.
fn risk_score(critical: usize, high: usize, medium: usize, low: usize) -> (r: u32)
    ensures
        r == risk_of(critical as nat, high as nat, medium as nat, low as nat),
{
    if critical >= 4 || high >= 7 || medium >= 13 || low >= 34 {
        100
    } else {
        let total: u32 = (critical as u32) * 25 + (high as u32) * 15 + (medium as u32) * 8 + (
        low as u32) * 3;
        if total > 100 {
            100
        } else {
            total
        }
    }
}

fn location_of(path: &str, line_index: usize) -> (s: String)
    ensures
        s@ == location_text(path@, line_index as nat),
{
    let mut s = String::from_str(path);
    s.append(":");
    push_decimal(&mut s, line_index as u128 + 1);
    s
}

fn description_of(pattern: &AttackPattern) -> (s: String)
    ensures
        s@ == description_text(pattern@),
{
    let mut s = String::from_str("Potential ");
    s.append(pattern.name.as_str());
    s.append(" vulnerability detected. ");
    s.append(pattern.description.as_str());
    s
}

fn holds(line: &Vec<char>, token: &str) -> (r: bool)
    ensures
        r == contains_seq(line@, token@),
{
    let t = to_chars(token);
    contains_chars(line.as_slice(), t.as_slice())
}

fn line_zeroes_state(line: &Vec<char>) -> (r: bool)
    ensures
        r == zeroes_state(line@),
{
    (holds(line, "balances[") && holds(line, "= 0")) || (holds(line, "balance =") && holds(
        line,
        "= 0",
    ))
}

/// Security validator for code before building.
pub struct SecurityValidator {
    attack_db: AttackPatternDB,
}

impl SecurityValidator {
    /// The catalogue that the validator checks against.
    pub closed spec fn catalogue(self) -> AttackPatternDB {
        self.attack_db
    }

    /// Create a new security validator.
    pub fn new() -> (v: Self)
        ensures
            v.catalogue().by_id() == crate::attack_patterns::catalogue(8),
    {
        SecurityValidator { attack_db: AttackPatternDB::new() }
    }

    /// The catalogue that the validator checks against.
    pub fn attack_db(&self) -> (db: &AttackPatternDB)
        ensures
            *db == self.catalogue(),
    {
        &self.attack_db
    }

    /// Validate code content: the report on the issues of every pattern
    /// that affects the chain, patterns taken in the order of their ids.
    /// Always succeeds.
    pub fn validate_code(&self, code: &str, file_path: &str, chain: &str) -> (r: Result<
        SecurityReport,
        String,
    >)
        ensures
            r matches Ok(report) && report@ == report_on(
                issues_of_patterns(
                    lines_of(code@),
                    file_path@,
                    affecting(
                        self.catalogue().in_order(),
                        chain@,
                        self.catalogue().in_order().len(),
                    ),
                    affecting(
                        self.catalogue().in_order(),
                        chain@,
                        self.catalogue().in_order().len(),
                    ).len(),
                ),
            ),
    {
        let text = to_chars(code);
        let lines = split_lines(text.as_slice());
        let patterns = self.attack_db.patterns_for_chain(chain);
        let ghost chosen = borrowed_views(patterns@);
        let mut all: Vec<SecurityIssue> = Vec::new();
        let mut i: usize = 0;
        proof {
            assert(issues_view(all@) =~= Seq::<IssueView>::empty());
        }
        while i < patterns.len()
            invariant
                i <= patterns.len(),
                chosen == borrowed_views(patterns@),
                chars_views(lines@) == lines_of(code@),
                issues_view(all@) == issues_of_patterns(
                    lines_of(code@),
                    file_path@,
                    chosen,
                    i as nat,
                ),
            decreases patterns.len() - i,
        {
            let mut found = scan_pattern(&lines, file_path, patterns[i]);
            proof {
                assert(chosen[i as int] == patterns@[i as int]@);
                assert(issues_view(all@ + found@) =~= issues_view(all@) + issues_view(found@));
            }
            all.append(&mut found);
            i += 1;
        }
        let critical_issues = pick(&all, IssueSeverity::Critical);
        let high_issues = pick(&all, IssueSeverity::High);
        let medium_issues = pick(&all, IssueSeverity::Medium);
        let low_issues = pick(&all, IssueSeverity::Low);
        let risk_score = risk_score(
            critical_issues.len(),
            high_issues.len(),
            medium_issues.len(),
            low_issues.len(),
        );
        let passed = critical_issues.len() == 0 && high_issues.len() == 0;
        Ok(
            SecurityReport {
                critical_issues,
                high_issues,
                medium_issues,
                low_issues,
                passed,
                risk_score,
            },
        )
    }

    /// Check code against a specific attack pattern.
    pub fn check_pattern(&self, code: &str, file_path: &str, pattern: &AttackPattern) -> (r: Vec<
        SecurityIssue,
    >)
        ensures
            issues_view(r@) == issues_of_pattern(lines_of(code@), file_path@, pattern@),
    {
        let text = to_chars(code);
        let lines = split_lines(text.as_slice());
        scan_pattern(&lines, file_path, pattern)
    }

    /// Check for reentrancy: unguarded external calls with no state
    /// update in the fifty lines before them.
    pub fn check_reentrancy(&self, code: &str, file_path: &str, pattern: &AttackPattern) -> (r: Vec<
        SecurityIssue,
    >)
        ensures
            issues_view(r@) == reentrancy_issues(
                lines_of(code@),
                file_path@,
                pattern@,
                lines_of(code@).len(),
            ),
    {
        let text = to_chars(code);
        let lines = split_lines(text.as_slice());
        scan_reentrancy(&lines, file_path, pattern)
    }
}

impl Default for SecurityValidator {
    fn default() -> (v: Self)
        ensures
            v.catalogue().by_id() == crate::attack_patterns::catalogue(8),
    {
        Self::new()
    }
}

fn scan_pattern(lines: &Vec<Vec<char>>, file_path: &str, pattern: &AttackPattern) -> (r: Vec<
    SecurityIssue,
>)
    ensures
        issues_view(r@) == issues_of_pattern(chars_views(lines@), file_path@, pattern@),
{
    if str_eq(pattern.id.as_str(), "reentrancy") {
        scan_reentrancy(lines, file_path, pattern)
    } else {
        scan_generic(lines, file_path, pattern)
    }
}

fn scan_generic(lines: &Vec<Vec<char>>, file_path: &str, pattern: &AttackPattern) -> (r: Vec<
    SecurityIssue,
>)
    ensures
        issues_view(r@) == generic_issues(
            chars_views(lines@),
            file_path@,
            pattern@,
            lines.len() as nat,
        ),
{
    let ghost ls = chars_views(lines@);
    let mut issues: Vec<SecurityIssue> = Vec::new();
    let mut n: usize = 0;
    proof {
        assert(issues_view(issues@) =~= Seq::<IssueView>::empty());
    }
    while n < lines.len()
        invariant
            n <= lines.len(),
            ls == chars_views(lines@),
            issues_view(issues@) == generic_issues(ls, file_path@, pattern@, n as nat),
        decreases lines.len() - n,
    {
        let line = &lines[n];
        let ghost before = issues_view(issues@);
        let mut k: usize = 0;
        proof {
            assert(ls[n as int] == line@);
            assert(before + line_issues(line@, file_path@, n as nat, pattern@, 0) =~= before);
        }
        while k < pattern.vulnerable_patterns.len()
            invariant
                k <= pattern.vulnerable_patterns.len(),
                issues_view(issues@) == before + line_issues(
                    line@,
                    file_path@,
                    n as nat,
                    pattern@,
                    k as nat,
                ),
            decreases pattern.vulnerable_patterns.len() - k,
        {
            let vulnerable = &pattern.vulnerable_patterns[k];
            proof {
                assert(pattern@.vulnerable_patterns[k as int] == vulnerable@);
            }
            if holds(line, vulnerable.as_str()) {
                let mut fix = String::from_str("Apply defensive invariant: ");
                if pattern.defensive_invariants.len() > 0 {
                    fix.append(pattern.defensive_invariants[0].as_str());
                    proof {
                        assert(pattern@.defensive_invariants[0] == pattern.defensive_invariants@[0]@);
                    }
                } else {
                    fix.append("Review code");
                }
                let issue = SecurityIssue {
                    attack_pattern: pattern.name.clone(),
                    location: location_of(file_path, n),
                    description: description_of(pattern),
                    suggested_fix: fix,
                    severity: severity_for(pattern.cvss_tenths),
                };
                proof {
                    assert(issue@ == pattern_issue(file_path@, n as nat, pattern@));
                    let prev = line_issues(line@, file_path@, n as nat, pattern@, k as nat);
                    assert(issues_view(issues@.push(issue)) =~= issues_view(issues@).push(issue@));
                    assert((before + prev).push(issue@) =~= before + prev.push(issue@));
                }
                issues.push(issue);
            }
            k += 1;
        }
        n += 1;
    }
    issues
}

fn scan_reentrancy(lines: &Vec<Vec<char>>, file_path: &str, pattern: &AttackPattern) -> (r: Vec<
    SecurityIssue,
>)
    ensures
        issues_view(r@) == reentrancy_issues(
            chars_views(lines@),
            file_path@,
            pattern@,
            lines.len() as nat,
        ),
{
    let ghost ls = chars_views(lines@);
    let mut issues: Vec<SecurityIssue> = Vec::new();
    let mut n: usize = 0;
    proof {
        assert(issues_view(issues@) =~= Seq::<IssueView>::empty());
    }
    while n < lines.len()
        invariant
            n <= lines.len(),
            ls == chars_views(lines@),
            issues_view(issues@) == reentrancy_issues(ls, file_path@, pattern@, n as nat),
        decreases lines.len() - n,
    {
        let line = &lines[n];
        proof {
            assert(ls[n as int] == line@);
        }
        let open = !holds(line, "nonReentrant") && (holds(line, "transfer(") || holds(
            line,
            ".call(",
        ) || holds(line, ".send("));
        if open {
            let start: usize = if n >= 50 {
                n - 50
            } else {
                0
            };
            let mut updated = false;
            let mut j: usize = start;
            while j < n && !updated
                invariant
                    start <= j <= n < lines.len(),
                    start == (if n >= 50 {
                        n - 50
                    } else {
                        0
                    }),
                    ls == chars_views(lines@),
                    updated ==> state_updated_before(ls, n as int),
                    !updated ==> forall|k: int| start <= k < j ==> !zeroes_state(#[trigger] ls[k]),
                decreases n - j,
            {
                proof {
                    assert(ls[j as int] == lines@[j as int]@);
                }
                if line_zeroes_state(&lines[j]) {
                    updated = true;
                }
                j += 1;
            }
            if !updated {
                let issue = SecurityIssue {
                    attack_pattern: pattern.name.clone(),
                    location: location_of(file_path, n),
                    description: description_of(pattern),
                    suggested_fix: String::from_str(
                        "Apply defensive invariant: state_update_before_external_call",
                    ),
                    severity: IssueSeverity::Critical,
                };
                proof {
                    assert(issues_view(issues@.push(issue)) =~= issues_view(issues@).push(issue@));
                }
                issues.push(issue);
            }
        }
        n += 1;
    }
    issues
}

} // verus!
