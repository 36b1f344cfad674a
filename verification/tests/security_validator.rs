use invar::attack_patterns::AttackPattern;
use invar::security_validator::{severity_for, IssueSeverity, SecurityValidator};

#[test]
fn test_security_validator_creation() {
    let validator = SecurityValidator::new();
    assert_eq!(validator.attack_db().all_patterns().len(), 8);
}

#[test]
fn test_vulnerable_code_detection() {
    let validator = SecurityValidator::new();
    let code = "fn transfer() { transfer_funds(); /* state update after */ }";
    let report = validator.validate_code(code, "test.rs", "evm").unwrap();
    assert!(!report.passed);
    assert!(!report.critical_issues.is_empty());
}

#[test]
fn test_safe_code_passes() {
    let validator = SecurityValidator::new();
    let code = "fn safe_code() { let x = 1 + 1; println!(\"{}\", x); }";
    let report = validator.validate_code(code, "test.rs", "evm").unwrap();
    assert!(report.passed);
    assert_eq!(report.critical_issues.len(), 0);
}

#[test]
fn test_risk_score_calculation() {
    let validator = SecurityValidator::new();
    let code = "fn risky() { payable(msg.sender).transfer(amount); balances[msg.sender] = 0; }";
    let report = validator.validate_code(code, "test.rs", "evm").unwrap();
    assert!(report.risk_score > 0);
}

#[test]
fn test_chain_specific_validation() {
    let validator = SecurityValidator::new();
    let code = "fn access() { require(is_owner()); }";

    let evm_report = validator.validate_code(code, "test.sol", "evm").unwrap();
    let solana_report = validator.validate_code(code, "test.rs", "solana").unwrap();

    // Both chains should detect access control patterns
    assert!(evm_report.passed || solana_report.passed);
}

fn reentrancy(validator: &SecurityValidator) -> AttackPattern {
    validator.attack_db().get_pattern("reentrancy").unwrap().clone()
}

#[test]
fn state_update_before_the_call_is_no_reentrancy() {
    let validator = SecurityValidator::default();
    let pattern = reentrancy(&validator);
    let safe = "balances[x] = 0;\nmsg.sender.transfer(amt);\n";
    assert!(validator.check_reentrancy(safe, "vault.sol", &pattern).is_empty());

    let exposed = "msg.sender.transfer(amt);\nbalances[x] = 0;\n";
    let issues = validator.check_reentrancy(exposed, "vault.sol", &pattern);
    assert_eq!(issues.len(), 1);
    assert_eq!(issues[0].severity, IssueSeverity::Critical);
    assert_eq!(issues[0].location, "vault.sol:1");
    assert_eq!(issues[0].attack_pattern, "Reentrancy");
    assert_eq!(
        issues[0].description,
        "Potential Reentrancy vulnerability detected. Attacker calls back into contract during \
         execution, modifying state before previous execution completes"
    );
    assert_eq!(
        issues[0].suggested_fix,
        "Apply defensive invariant: state_update_before_external_call"
    );
}

#[test]
fn the_state_update_must_be_within_fifty_lines() {
    let validator = SecurityValidator::new();
    let pattern = reentrancy(&validator);
    let with_gap = |gap: usize| {
        let mut code = String::from("balance = 0;\n");
        for _ in 0..gap {
            code.push_str("noop();\r\n");
        }
        code.push_str("target.call(data);");
        code
    };
    assert!(validator.check_reentrancy(&with_gap(49), "a", &pattern).is_empty());
    let issues = validator.check_reentrancy(&with_gap(50), "a", &pattern);
    assert_eq!(issues.len(), 1);
    assert_eq!(issues[0].location, "a:52");
}

#[test]
fn a_guarded_call_is_passed_over_and_every_kind_of_call_counts() {
    let validator = SecurityValidator::new();
    let pattern = reentrancy(&validator);
    let code = "a.send(1); // nonReentrant\nb.send(1);\nc.call(x);\ntransfer(y);\nplain();";
    let where_: Vec<String> = validator
        .check_reentrancy(code, "f.sol", &pattern)
        .into_iter()
        .map(|i| i.location)
        .collect();
    assert_eq!(where_, vec!["f.sol:2", "f.sol:3", "f.sol:4"]);
    let zeroed = "balances[a] == 0;\nb.send(1);";
    assert!(validator.check_reentrancy(zeroed, "f.sol", &pattern).is_empty());
    let not_zeroed = "balance = 1;\nb.send(1);";
    assert_eq!(validator.check_reentrancy(not_zeroed, "f.sol", &pattern).len(), 1);
}

#[test]
fn other_patterns_are_matched_line_by_line() {
    let validator = SecurityValidator::new();
    let pattern = validator.attack_db().get_pattern("frontrunning").unwrap().clone();
    let code = "ok();\nno_slippage_protection; price_depends_on_order\n\nstate_visible_in_mempool";
    let issues = validator.check_pattern(code, "dex.sol", &pattern);
    let seen: Vec<(String, IssueSeverity)> =
        issues.iter().map(|i| (i.location.clone(), i.severity)).collect();
    assert_eq!(
        seen,
        vec![
            ("dex.sol:2".to_string(), IssueSeverity::High),
            ("dex.sol:2".to_string(), IssueSeverity::High),
            ("dex.sol:4".to_string(), IssueSeverity::High),
        ]
    );
    assert_eq!(issues[0].suggested_fix, "Apply defensive invariant: slippage_limits_enforced");
    assert_eq!(issues[0].attack_pattern, "Frontrunning / MEV Extraction");
}

#[test]
fn severity_follows_the_score() {
    assert_eq!(severity_for(100), IssueSeverity::Critical);
    assert_eq!(severity_for(90), IssueSeverity::Critical);
    assert_eq!(severity_for(89), IssueSeverity::High);
    assert_eq!(severity_for(70), IssueSeverity::High);
    assert_eq!(severity_for(69), IssueSeverity::Medium);
    assert_eq!(severity_for(50), IssueSeverity::Medium);
    assert_eq!(severity_for(49), IssueSeverity::Low);
    assert_eq!(severity_for(0), IssueSeverity::Low);
    assert!(IssueSeverity::Critical > IssueSeverity::High);
    assert!(IssueSeverity::High > IssueSeverity::Medium);
    assert!(IssueSeverity::Medium > IssueSeverity::Low);
    assert_eq!(IssueSeverity::Critical.to_string(), "CRITICAL");
    assert_eq!(IssueSeverity::High.to_string(), "HIGH");
    assert_eq!(IssueSeverity::Medium.to_string(), "MEDIUM");
    assert_eq!(IssueSeverity::Low.to_string(), "LOW");
}

#[test]
fn the_report_buckets_issues_and_scores_them() {
    let validator = SecurityValidator::new();
    // One high issue (flash loan, 8.7), one medium (timestamp, 6.5).
    let code = "no_price_validation\nno_time_bounds_checking\n";
    let report = validator.validate_code(code, "p.sol", "evm").unwrap();
    assert_eq!(report.critical_issues.len(), 0);
    assert_eq!(report.high_issues.len(), 1);
    assert_eq!(report.medium_issues.len(), 1);
    assert_eq!(report.low_issues.len(), 0);
    assert_eq!(report.risk_score, 23);
    assert!(!report.passed);
    assert_eq!(report.high_issues[0].location, "p.sol:1");
    assert_eq!(report.medium_issues[0].location, "p.sol:2");

    let report = validator.validate_code("no_time_bounds_checking", "p.sol", "evm").unwrap();
    assert_eq!(report.risk_score, 8);
    assert!(report.passed);

    let report = validator.validate_code(code, "p.sol", "solana").unwrap();
    assert_eq!(report.risk_score, 0);
    assert!(report.passed);
}

#[test]
fn the_risk_score_is_capped() {
    let validator = SecurityValidator::new();
    let code = "delegatecall(attacker_address)\n".repeat(5);
    let report = validator.validate_code(&code, "p.sol", "evm").unwrap();
    assert_eq!(report.critical_issues.len(), 5);
    assert_eq!(report.risk_score, 100);
}

#[test]
fn issues_come_in_the_order_of_the_pattern_ids() {
    let validator = SecurityValidator::new();
    // Both critical: delegatecall_misuse sorts before reentrancy.
    let code = "x.transfer(1);\ndelegatecall_to_user_input\n";
    let report = validator.validate_code(code, "p.sol", "evm").unwrap();
    let names: Vec<&str> =
        report.critical_issues.iter().map(|i| i.attack_pattern.as_str()).collect();
    assert_eq!(names, vec!["Delegatecall to Untrusted Code", "Reentrancy"]);
}
