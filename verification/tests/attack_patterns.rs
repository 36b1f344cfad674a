use invar::attack_patterns::AttackPatternDB;

#[test]
fn test_attack_db_creation() {
    let db = AttackPatternDB::new();
    assert_eq!(db.all_patterns().len(), 8);
}

#[test]
fn test_get_pattern() {
    let db = AttackPatternDB::new();
    let pattern = db.get_pattern("reentrancy").unwrap();
    assert_eq!(pattern.name, "Reentrancy");
    assert_eq!(pattern.year, 2016);
}

#[test]
fn test_patterns_for_chain() {
    let db = AttackPatternDB::new();
    let evm_patterns = db.patterns_for_chain("evm");
    assert!(!evm_patterns.is_empty());

    let solana_patterns = db.patterns_for_chain("solana");
    assert!(solana_patterns.iter().any(|p| p.id == "access_control_bypass"));
}

#[test]
fn test_code_vulnerability_check() {
    let db = AttackPatternDB::new();
    let vulnerable_code = "transfer_funds(); /* state update after */";
    let issues = db.check_code(vulnerable_code, "reentrancy");
    assert!(!issues.is_empty());
}

#[test]
fn test_cvss_scores() {
    let db = AttackPatternDB::new();
    for pattern in db.all_patterns() {
        assert!(pattern.cvss_tenths > 0 && pattern.cvss_tenths <= 100);
    }
}

#[test]
fn patterns_are_walked_in_the_order_of_their_ids() {
    let db = AttackPatternDB::default();
    let ids: Vec<&str> = db.all_patterns().iter().map(|p| p.id.as_str()).collect();
    assert_eq!(
        ids,
        vec![
            "access_control_bypass",
            "delegatecall_misuse",
            "flash_loan",
            "frontrunning",
            "integer_overflow",
            "reentrancy",
            "timestamp_dependence",
            "type_confusion",
        ]
    );
    let scores: Vec<u32> = db.all_patterns().iter().map(|p| p.cvss_tenths).collect();
    assert_eq!(scores, vec![99, 98, 87, 75, 85, 98, 65, 72]);
}

#[test]
fn patterns_are_filtered_by_chain() {
    let db = AttackPatternDB::new();
    let ids = |chain: &str| -> Vec<String> {
        db.patterns_for_chain(chain).iter().map(|p| p.id.clone()).collect()
    };
    assert_eq!(ids("solana"), vec!["access_control_bypass"]);
    assert_eq!(ids("move"), vec!["access_control_bypass", "integer_overflow"]);
    assert_eq!(ids("evm").len(), 8);
    assert!(ids("bitcoin").is_empty());
    assert!(ids("EVM").is_empty());
}

#[test]
fn a_pattern_carries_its_catalogue_entry() {
    let db = AttackPatternDB::new();
    let p = db.get_pattern("integer_overflow").unwrap();
    assert_eq!(p.id, "integer_overflow");
    assert_eq!(p.name, "Integer Overflow/Underflow");
    assert_eq!(
        p.description,
        "Arithmetic operations exceed max/min bounds, wrapping to opposite extreme"
    );
    assert_eq!(p.year, 2018);
    assert_eq!(
        p.incidents,
        vec!["BEC Token (2018) - $7.6M frozen", "BeautyChain (2018) - batch transfer bug"]
    );
    assert_eq!(
        p.vulnerable_patterns,
        vec![
            "unchecked_addition",
            "unchecked_subtraction",
            "balance + amount without overflow check"
        ]
    );
    assert_eq!(p.defensive_invariants.len(), 4);
    assert_eq!(p.affected_chains, vec!["evm", "move"]);
    assert_eq!(p.cvss_tenths, 85);
    assert!(db.get_pattern("unknown").is_none());
    assert!(db.get_pattern("Reentrancy").is_none());
}

#[test]
fn check_code_lists_the_patterns_found_in_their_order() {
    let db = AttackPatternDB::new();
    let code = "x.delegatecall(y); payable(msg.sender).transfer(amount)";
    assert_eq!(
        db.check_code(code, "reentrancy"),
        vec!["transfer(amount)", "delegatecall", "payable(msg.sender).transfer"]
    );
    assert!(db.check_code(code, "flash_loan").is_empty());
    assert!(db.check_code(code, "no_such_attack").is_empty());
    assert!(db.check_code("", "reentrancy").is_empty());
}
