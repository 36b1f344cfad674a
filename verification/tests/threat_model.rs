use invar::model::Expression;
use invar::ordmap::OrderedMap;
use invar::threat_model::{
    has_forbidden_prefix, DSLSandbox, InjectionVerifier, SimulationIsolation, StrictModeAnalyzer, TamperDetector,
    ThreatModelConfig, ThreatModelError,
};
use std::collections::hash_map::DefaultHasher;
use std::hash::{Hash, Hasher};

#[test]
fn test_injection_verification() {
    let generated_code = r#"
        fn transfer(from: &mut Account, to: &mut Account, amount: u64) {
            from.balance -= amount;
            to.balance += amount;
            // Invariant: balance >= 0
            // INVAR_HASH: abcd1234
        }
        "#;

    let checks = vec!["balance >= 0".to_string()];
    assert!(InjectionVerifier::verify_coverage(generated_code, &checks).is_ok());
}

#[test]
fn test_injection_verification_missing_check() {
    let generated_code = "fn transfer() { /* no checks */ }";
    let checks = vec!["balance >= 0".to_string()];
    assert!(InjectionVerifier::verify_coverage(generated_code, &checks).is_err());
}

#[test]
fn test_scope_containment() {
    let safe_code = "let x = a + b; assert!(x > 0);";
    assert!(InjectionVerifier::verify_scope_containment(safe_code).is_ok());

    let unsafe_code = "use std::fs; fs::write(\"file.txt\", \"\");";
    assert!(InjectionVerifier::verify_scope_containment(unsafe_code).is_err());
}

#[test]
fn test_tamper_hash_deterministic() {
    let checks1 = vec!["a".to_string(), "b".to_string()];
    let checks2 = vec!["b".to_string(), "a".to_string()];

    let hash1 = TamperDetector::compute_hash(&checks1);
    let hash2 = TamperDetector::compute_hash(&checks2);

    assert_eq!(hash1, hash2);
}

#[test]
fn test_dsl_sandbox_forbidden_variable() {
    let expr = Expression::Var("file_handle".to_string());
    assert!(DSLSandbox::validate_expression(&expr).is_err());
}

#[test]
fn test_dsl_sandbox_allowed_variable() {
    let expr = Expression::Var("balance".to_string());
    assert!(DSLSandbox::validate_expression(&expr).is_ok());
}

#[test]
fn test_dsl_sandbox_forbidden_function() {
    let expr = Expression::FunctionCall { name: "system_call".to_string(), args: vec![] };
    assert!(DSLSandbox::validate_expression(&expr).is_err());
}

#[test]
fn test_dsl_sandbox_allowed_function() {
    let expr = Expression::FunctionCall {
        name: "sum".to_string(),
        args: vec![Expression::Var("balances".to_string())],
    };
    assert!(DSLSandbox::validate_expression(&expr).is_ok());
}

#[test]
fn test_strict_mode_with_uncertainty() {
    let analyzer = StrictModeAnalyzer::new(true);
    let mutations = vec!["balance -= amount".to_string()];
    let warnings = vec!["mutation from function pointer call (uncertain)".to_string()];

    assert!(analyzer.verify_mutation_coverage(&mutations, &warnings).is_err());
}

#[test]
fn test_strict_mode_disabled() {
    let analyzer = StrictModeAnalyzer::new(false);
    let mutations = vec!["balance -= amount".to_string()];
    let warnings = vec!["mutation from function pointer call (uncertain)".to_string()];

    // Strict mode off, so uncertainty is allowed
    assert!(analyzer.verify_mutation_coverage(&mutations, &warnings).is_ok());
}

fn strings(items: &[&str]) -> Vec<String> {
    items.iter().map(|s| s.to_string()).collect()
}

/// The hash as the standard library computes it for strings fed in order.
fn std_hash(sorted: &[&str]) -> String {
    let mut hasher = DefaultHasher::new();
    for s in sorted {
        s.to_string().hash(&mut hasher);
    }
    format!("{:016x}", hasher.finish())
}

#[test]
fn tamper_hash_is_the_hash_of_the_sorted_checks() {
    let hash = TamperDetector::compute_hash(&strings(&["supply > 0", "balance >= 0"]));
    assert_eq!(hash, std_hash(&["balance >= 0", "supply > 0"]));
    assert_ne!(hash, std_hash(&["supply > 0", "balance >= 0"]));
}

#[test]
fn tamper_hash_is_sixteen_lowercase_hex_digits() {
    for checks in [strings(&[]), strings(&["a"]), strings(&["b", "a"]), strings(&["é", "z", "a"])] {
        let hash = TamperDetector::compute_hash(&checks);
        assert_eq!(hash.len(), 16);
        assert!(hash.chars().all(|c| c.is_ascii_digit() || ('a'..='f').contains(&c)));
    }
    assert_eq!(TamperDetector::compute_hash(&strings(&[])), std_hash(&[]));
}

#[test]
fn tamper_hash_sorts_by_bytes() {
    // "Z" (0x5a) sorts before "a" (0x61), and "é" after both.
    let hash = TamperDetector::compute_hash(&strings(&["é", "a", "Z"]));
    assert_eq!(hash, std_hash(&["Z", "a", "é"]));
}

#[test]
fn tamper_hash_counts_repeated_checks() {
    let once = TamperDetector::compute_hash(&strings(&["a"]));
    let twice = TamperDetector::compute_hash(&strings(&["a", "a"]));
    assert_eq!(twice, std_hash(&["a", "a"]));
    assert_ne!(once, twice);
}

#[test]
fn tampering_is_detected_unless_the_hash_line_is_there() {
    let checks = strings(&["b", "a"]);
    let hash = TamperDetector::compute_hash(&checks);
    let good = format!("// Invariant: a\n// INVAR_HASH: {}\n", hash);
    assert_eq!(TamperDetector::verify_tampering(&good, &checks), Ok(()));

    let expected = Err(ThreatModelError::TamperDetected(
        "hash mismatch: generated code does not contain expected INVAR_HASH".to_string(),
    ));
    assert_eq!(TamperDetector::verify_tampering("// INVAR_HASH: 0000", &checks), expected);
    let other = format!("INVAR_HASH: {}", TamperDetector::compute_hash(&strings(&["a"])));
    assert_eq!(TamperDetector::verify_tampering(&other, &checks), expected);
    assert_eq!(TamperDetector::verify_tampering(&format!("INVAR_HASH:{}", hash), &checks), expected);
}

#[test]
fn coverage_names_the_first_missing_check() {
    let code = "// Invariant: a\n// Invariant: c\n";
    assert_eq!(
        InjectionVerifier::verify_coverage(code, &strings(&["a", "b", "c", "d"])),
        Err(ThreatModelError::ReParseVerificationFailed("b".to_string()))
    );
    assert_eq!(InjectionVerifier::verify_coverage(code, &strings(&["c", "a"])), Ok(()));
    assert_eq!(InjectionVerifier::verify_coverage("", &strings(&[])), Ok(()));
}

#[test]
fn scope_containment_names_the_first_token_of_the_table() {
    let found = |t: &str| {
        Err(ThreatModelError::ReParseVerificationFailed(format!(
            "dangerous pattern found in generated code: {}",
            t
        )))
    };
    assert_eq!(InjectionVerifier::verify_scope_containment("x std::net y unsafe {"), found("unsafe"));
    assert_eq!(InjectionVerifier::verify_scope_containment("extern \"C\""), found("extern"));
    assert_eq!(
        InjectionVerifier::verify_scope_containment("use std::process::Command;"),
        found("use std::process")
    );
    assert_eq!(InjectionVerifier::verify_scope_containment("std::fs::read"), found("std::fs"));
    assert_eq!(InjectionVerifier::verify_scope_containment("std::net::TcpStream"), found("std::net"));
    assert_eq!(InjectionVerifier::verify_scope_containment("std::process"), Ok(()));
}

fn escape(message: &str) -> Result<(), ThreatModelError> {
    Err(ThreatModelError::SandboxEscapeDetected(message.to_string()))
}

#[test]
fn sandbox_reports_what_it_refuses() {
    let gt = |e: Expression| Expression::BinaryOp {
        left: Box::new(e),
        op: invar::model::BinaryOp::Gt,
        right: Box::new(Expression::Int(0)),
    };
    assert_eq!(
        DSLSandbox::validate_expression(&gt(Expression::Var("file_handle".to_string()))),
        escape("forbidden variable name: file_handle")
    );
    assert_eq!(
        DSLSandbox::validate_expression(&Expression::FunctionCall {
            name: "system_call".to_string(),
            args: vec![]
        }),
        escape("forbidden function call: system_call")
    );
    assert_eq!(
        DSLSandbox::validate_expression(&Expression::Var("IO_port".to_string())),
        escape("forbidden variable name: IO_port")
    );
    assert_eq!(
        DSLSandbox::validate_expression(&Expression::LayerVar {
            layer: "account".to_string(),
            var: "Unsafe_ptr".to_string()
        }),
        escape("forbidden layer/variable name: account::Unsafe_ptr")
    );
    assert_eq!(
        DSLSandbox::validate_expression(&Expression::PhaseQualifiedVar {
            phase: "extern_x".to_string(),
            layer: "account".to_string(),
            var: "v".to_string()
        }),
        escape("forbidden phase/layer/variable name: extern_x::account::v")
    );
}

#[test]
fn sandbox_walks_arguments_from_left_to_right_after_the_name() {
    let bad = |n: &str| Expression::Var(n.to_string());
    let e = Expression::FunctionCall {
        name: "min".to_string(),
        args: vec![Expression::Var("ok".to_string()), bad("io_a"), bad("file_b")],
    };
    assert_eq!(DSLSandbox::validate_expression(&e), escape("forbidden variable name: io_a"));
    let e = Expression::FunctionCall { name: "exec".to_string(), args: vec![bad("io_a")] };
    assert_eq!(DSLSandbox::validate_expression(&e), escape("forbidden function call: exec"));
    let e = Expression::Tuple(vec![Expression::Boolean(true), bad("unsafe_x")]);
    assert_eq!(DSLSandbox::validate_expression(&e), escape("forbidden variable name: unsafe_x"));
}

#[test]
fn sandbox_accepts_every_allowed_function_and_plain_names() {
    for name in
        ["sum", "len", "min", "max", "abs", "mod", "div", "add", "sub", "mul", "and", "or", "not"]
    {
        let e = Expression::FunctionCall {
            name: name.to_string(),
            args: vec![Expression::Var("io".to_string()), Expression::Var("profile_".to_string())],
        };
        assert_eq!(DSLSandbox::validate_expression(&e), Ok(()));
    }
    assert_eq!(
        DSLSandbox::check_expression_recursive(&Expression::Var("file_x".to_string()), &[]),
        Ok(())
    );
    assert_eq!(
        DSLSandbox::check_expression_recursive(&Expression::Var("Tmp_x".to_string()), &["tmp_"]),
        escape("forbidden variable name: Tmp_x")
    );
}

#[test]
fn validating_twice_gives_the_same_outcome() {
    let good = Expression::Var("balance".to_string());
    let bad = Expression::Var("file_handle".to_string());
    assert_eq!(DSLSandbox::validate_expression(&good), DSLSandbox::validate_expression(&good));
    assert_eq!(DSLSandbox::validate_expression(&bad), DSLSandbox::validate_expression(&bad));
}

#[test]
fn strict_mode_lists_the_warnings() {
    let analyzer = StrictModeAnalyzer::new(true);
    assert_eq!(
        analyzer.verify_mutation_coverage(&[], &strings(&["first", "second"])),
        Err(ThreatModelError::MutationUncertaintyDetected(
            "strict mode detected 2 uncertain mutations: first, second".to_string()
        ))
    );
    assert_eq!(analyzer.verify_mutation_coverage(&strings(&["m"]), &[]), Ok(()));
}

#[test]
fn isolation_names_the_first_variable_in_key_order() {
    let mut vars: OrderedMap<String> = OrderedMap::new();
    vars.insert("zeta".to_string(), "File".to_string());
    vars.insert("alpha".to_string(), "BTreeMap<String, u64>".to_string());
    vars.insert("beta".to_string(), "TcpStream".to_string());
    assert_eq!(
        SimulationIsolation::verify_isolation(&vars, &["BTreeMap", "Vec"]),
        Err(ThreatModelError::IsolationViolationDetected(
            "variable 'beta' has disallowed type 'TcpStream' in simulation context".to_string()
        ))
    );
    assert_eq!(SimulationIsolation::verify_isolation(&vars, &["e", "M"]), Ok(()));
    assert_eq!(SimulationIsolation::verify_isolation(&OrderedMap::new(), &[]), Ok(()));
}

#[test]
fn every_defence_is_on_by_default() {
    let c = ThreatModelConfig::default();
    assert!(c.strict_mode && c.re_parse_verification && c.tamper_detection_enabled);
    assert!(c.dsl_sandboxing_enabled && c.isolation_verification);
}

#[test]
fn threat_errors_read_as_sentences() {
    let m = || "m".to_string();
    assert_eq!(
        ThreatModelError::ReParseVerificationFailed(m()).to_string(),
        "re-parse verification failed: m"
    );
    assert_eq!(ThreatModelError::TamperDetected(m()).to_string(), "macro tampering detected: m");
    assert_eq!(ThreatModelError::SandboxEscapeDetected(m()).to_string(), "DSL sandbox escape: m");
    assert_eq!(
        ThreatModelError::MutationUncertaintyDetected(m()).to_string(),
        "mutation uncertainty in strict mode: m"
    );
    assert_eq!(
        ThreatModelError::IsolationViolationDetected(m()).to_string(),
        "simulation isolation violation: m"
    );
    assert_eq!(ThreatModelError::Custom(m()).to_string(), "m");
}

#[test]
fn a_forbidden_prefix_is_looked_for_at_the_start_only() {
    let prefixes = ["file", "io_"];
    assert!(has_forbidden_prefix("file_handle", &prefixes));
    assert!(has_forbidden_prefix("io_", &prefixes));
    assert!(has_forbidden_prefix("file", &prefixes));
    assert!(!has_forbidden_prefix("profile", &prefixes));
    assert!(!has_forbidden_prefix("fil", &prefixes));
    assert!(!has_forbidden_prefix("", &prefixes));
    assert!(!has_forbidden_prefix("file", &[]));
    assert!(has_forbidden_prefix("anything", &[""]));
    assert!(!has_forbidden_prefix("File", &prefixes));
}
