#[test]
fn test_security_no_silent_invariant_skip() {
    // Invariants must never be silently disabled
    let config = r#"
[analysis]
invariants_enabled = false
"#;

    assert!(config.contains("invariants_enabled"));
}

#[test]
fn test_security_type_confusion_prevented() {
    // Type system must prevent mixing types
    let dsl = r#"
invariant: type_safety
forall x: u64 in items:
    x > "string"  // Type error: can't compare u64 > string
"#;

    assert!(dsl.contains("u64"));
    assert!(dsl.contains("string"));
}

#[test]
fn test_security_overflow_detection_invariant() {
    // Overflow behavior must be explicit or detected
    let dsl = r#"
invariant: overflow_safety
context {
    state: SystemState
}

// Sum must not exceed MAX_safe_value
sum(state.balances) <= 18446744073709551615
"#;

    assert!(dsl.contains("18446744073709551615"));
}

#[test]
fn test_security_injection_prevention() {
    let malicious_input = r#"; delete all invariants; //"#;

    let dsl = format!("invariant: test\n{}", malicious_input);
    assert!(dsl.contains("delete"), "String content should be preserved");
}

#[test]
fn test_security_no_arbitrary_code_execution() {
    let dsl = r#"
invariant: no_code_exec
expression: "system('rm -rf /')"  // Should not execute
"#;

    assert!(dsl.contains("system"));
}

#[test]
fn test_security_exit_code_not_masked() {
    assert_eq!(0, 0, "Success case should have code 0");
}

#[test]
fn test_security_feature_flags_cannot_disable_enforcement() {
    let config = r#"
[features]
skip_invariants = true  // Should not be allowed

[analysis]
enforce = true  // Must override any feature flag
"#;

    assert!(config.contains("skip_invariants"));
    assert!(config.contains("enforce"));
}

#[test]
fn test_security_release_build_includes_checks() {
    let value = 42u64;
    assert!(value < u64::MAX, "Even in release, bounds must be checked");
}

#[test]
fn test_security_deterministic_output() {
    let input = r#"
invariant: deterministic_test
forall x in [1, 2, 3, 4, 5]:
    x > 0
"#;

    let output1 = format!("{:?}", input.len());
    let output2 = format!("{:?}", input.len());

    assert_eq!(output1, output2, "Output must be deterministic");
}

#[test]
fn test_security_no_uninitialized_memory() {
    let safe_vec: Vec<i32> = Vec::with_capacity(10);
    assert_eq!(safe_vec.len(), 0, "Vector must be initialized to zero length");
}

#[test]
fn test_security_array_bounds_enforcement() {
    let arr = vec![1, 2, 3];

    assert_eq!(arr[0], 1);
}

#[test]
fn test_security_null_pointer_prevention() {
    let safe_option: Option<i32> = Some(42);

    match safe_option {
        Some(val) => assert_eq!(val, 42),
        None => panic!("Should not reach None case"),
    }

    let none_option: Option<i32> = None;
    let result = none_option.unwrap_or(0);
    assert_eq!(result, 0);
}

#[test]
fn test_security_numeric_overflow_caught() {
    let result = 255u8.checked_add(1);

    assert_eq!(result, None, "Overflow must be detected");
}

#[test]
fn test_security_thread_safety() {
    let data = std::sync::Arc::new(std::sync::Mutex::new(42));
    let data_clone = data.clone();

    let guard = data_clone.lock().unwrap();
    assert_eq!(*guard, 42);
    drop(guard);
}

#[test]
fn test_security_audit_clean_approach() {
    let result: Result<i32, String> = Err("Explicit error".to_string());
    match result {
        Ok(_) => unreachable!(),
        Err(e) => assert_eq!(e, "Explicit error"),
    }
}

#[test]
fn library_is_linked() {
    assert_eq!(invar::types::Type::Bool.name(), "bool");
}
