use invar::evaluator::{EvaluationError, Evaluator, ExecutionContext, Value};
use invar::model::{Expression, ProgramModel, StateVar};
use invar::parser::parse_invariant;
use invar::security_validator::SecurityValidator;
use invar::threat_model::{DSLSandbox, TamperDetector, ThreatModelError};
use invar::type_checker::TypeChecker;
use invar::types::{Type, TypeError};

fn condition(text: &str) -> Expression {
    parse_invariant(&format!("invariant Scenario {{ {} }}", text)).unwrap().expression
}

fn checker(vars: &[(&str, &str)]) -> TypeChecker {
    let mut program = ProgramModel::new("P".to_string(), "evm".to_string(), "p.sol".to_string());
    for (name, ty) in vars {
        program.add_state_var(StateVar {
            name: name.to_string(),
            declared_type: ty.to_string(),
            is_mutable: true,
            visibility: None,
        });
    }
    let mut checker = TypeChecker::new();
    checker.load_from_program(&program);
    checker
}

fn evaluator(vars: Vec<(&str, Value)>) -> Evaluator {
    let mut ctx = ExecutionContext::new();
    for (name, value) in vars {
        ctx.set_state(name.to_string(), value);
    }
    Evaluator::new(ctx)
}

#[test]
fn simple_inequality() {
    let inv = parse_invariant("invariant BalancePositive { balance >= 0 }").unwrap();
    assert_eq!(inv.name, "BalancePositive");
    let typed = checker(&[("balance", "U64")]).check_expr(&inv.expression).unwrap();
    assert_eq!(typed.ty, Type::Bool);
    assert_eq!(
        evaluator(vec![("balance", Value::U64(100))]).evaluate(&inv.expression),
        Ok(Value::Bool(true))
    );
    assert_eq!(
        checker(&[("balance", "Bool")]).check_expr(&inv.expression).map(|t| t.ty),
        Err(TypeError::IncomparableTypes { left: Type::Bool, right: Type::U64 })
    );
}

#[test]
fn short_circuit_shields_the_undefined() {
    let shielded = condition("false && undef_var");
    assert_eq!(
        checker(&[]).check_expr(&shielded).map(|t| t.ty),
        Err(TypeError::UndefinedVariable("undef_var".to_string()))
    );
    assert_eq!(
        checker(&[("undef_var", "bool")]).check_expr(&shielded).map(|t| t.ty),
        Ok(Type::Bool)
    );
    assert_eq!(evaluator(vec![]).evaluate(&shielded), Ok(Value::Bool(false)));
    assert_eq!(
        evaluator(vec![]).evaluate(&condition("true && undef_var")),
        Err(EvaluationError::UndefinedVariable("undef_var".to_string()))
    );
}

#[test]
fn layer_qualified_resolution() {
    let ev = evaluator(vec![("account::balance", Value::U64(50))]);
    assert_eq!(ev.evaluate(&condition("account::balance > 0")), Ok(Value::Bool(true)));
    assert_eq!(
        ev.evaluate(&condition("bundler::balance > 0")),
        Err(EvaluationError::UndefinedVariable("bundler::balance".to_string()))
    );
}

#[test]
fn tamper_hash() {
    let ba = vec!["b".to_string(), "a".to_string()];
    let ab = vec!["a".to_string(), "b".to_string()];
    let hash = TamperDetector::compute_hash(&ba);
    assert_eq!(hash, TamperDetector::compute_hash(&ab));
    assert_eq!(hash.len(), 16);
    assert!(hash.chars().all(|c| matches!(c, '0'..='9' | 'a'..='f')));
    assert!(TamperDetector::verify_tampering(&format!("x\nINVAR_HASH: {}\ny", hash), &ab).is_ok());
    assert!(TamperDetector::verify_tampering(&format!("INVAR_HASH: {}", &hash[1..]), &ab).is_err());
    assert!(TamperDetector::verify_tampering("", &ab).is_err());
}

#[test]
fn sandbox_reject() {
    assert_eq!(
        DSLSandbox::validate_expression(&condition("file_handle > 0")),
        Err(ThreatModelError::SandboxEscapeDetected(
            "forbidden variable name: file_handle".to_string()
        ))
    );
    assert_eq!(
        DSLSandbox::validate_expression(&condition("system_call()")),
        Err(ThreatModelError::SandboxEscapeDetected(
            "forbidden function call: system_call".to_string()
        ))
    );
    assert_eq!(DSLSandbox::validate_expression(&condition("sum(balances)")), Ok(()));
}

#[test]
fn reentrancy_pattern() {
    let validator = SecurityValidator::new();
    let safe = "balances[x] = 0;\nmsg.sender.transfer(amt);";
    let report = validator.validate_code(safe, "vault.sol", "evm").unwrap();
    assert!(report.critical_issues.iter().all(|i| i.attack_pattern != "Reentrancy"));

    let exposed = "msg.sender.transfer(amt);\nbalances[x] = 0;";
    let report = validator.validate_code(exposed, "vault.sol", "evm").unwrap();
    let found: Vec<&str> = report
        .critical_issues
        .iter()
        .filter(|i| i.attack_pattern == "Reentrancy")
        .map(|i| i.location.as_str())
        .collect();
    assert_eq!(found, vec!["vault.sol:1"]);
    assert!(!report.passed);
}

#[test]
fn a_well_typed_expression_evaluates_without_a_type_error() {
    let checker = checker(&[("a", "u64"), ("b", "i64"), ("w", "address"), ("f", "bool")]);
    let ev = evaluator(vec![
        ("a", Value::U64(3)),
        ("b", Value::I64(-3)),
        ("w", Value::Address("0xab".to_string())),
        ("f", Value::Bool(false)),
    ]);
    for text in [
        "a >= 0",
        "b < -1 || f",
        "w == w && !f",
        "!(a == 3) || b != 0",
        "f != f",
        "missing > 0",
        "a < b",
        "f && a",
        "w > w",
    ] {
        let e = condition(text);
        if checker.check_expr(&e).is_ok() {
            assert_ne!(ev.evaluate(&e), Err(EvaluationError::TypeError), "{}", text);
        }
    }
}
