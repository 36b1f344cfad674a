use invar::account_abstraction::{AAContext, AALayer, ExecutionPhase};
use serde_json::Value;
use std::str::FromStr;

#[test]
fn test_execution_phase_from_str() {
    assert_eq!(ExecutionPhase::from_str("validation"), Ok(ExecutionPhase::Validation));
    assert_eq!(ExecutionPhase::from_str("execution"), Ok(ExecutionPhase::Execution));
    assert_eq!(ExecutionPhase::from_str("settlement"), Ok(ExecutionPhase::Settlement));
    assert_eq!(ExecutionPhase::from_str("invalid"), Err(()));
}

#[test]
fn test_aa_layer_from_str() {
    assert_eq!(AALayer::from_str("bundler"), Ok(AALayer::Bundler));
    assert_eq!(AALayer::from_str("account"), Ok(AALayer::Account));
    assert_eq!(AALayer::from_str("paymaster"), Ok(AALayer::Paymaster));
    assert_eq!(AALayer::from_str("protocol"), Ok(AALayer::Protocol));
    assert_eq!(AALayer::from_str("invalid"), Err(()));
}

#[test]
fn test_aa_context_layer_vars() {
    let mut ctx = AAContext::default();
    ctx.set_layer_var("bundler".to_string(), "nonce".to_string(), Value::from(42));

    let value = ctx.get_layer_var("bundler", "nonce");
    assert_eq!(value, Some(&Value::from(42)));
}

#[test]
fn test_phase_tracking() {
    let mut ctx = AAContext::default();
    assert_eq!(ctx.get_phase(), None);

    ctx.set_phase(ExecutionPhase::Validation);
    assert!(ctx.in_phase(ExecutionPhase::Validation));
    assert!(!ctx.in_phase(ExecutionPhase::Execution));

    ctx.set_layer_var("account".to_string(), "balance".to_string(), Value::from(1000));
    ctx.snapshot_phase(ExecutionPhase::Validation);

    ctx.set_phase(ExecutionPhase::Execution);
    ctx.set_layer_var("account".to_string(), "balance".to_string(), Value::from(500));

    let pre_exec_balance =
        ctx.get_layer_var_at_phase(ExecutionPhase::Validation, "account", "balance");
    assert_eq!(pre_exec_balance, Some(&Value::from(1000)));
}

#[test]
fn phases_and_layers_have_their_names() {
    for (phase, name) in [
        (ExecutionPhase::Validation, "validation"),
        (ExecutionPhase::Execution, "execution"),
        (ExecutionPhase::Settlement, "settlement"),
    ] {
        assert_eq!(phase.as_str(), name);
        assert_eq!(phase.to_string(), name);
        assert_eq!(ExecutionPhase::parse(name), Some(phase));
    }
    for (layer, name) in [
        (AALayer::Bundler, "bundler"),
        (AALayer::Account, "account"),
        (AALayer::Paymaster, "paymaster"),
        (AALayer::Protocol, "protocol"),
        (AALayer::EntryPoint, "entrypoint"),
    ] {
        assert_eq!(layer.as_str(), name);
        assert_eq!(layer.to_string(), name);
        assert_eq!(AALayer::from_str(name), Ok(layer));
    }
    assert_eq!(ExecutionPhase::parse("Validation"), None);
    assert_eq!(AALayer::parse("entry_point"), None);
    assert_eq!(AALayer::parse(""), None);
}

#[test]
fn a_snapshot_does_not_see_later_changes() {
    let mut ctx: AAContext<u64> = AAContext::default();
    ctx.set_layer_var("account".to_string(), "balance".to_string(), 10);
    ctx.set_layer_var("bundler".to_string(), "nonce".to_string(), 1);
    ctx.snapshot_phase(ExecutionPhase::Validation);
    ctx.set_layer_var("account".to_string(), "balance".to_string(), 7);
    ctx.set_layer_var("account".to_string(), "fresh".to_string(), 3);
    ctx.set_layer_var("paymaster".to_string(), "deposit".to_string(), 5);

    let at = |c: &AAContext<u64>, p, l: &str, v: &str| c.get_layer_var_at_phase(p, l, v).copied();
    assert_eq!(at(&ctx, ExecutionPhase::Validation, "account", "balance"), Some(10));
    assert_eq!(at(&ctx, ExecutionPhase::Validation, "bundler", "nonce"), Some(1));
    assert_eq!(at(&ctx, ExecutionPhase::Validation, "account", "fresh"), None);
    assert_eq!(at(&ctx, ExecutionPhase::Validation, "paymaster", "deposit"), None);
    assert_eq!(at(&ctx, ExecutionPhase::Execution, "account", "balance"), None);
    assert_eq!(ctx.get_layer_var("account", "balance"), Some(&7));
    assert_eq!(ctx.get_layer_var("account", "missing"), None);
    assert_eq!(ctx.get_layer_var("missing", "balance"), None);

    ctx.snapshot_phase(ExecutionPhase::Execution);
    ctx.snapshot_phase(ExecutionPhase::Validation);
    assert_eq!(at(&ctx, ExecutionPhase::Validation, "account", "balance"), Some(7));
    assert_eq!(at(&ctx, ExecutionPhase::Execution, "paymaster", "deposit"), Some(5));
    assert!(ctx.get_phase_snapshot(ExecutionPhase::Settlement).is_none());
    let snapshot = ctx.get_phase_snapshot(ExecutionPhase::Execution).unwrap();
    assert_eq!(snapshot.len(), 3);
    assert_eq!(snapshot.key_at(0), "account");
}
