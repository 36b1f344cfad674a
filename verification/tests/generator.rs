use invar::generator::{
    compute_check_hash, generate_for, inject_checks, parse_invariant_checks,
    validate_function_signature, CodeGenerator, Dialect, EvmGenerator, MoveGenerator, Parameter,
    SolanaGenerator,
};
use invar::model::{BinaryOp, Expression, FunctionModel, Invariant, LogicalOp, ProgramModel};
use invar::ordmap::OrderedSet;
use invar::threat_model::TamperDetector;

#[test]
fn test_check_hash_deterministic() {
    let checks1 = vec!["balance >= 0".to_string(), "supply > 0".to_string()];
    let checks2 = vec!["supply > 0".to_string(), "balance >= 0".to_string()];

    // Different order should produce same hash
    let hash1 = compute_check_hash(&checks1);
    let hash2 = compute_check_hash(&checks2);

    assert_eq!(hash1, hash2);
}

#[test]
fn test_parse_invariant_checks() {
    let args = r#""balance >= 0", "supply > 0""#;
    let checks = parse_invariant_checks(args);

    assert_eq!(checks.len(), 2);
    assert_eq!(checks[0], "balance >= 0");
    assert_eq!(checks[1], "supply > 0");
}

#[test]
fn the_check_hash_is_the_tamper_hash() {
    let checks = vec!["b".to_string(), "a".to_string()];
    assert_eq!(compute_check_hash(&checks), TamperDetector::compute_hash(&checks));
}

#[test]
fn checks_are_trimmed_unquoted_and_kept_if_not_empty() {
    assert_eq!(parse_invariant_checks(""), Vec::<String>::new());
    assert_eq!(parse_invariant_checks(" , ,\"\", '' ,"), Vec::<String>::new());
    assert_eq!(parse_invariant_checks("a"), vec!["a"]);
    assert_eq!(parse_invariant_checks("  a b \t,\n c  "), vec!["a b", "c"]);
    assert_eq!(parse_invariant_checks("\"\"x\"\", 'y', \"'z'\""), vec!["x", "y", "z"]);
    assert_eq!(parse_invariant_checks("'\"q\"'"), vec!["\"q\""]);
    assert_eq!(parse_invariant_checks("\" padded \""), vec![" padded "]);
    assert_eq!(parse_invariant_checks("\u{2003}wide\u{a0}"), vec!["wide"]);
    assert_eq!(parse_invariant_checks("a,,b"), vec!["a", "b"]);
}

fn make(name: &str, expression: Expression) -> Invariant {
    Invariant {
        name: name.to_string(),
        description: None,
        expression,
        severity: "medium".to_string(),
        category: "general".to_string(),
        is_always_true: true,
        layers: vec![],
        phases: vec![],
    }
}

fn program(functions: usize) -> ProgramModel {
    let mut p = ProgramModel::new("Vault".to_string(), "evm".to_string(), "vault.sol".to_string());
    for i in 0..functions {
        p.add_function(FunctionModel {
            name: format!("f{}", i),
            parameters: vec![],
            return_type: None,
            mutates: OrderedSet::new(),
            reads: OrderedSet::new(),
            is_entry_point: true,
            is_pure: false,
        });
    }
    p
}

fn sample() -> Vec<Invariant> {
    vec![
        make(
            "positive",
            Expression::BinaryOp {
                left: Box::new(Expression::Var("balance".to_string())),
                op: BinaryOp::Gte,
                right: Box::new(Expression::Int(0)),
            },
        ),
        make("flag", Expression::Boolean(true)),
    ]
}

#[test]
fn each_dialect_writes_its_own_assertions() {
    let invs = sample();
    let evm = EvmGenerator.generate(&program(1), &invs).unwrap();
    assert_eq!(
        evm.assertions,
        vec![
            "require((balance >= 0), \"Invariant: positive\");",
            "require(true, \"Invariant: flag\");"
        ]
    );
    assert_eq!(evm.code, "// Generated Solidity invariant checks for Vault\n// 2 checks\n");
    assert_eq!(evm.tests, None);
    assert_eq!(evm.coverage_percent, 0);

    let mv = MoveGenerator.generate(&program(1), &invs).unwrap();
    assert_eq!(
        mv.assertions,
        vec!["assert!((balance >= 0), E_INVARIANT_POSITIVE);", "assert!(true, E_INVARIANT_FLAG);"]
    );
    assert_eq!(mv.code, "// Generated Move invariant checks for Vault\n// 2 assertions\n");
    assert_eq!(mv.coverage_percent, 0);

    let sol = SolanaGenerator.generate(&program(1), &invs).unwrap();
    assert_eq!(
        sol.assertions,
        vec![
            "assert!((balance >= 0), \"Invariant positive violated\");",
            "assert!(true, \"Invariant flag violated\");"
        ]
    );
    assert_eq!(sol.code, "// Generated invariant checks for Vault\n// 2 invariants injected\n");
    assert_eq!(sol.coverage_percent, 2);

    assert_eq!(EvmGenerator.chain(), "evm");
    assert_eq!(MoveGenerator.chain(), "move");
    assert_eq!(SolanaGenerator.chain(), "solana");
}

#[test]
fn solana_coverage_needs_functions_and_is_capped() {
    let invs = sample();
    assert_eq!(generate_for(Dialect::Solana, &program(0), &invs).coverage_percent, 0);
    let many: Vec<Invariant> =
        (0..150).map(|_| make("x", Expression::Boolean(true))).collect();
    assert_eq!(generate_for(Dialect::Solana, &program(2), &many).coverage_percent, 100);
    let wrapped: Vec<Invariant> =
        (0..260).map(|_| make("x", Expression::Boolean(true))).collect();
    assert_eq!(generate_for(Dialect::Solana, &program(2), &wrapped).coverage_percent, 4);
    assert_eq!(generate_for(Dialect::Evm, &program(2), &[]).assertions.len(), 0);
}

#[test]
fn expressions_are_written_out() {
    let v = |n: &str| Expression::Var(n.to_string());
    let cases: Vec<(Expression, &str)> = vec![
        (Expression::Boolean(false), "false"),
        (Expression::Int(i128::MIN), "-170141183460469231731687303715884105728"),
        (Expression::Int(i128::MAX), "170141183460469231731687303715884105727"),
        (Expression::Int(0), "0"),
        (
            Expression::LayerVar { layer: "account".to_string(), var: "nonce".to_string() },
            "account::nonce",
        ),
        (
            Expression::PhaseQualifiedVar {
                phase: "validation".to_string(),
                layer: "account".to_string(),
                var: "nonce".to_string(),
            },
            "validation::account::nonce",
        ),
        (
            Expression::PhaseConstraint {
                phase: "execution".to_string(),
                constraint: Box::new(v("ok")),
            },
            "(ok @ execution)",
        ),
        (
            Expression::CrossPhaseRelation {
                phase1: "validation".to_string(),
                expr1: Box::new(v("a")),
                phase2: "settlement".to_string(),
                expr2: Box::new(v("b")),
                op: BinaryOp::Lte,
            },
            "(a[validation] <= b[settlement])",
        ),
        (
            Expression::Logical {
                left: Box::new(Expression::Not(Box::new(v("a")))),
                op: LogicalOp::Or,
                right: Box::new(Expression::BinaryOp {
                    left: Box::new(v("b")),
                    op: BinaryOp::Neq,
                    right: Box::new(Expression::Int(-1)),
                }),
            },
            "(!(a) || (b != -1))",
        ),
        (
            Expression::FunctionCall {
                name: "min".to_string(),
                args: vec![v("a"), Expression::Int(2), Expression::Tuple(vec![])],
            },
            "min(a, 2, ())",
        ),
        (Expression::FunctionCall { name: "now".to_string(), args: vec![] }, "now()"),
        (Expression::Tuple(vec![v("a")]), "(a)"),
        (Expression::Tuple(vec![v("a"), v("b")]), "(a, b)"),
    ];
    for (e, text) in cases {
        assert_eq!(e.to_string(), text);
    }
    for (op, text) in [
        (BinaryOp::Eq, "=="),
        (BinaryOp::Neq, "!="),
        (BinaryOp::Lt, "<"),
        (BinaryOp::Gt, ">"),
        (BinaryOp::Lte, "<="),
        (BinaryOp::Gte, ">="),
    ] {
        assert_eq!(op.to_string(), text);
    }
    assert_eq!(LogicalOp::And.to_string(), "&&");
    assert_eq!(LogicalOp::Or.to_string(), "||");
}

#[test]
fn a_copy_of_an_expression_equals_it() {
    let e = Expression::FunctionCall {
        name: "f".to_string(),
        args: vec![
            Expression::Tuple(vec![Expression::Int(3), Expression::Var("x".to_string())]),
            Expression::Not(Box::new(Expression::Boolean(true))),
        ],
    };
    assert_eq!(e.clone(), e);
    assert_eq!(e.deep_copy(), e);
}

#[test]
fn a_handler_needs_mutable_state_and_no_receiver() {
    let named = |n: &str, mutable| Parameter::Named { name: n.to_string(), mutable };
    assert_eq!(
        validate_function_signature(&[
            named("from", true),
            Parameter::Pattern,
            named("amount", false),
            named("to", true)
        ]),
        Ok(vec!["from".to_string(), "to".to_string()])
    );
    assert_eq!(
        validate_function_signature(&[named("from", true), Parameter::Receiver]),
        Err("Invariant-enforced functions cannot have &self/&mut self".to_string())
    );
    assert_eq!(
        validate_function_signature(&[Parameter::Receiver]),
        Err("Invariant-enforced functions cannot have &self/&mut self".to_string())
    );
    let no_state = Err("Function must have at least one &mut parameter for state".to_string());
    assert_eq!(validate_function_signature(&[]), no_state);
    assert_eq!(validate_function_signature(&[named("x", false), Parameter::Pattern]), no_state);

    assert_eq!(inject_checks(vec![1, 2, 3], vec![7, 8]), vec![1, 2, 7, 8]);
    assert_eq!(inject_checks(vec![], vec![7, 8]), vec![7, 8]);
    assert_eq!(inject_checks(vec![1], vec![]), Vec::<i32>::new());
}
