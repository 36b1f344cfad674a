use invar::model::{BinaryOp, Expression, LogicalOp, ProgramModel, StateVar};
use invar::type_checker::{type_of_lowercase, FunctionSignature, TypeChecker};
use invar::types::{Type, TypeError};

#[test]
fn test_register_state_var() {
    let mut checker = TypeChecker::new();
    checker.register_state_var("balance".to_string(), Type::U64);

    let expr = Expression::Var("balance".to_string());
    let result = checker.check_expr(&expr);
    assert!(result.is_ok());
    assert_eq!(result.unwrap().ty, Type::U64);
}

#[test]
fn test_undefined_variable() {
    let checker = TypeChecker::new();
    let expr = Expression::Var("unknown".to_string());
    let result = checker.check_expr(&expr);

    assert!(result.is_err());
    match result {
        Err(TypeError::UndefinedVariable(name)) => assert_eq!(name, "unknown"),
        _ => panic!("expected UndefinedVariable error"),
    }
}

#[test]
fn test_type_mismatch_comparison() {
    let mut checker = TypeChecker::new();
    checker.register_state_var("flag".to_string(), Type::Bool);
    checker.register_state_var("amount".to_string(), Type::U64);

    let expr = Expression::BinaryOp {
        left: Box::new(Expression::Var("flag".to_string())),
        op: BinaryOp::Eq,
        right: Box::new(Expression::Var("amount".to_string())),
    };

    let result = checker.check_expr(&expr);
    assert!(result.is_err());
}

#[test]
fn test_logical_requires_bool() {
    let mut checker = TypeChecker::new();
    checker.register_state_var("amount".to_string(), Type::U64);

    let expr = Expression::Logical {
        left: Box::new(Expression::Var("amount".to_string())),
        op: LogicalOp::And,
        right: Box::new(Expression::Boolean(true)),
    };

    let result = checker.check_expr(&expr);
    assert!(result.is_err());
}

#[test]
fn test_type_names() {
    assert_eq!(Type::Bool.name(), "bool");
    assert_eq!(Type::U64.name(), "u64");
    assert_eq!(Type::Address.name(), "address");
}

#[test]
fn test_numeric_types() {
    assert!(Type::U64.is_numeric());
    assert!(Type::U128.is_numeric());
    assert!(Type::I64.is_numeric());
    assert!(!Type::Bool.is_numeric());
    assert!(!Type::Address.is_numeric());
}

#[test]
fn test_type_error_display() {
    let err = TypeError::UndefinedVariable("x".to_string());
    assert_eq!(err.to_string(), "undefined variable 'x'");

    let err = TypeError::BinaryOpTypeMismatch {
        left: Type::U64,
        op: "+".to_string(),
        right: Type::Bool,
    };
    assert!(err.to_string().contains("type mismatch"));
}

fn var(name: &str) -> Expression {
    Expression::Var(name.to_string())
}

fn binary(l: Expression, op: BinaryOp, r: Expression) -> Expression {
    Expression::BinaryOp { left: Box::new(l), op, right: Box::new(r) }
}

fn program_with(vars: &[(&str, &str)]) -> ProgramModel {
    let mut p = ProgramModel::new("P".to_string(), "evm".to_string(), "p.sol".to_string());
    for (name, ty) in vars {
        p.add_state_var(StateVar {
            name: name.to_string(),
            declared_type: ty.to_string(),
            is_mutable: true,
            visibility: None,
        });
    }
    p
}

fn infer(checker: &TypeChecker, e: &Expression) -> Result<Type, TypeError> {
    checker.check_expr(e).map(|t| t.ty)
}

#[test]
fn integer_literals_are_typed_by_their_value() {
    let c = TypeChecker::new();
    assert_eq!(infer(&c, &Expression::Int(-1)), Ok(Type::I64));
    assert_eq!(infer(&c, &Expression::Int(0)), Ok(Type::U64));
    assert_eq!(infer(&c, &Expression::Int(u64::MAX as i128)), Ok(Type::U64));
    assert_eq!(infer(&c, &Expression::Int(u64::MAX as i128 + 1)), Ok(Type::U128));
    assert_eq!(infer(&c, &Expression::Int(i128::MIN)), Ok(Type::I64));
    assert_eq!(infer(&c, &Expression::Boolean(false)), Ok(Type::Bool));
}

#[test]
fn empty_tuple_is_typed_bool_and_a_tuple_as_its_first_item() {
    let c = TypeChecker::new();
    assert_eq!(infer(&c, &Expression::Tuple(vec![])), Ok(Type::Bool));
    assert_eq!(
        infer(&c, &Expression::Tuple(vec![Expression::Int(1), var("nowhere")])),
        Ok(Type::U64)
    );
}

#[test]
fn balance_at_least_zero_checks_against_u64_and_not_against_bool() {
    let e = binary(var("balance"), BinaryOp::Gte, Expression::Int(0));

    let mut c = TypeChecker::new();
    c.load_from_program(&program_with(&[("balance", "U64")]));
    assert_eq!(infer(&c, &e), Ok(Type::Bool));

    let mut c = TypeChecker::new();
    c.load_from_program(&program_with(&[("balance", "Bool")]));
    assert_eq!(
        infer(&c, &e),
        Err(TypeError::IncomparableTypes { left: Type::Bool, right: Type::U64 })
    );
}

#[test]
fn type_names_are_matched_whatever_their_case() {
    let c = TypeChecker::new();
    let cases = [
        ("bool", Type::Bool),
        ("Boolean", Type::Bool),
        ("U64", Type::U64),
        ("uint64", Type::U64),
        ("u128", Type::U128),
        ("UINT128", Type::U128),
        ("i64", Type::I64),
        ("Int64", Type::I64),
        ("ADDRESS", Type::Address),
        ("uint256", Type::U64),
        ("struct", Type::U64),
        ("", Type::U64),
        (" bool", Type::U64),
    ];
    for (name, expected) in cases {
        assert_eq!(c.infer_type_from_string(name), expected, "{}", name);
    }
}

#[test]
fn equality_needs_equal_types_and_order_needs_equal_numeric_types() {
    let mut c = TypeChecker::new();
    c.register_state_var("a".to_string(), Type::U64);
    c.register_state_var("b".to_string(), Type::U128);
    c.register_state_var("w".to_string(), Type::Address);
    c.register_state_var("f".to_string(), Type::Bool);

    assert_eq!(infer(&c, &binary(var("w"), BinaryOp::Eq, var("w"))), Ok(Type::Bool));
    assert_eq!(infer(&c, &binary(var("f"), BinaryOp::Neq, var("f"))), Ok(Type::Bool));
    assert_eq!(
        infer(&c, &binary(var("a"), BinaryOp::Eq, var("b"))),
        Err(TypeError::IncomparableTypes { left: Type::U64, right: Type::U128 })
    );
    assert_eq!(
        infer(&c, &binary(var("w"), BinaryOp::Lt, var("w"))),
        Err(TypeError::IncomparableTypes { left: Type::Address, right: Type::Address })
    );
    for (op, text) in
        [(BinaryOp::Lt, "<"), (BinaryOp::Gt, ">"), (BinaryOp::Lte, "<="), (BinaryOp::Gte, ">=")]
    {
        assert_eq!(
            infer(&c, &binary(var("a"), op, var("b"))),
            Err(TypeError::BinaryOpTypeMismatch {
                left: Type::U64,
                op: text.to_string(),
                right: Type::U128
            })
        );
        assert_eq!(infer(&c, &binary(var("b"), op, var("b"))), Ok(Type::Bool));
    }
}

#[test]
fn chained_comparison_is_rejected() {
    let mut c = TypeChecker::new();
    for n in ["a", "b", "c"] {
        c.register_state_var(n.to_string(), Type::U64);
    }
    let e = binary(binary(var("a"), BinaryOp::Lt, var("b")), BinaryOp::Lt, var("c"));
    assert_eq!(
        infer(&c, &e),
        Err(TypeError::IncomparableTypes { left: Type::Bool, right: Type::U64 })
    );
}

#[test]
fn the_left_operand_is_checked_first() {
    let c = TypeChecker::new();
    let e = binary(var("left"), BinaryOp::Eq, var("right"));
    assert_eq!(infer(&c, &e), Err(TypeError::UndefinedVariable("left".to_string())));
    let e = Expression::Logical {
        left: Box::new(Expression::Int(1)),
        op: LogicalOp::Or,
        right: Box::new(var("right")),
    };
    assert_eq!(infer(&c, &e), Err(TypeError::UndefinedVariable("right".to_string())));
}

#[test]
fn logical_operands_must_be_bool() {
    let c = TypeChecker::new();
    let e = Expression::Logical {
        left: Box::new(Expression::Boolean(true)),
        op: LogicalOp::Or,
        right: Box::new(Expression::Int(-1)),
    };
    assert_eq!(
        infer(&c, &e),
        Err(TypeError::LogicalOpRequiresBool { op: "||".to_string(), actual: Type::I64 })
    );
    let e = Expression::Logical {
        left: Box::new(Expression::Int(1)),
        op: LogicalOp::And,
        right: Box::new(Expression::Int(-1)),
    };
    assert_eq!(
        infer(&c, &e),
        Err(TypeError::LogicalOpRequiresBool { op: "&&".to_string(), actual: Type::U64 })
    );
    assert_eq!(
        infer(&c, &Expression::Not(Box::new(Expression::Int(1)))),
        Err(TypeError::UnaryOpTypeMismatch { op: "!".to_string(), operand: Type::U64 })
    );
    assert_eq!(infer(&c, &Expression::Not(Box::new(Expression::Boolean(true)))), Ok(Type::Bool));
}

#[test]
fn qualified_variables_are_looked_up_by_their_bare_name() {
    let mut c = TypeChecker::new();
    c.register_state_var("balance".to_string(), Type::U128);
    let layer = |v: &str| Expression::LayerVar { layer: "account".to_string(), var: v.to_string() };
    let phase = |v: &str| Expression::PhaseQualifiedVar {
        phase: "validation".to_string(),
        layer: "account".to_string(),
        var: v.to_string(),
    };
    assert_eq!(infer(&c, &layer("balance")), Ok(Type::U128));
    assert_eq!(infer(&c, &phase("balance")), Ok(Type::U128));
    assert_eq!(
        infer(&c, &layer("nonce")),
        Err(TypeError::UndefinedVariable("account::nonce".to_string()))
    );
    assert_eq!(
        infer(&c, &phase("nonce")),
        Err(TypeError::UndefinedVariable("account::nonce".to_string()))
    );
}

#[test]
fn phase_constraint_must_be_bool_and_cross_phase_relation_is_a_comparison() {
    let c = TypeChecker::new();
    let constraint = |e: Expression| Expression::PhaseConstraint {
        phase: "execution".to_string(),
        constraint: Box::new(e),
    };
    assert_eq!(infer(&c, &constraint(Expression::Boolean(true))), Ok(Type::Bool));
    assert_eq!(
        infer(&c, &constraint(Expression::Int(1))),
        Err(TypeError::LogicalOpRequiresBool { op: "@".to_string(), actual: Type::U64 })
    );
    let relation = |l: Expression, r: Expression| Expression::CrossPhaseRelation {
        phase1: "validation".to_string(),
        expr1: Box::new(l),
        phase2: "execution".to_string(),
        expr2: Box::new(r),
        op: BinaryOp::Gte,
    };
    assert_eq!(infer(&c, &relation(Expression::Int(2), Expression::Int(1))), Ok(Type::Bool));
    assert_eq!(
        infer(&c, &relation(Expression::Int(2), Expression::Int(-1))),
        Err(TypeError::BinaryOpTypeMismatch {
            left: Type::U64,
            op: ">=".to_string(),
            right: Type::I64
        })
    );
}

fn call(name: &str, args: Vec<Expression>) -> Expression {
    Expression::FunctionCall { name: name.to_string(), args }
}

#[test]
fn standard_functions_are_known_after_loading_a_program() {
    let mut c = TypeChecker::new();
    assert_eq!(
        infer(&c, &call("sum", vec![Expression::Int(1)])),
        Err(TypeError::UndefinedFunction("sum".to_string()))
    );
    c.load_from_program(&program_with(&[("owner", "address")]));
    assert_eq!(infer(&c, &call("sum", vec![Expression::Int(1)])), Ok(Type::U64));
    assert_eq!(infer(&c, &call("len", vec![var("owner")])), Ok(Type::U64));
    assert_eq!(infer(&c, &call("min", vec![Expression::Int(1), Expression::Int(2)])), Ok(Type::U64));
    assert_eq!(infer(&c, &call("max", vec![Expression::Int(1), Expression::Int(2)])), Ok(Type::U64));
    assert_eq!(
        infer(&c, &call("abs", vec![Expression::Int(1)])),
        Err(TypeError::UndefinedFunction("abs".to_string()))
    );
}

#[test]
fn calls_are_checked_for_arity_then_argument_by_argument() {
    let mut c = TypeChecker::new();
    c.load_from_program(&program_with(&[]));
    assert_eq!(
        infer(&c, &call("min", vec![Expression::Int(1)])),
        Err(TypeError::Custom("function 'min' expects 2 arguments but got 1".to_string()))
    );
    assert_eq!(
        infer(&c, &call("max", vec![Expression::Int(1), Expression::Int(-2)])),
        Err(TypeError::FunctionArgMismatch {
            function: "max".to_string(),
            param_idx: 1,
            expected: Type::U64,
            actual: Type::I64
        })
    );
    assert_eq!(
        infer(&c, &call("max", vec![Expression::Boolean(true), var("missing")])),
        Err(TypeError::FunctionArgMismatch {
            function: "max".to_string(),
            param_idx: 0,
            expected: Type::U64,
            actual: Type::Bool
        })
    );
    assert_eq!(
        infer(&c, &call("max", vec![Expression::Int(1), var("missing")])),
        Err(TypeError::UndefinedVariable("missing".to_string()))
    );
}

#[test]
fn registered_signatures_are_used() {
    let mut c = TypeChecker::new();
    c.register_function(
        "owner_of".to_string(),
        FunctionSignature { params: vec![Type::U64], return_type: Type::Address },
    );
    assert_eq!(infer(&c, &call("owner_of", vec![Expression::Int(3)])), Ok(Type::Address));
    assert_eq!(
        c.check_function_call(&"owner_of".to_string(), &vec![Expression::Int(-3)]),
        Err(TypeError::FunctionArgMismatch {
            function: "owner_of".to_string(),
            param_idx: 0,
            expected: Type::U64,
            actual: Type::I64
        })
    );
}

#[test]
fn checking_returns_the_expression_with_its_type() {
    let mut c = TypeChecker::new();
    c.register_state_var("a".to_string(), Type::I64);
    let e = binary(var("a"), BinaryOp::Lt, Expression::Int(-5));
    let typed = c.check_expr(&e).unwrap();
    assert_eq!(typed.expr, e);
    assert_eq!(typed.ty, Type::Bool);
    assert_eq!(c.check_binary_op(&var("a"), &BinaryOp::Lt, &Expression::Int(-5)), Ok(Type::Bool));
    assert_eq!(
        c.check_logical_op(&var("a"), &LogicalOp::And, &Expression::Boolean(true)),
        Err(TypeError::LogicalOpRequiresBool { op: "&&".to_string(), actual: Type::I64 })
    );
}

#[test]
fn checking_twice_gives_the_same_errors_in_the_same_order() {
    let mut program = program_with(&[("zeta", "bool"), ("alpha", "u64"), ("mid", "address")]);
    program.add_state_var(StateVar {
        name: "alpha".to_string(),
        declared_type: "i64".to_string(),
        is_mutable: false,
        visibility: Some("public".to_string()),
    });
    let exprs = [
        binary(var("zeta"), BinaryOp::Lt, var("alpha")),
        binary(var("alpha"), BinaryOp::Eq, var("mid")),
        var("nowhere"),
        binary(var("alpha"), BinaryOp::Gt, Expression::Int(-1)),
    ];
    let run = || {
        let mut c = TypeChecker::new();
        c.load_from_program(&program);
        exprs.iter().map(|e| infer(&c, e)).collect::<Vec<_>>()
    };
    let first = run();
    assert_eq!(first, run());
    assert_eq!(
        first,
        vec![
            Err(TypeError::IncomparableTypes { left: Type::Bool, right: Type::I64 }),
            Err(TypeError::IncomparableTypes { left: Type::I64, right: Type::Address }),
            Err(TypeError::UndefinedVariable("nowhere".to_string())),
            Ok(Type::Bool),
        ]
    );
}

#[test]
fn type_errors_read_as_sentences() {
    assert_eq!(
        TypeError::UndefinedFunction("f".to_string()).to_string(),
        "undefined function 'f'"
    );
    assert_eq!(
        TypeError::BinaryOpTypeMismatch {
            left: Type::U64,
            op: "<".to_string(),
            right: Type::I64
        }
        .to_string(),
        "type mismatch in binary operation: u64 < i64 is invalid"
    );
    assert_eq!(
        TypeError::UnaryOpTypeMismatch { op: "!".to_string(), operand: Type::Address }.to_string(),
        "type mismatch in unary operation: !(address) is invalid"
    );
    assert_eq!(
        TypeError::FunctionArgMismatch {
            function: "min".to_string(),
            param_idx: 10,
            expected: Type::U64,
            actual: Type::Bool
        }
        .to_string(),
        "function 'min' parameter 10 expects u64 but got bool"
    );
    assert_eq!(
        TypeError::LogicalOpRequiresBool { op: "&&".to_string(), actual: Type::U128 }.to_string(),
        "logical operator '&&' requires bool operand, got u128"
    );
    assert_eq!(
        TypeError::IncomparableTypes { left: Type::Bool, right: Type::U64 }.to_string(),
        "cannot compare bool and u64"
    );
    assert_eq!(TypeError::Custom("as is".to_string()).to_string(), "as is");
}

#[test]
fn lowercase_type_names_are_read_exactly() {
    assert_eq!(type_of_lowercase("bool"), Type::Bool);
    assert_eq!(type_of_lowercase("boolean"), Type::Bool);
    assert_eq!(type_of_lowercase("u64"), Type::U64);
    assert_eq!(type_of_lowercase("uint64"), Type::U64);
    assert_eq!(type_of_lowercase("u128"), Type::U128);
    assert_eq!(type_of_lowercase("uint128"), Type::U128);
    assert_eq!(type_of_lowercase("i64"), Type::I64);
    assert_eq!(type_of_lowercase("int64"), Type::I64);
    assert_eq!(type_of_lowercase("address"), Type::Address);
    assert_eq!(type_of_lowercase("Bool"), Type::U64);
    assert_eq!(type_of_lowercase("bytes"), Type::U64);
    assert_eq!(type_of_lowercase(""), Type::U64);
}
