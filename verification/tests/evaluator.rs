use invar::arithmetic::CheckedArithmetic;
use invar::evaluator::{
    Callable, EvalResult, EvaluationError, Evaluator, ExecutionContext, NativeFunction, Value,
};
use std::cell::Cell;
use invar::model::{BinaryOp, Expression, LogicalOp};
use invar::types::Type;

#[test]
fn test_value_type_detection() {
    assert_eq!(Value::Bool(true).get_type(), Type::Bool);
    assert_eq!(Value::U64(42).get_type(), Type::U64);
    assert_eq!(Value::I64(-42).get_type(), Type::I64);
}

#[test]
fn test_simple_evaluation() {
    let ctx = ExecutionContext::new();
    let evaluator = Evaluator::new(ctx);

    let expr = Expression::Boolean(true);
    let result = evaluator.evaluate(&expr);
    assert_eq!(result, Ok(Value::Bool(true)));
}

#[test]
fn test_state_variable_evaluation() {
    let mut ctx = ExecutionContext::new();
    ctx.set_state("balance".to_string(), Value::U64(100));

    let evaluator = Evaluator::new(ctx);
    let expr = Expression::Var("balance".to_string());

    let result = evaluator.evaluate(&expr);
    assert_eq!(result, Ok(Value::U64(100)));
}

#[test]
fn test_comparison_evaluation() {
    let ctx = ExecutionContext::new();
    let evaluator = Evaluator::new(ctx);

    let expr = Expression::BinaryOp {
        left: Box::new(Expression::Int(10)),
        op: BinaryOp::Lt,
        right: Box::new(Expression::Int(20)),
    };

    let result = evaluator.evaluate(&expr);
    assert_eq!(result, Ok(Value::Bool(true)));
}

#[test]
fn test_logical_short_circuit() {
    let ctx = ExecutionContext::new();
    let evaluator = Evaluator::new(ctx);

    // false && (undefined_var) should not evaluate the right side
    let expr = Expression::Logical {
        left: Box::new(Expression::Boolean(false)),
        op: LogicalOp::And,
        right: Box::new(Expression::Var("undefined".to_string())),
    };

    let result = evaluator.evaluate(&expr);
    assert_eq!(result, Ok(Value::Bool(false)));
}

fn checked_add(args: &[Value]) -> EvalResult<Value> {
    match args {
        [Value::U64(a), Value::U64(b)] => {
            a.checked_add(*b).map(Value::U64).ok_or(EvaluationError::Overflow)
        }
        [_, _] => Err(EvaluationError::TypeError),
        _ => Err(EvaluationError::InvalidArgument("add takes two arguments".to_string())),
    }
}

fn add() -> Callable {
    Callable::Native(NativeFunction::new(checked_add))
}

fn call(name: &str, args: Vec<Expression>) -> Expression {
    Expression::FunctionCall { name: name.to_string(), args }
}

#[test]
fn function_call_passes_argument_values_in_order() {
    let mut ctx = ExecutionContext::new();
    ctx.set_state("x".to_string(), Value::U64(40));
    ctx.register_function("add".to_string(), add());
    let evaluator = Evaluator::new(ctx);

    let expr = call("add", vec![Expression::Var("x".to_string()), Expression::Int(2)]);
    assert_eq!(evaluator.evaluate(&expr), Ok(Value::U64(42)));
}

#[test]
fn function_call_overflow_is_reported_not_wrapped() {
    let mut ctx = ExecutionContext::new();
    ctx.register_function("add".to_string(), add());
    let evaluator = Evaluator::new(ctx);

    let expr = call("add", vec![Expression::Int(u64::MAX as i128), Expression::Int(1)]);
    assert_eq!(evaluator.evaluate(&expr), Err(EvaluationError::Overflow));
}

#[test]
fn unknown_function_is_reported_before_arguments_are_evaluated() {
    let evaluator = Evaluator::new(ExecutionContext::new());
    let expr = call("nope", vec![Expression::Var("missing".to_string())]);
    assert_eq!(
        evaluator.evaluate(&expr),
        Err(EvaluationError::UndefinedFunction("nope".to_string()))
    );
}

#[test]
fn first_failing_argument_decides() {
    let mut ctx = ExecutionContext::new();
    ctx.register_function("add".to_string(), add());
    let evaluator = Evaluator::new(ctx);
    let expr = call(
        "add",
        vec![Expression::Var("first".to_string()), Expression::Var("second".to_string())],
    );
    assert_eq!(
        evaluator.evaluate(&expr),
        Err(EvaluationError::UndefinedVariable("first".to_string()))
    );
}

#[test]
fn integer_literals_take_the_narrowest_type() {
    let evaluator = Evaluator::new(ExecutionContext::new());
    assert_eq!(evaluator.evaluate(&Expression::Int(-1)), Ok(Value::I64(-1)));
    assert_eq!(evaluator.evaluate(&Expression::Int(0)), Ok(Value::U64(0)));
    assert_eq!(
        evaluator.evaluate(&Expression::Int(u64::MAX as i128)),
        Ok(Value::U64(u64::MAX))
    );
    assert_eq!(
        evaluator.evaluate(&Expression::Int(u64::MAX as i128 + 1)),
        Ok(Value::U128(u64::MAX as u128 + 1))
    );
    assert_eq!(
        evaluator.evaluate(&Expression::Int(i64::MIN as i128)),
        Ok(Value::I64(i64::MIN))
    );
}

#[test]
fn negative_literal_below_i64_is_an_error_not_a_wrapped_value() {
    let evaluator = Evaluator::new(ExecutionContext::new());
    assert_eq!(
        evaluator.evaluate(&Expression::Int(i64::MIN as i128 - 1)),
        Err(EvaluationError::ConversionOverflow)
    );
}

#[test]
fn empty_tuple_is_true_and_a_tuple_is_its_first_item() {
    let evaluator = Evaluator::new(ExecutionContext::new());
    assert_eq!(evaluator.evaluate(&Expression::Tuple(vec![])), Ok(Value::Bool(true)));
    assert_eq!(
        evaluator.evaluate(&Expression::Tuple(vec![Expression::Int(7), Expression::Boolean(false)])),
        Ok(Value::U64(7))
    );
}

#[test]
fn true_and_undefined_reports_the_undefined_variable() {
    let evaluator = Evaluator::new(ExecutionContext::new());
    let expr = Expression::Logical {
        left: Box::new(Expression::Boolean(true)),
        op: LogicalOp::And,
        right: Box::new(Expression::Var("undef_var".to_string())),
    };
    assert_eq!(
        evaluator.evaluate(&expr),
        Err(EvaluationError::UndefinedVariable("undef_var".to_string()))
    );
}

#[test]
fn true_or_anything_is_true() {
    let evaluator = Evaluator::new(ExecutionContext::new());
    let expr = Expression::Logical {
        left: Box::new(Expression::Boolean(true)),
        op: LogicalOp::Or,
        right: Box::new(Expression::Var("undef_var".to_string())),
    };
    assert_eq!(evaluator.evaluate(&expr), Ok(Value::Bool(true)));
}

fn greater_than_zero(e: Expression) -> Expression {
    Expression::BinaryOp { left: Box::new(e), op: BinaryOp::Gt, right: Box::new(Expression::Int(0)) }
}

#[test]
fn layer_qualified_name_is_tried_first_then_the_bare_name() {
    let mut ctx = ExecutionContext::new();
    ctx.set_state("account::balance".to_string(), Value::U64(50));
    let evaluator = Evaluator::new(ctx);

    let account = Expression::LayerVar { layer: "account".to_string(), var: "balance".to_string() };
    assert_eq!(evaluator.evaluate(&greater_than_zero(account)), Ok(Value::Bool(true)));

    let bundler = Expression::LayerVar { layer: "bundler".to_string(), var: "balance".to_string() };
    assert_eq!(
        evaluator.evaluate(&greater_than_zero(bundler)),
        Err(EvaluationError::UndefinedVariable("bundler::balance".to_string()))
    );
}

#[test]
fn layer_variable_falls_back_to_the_bare_name() {
    let mut ctx = ExecutionContext::new();
    ctx.set_state("balance".to_string(), Value::U64(5));
    let evaluator = Evaluator::new(ctx);
    let e = Expression::LayerVar { layer: "bundler".to_string(), var: "balance".to_string() };
    assert_eq!(evaluator.evaluate(&e), Ok(Value::U64(5)));
}

#[test]
fn phase_qualified_name_resolves_from_most_to_least_qualified() {
    let var = || Expression::PhaseQualifiedVar {
        phase: "validation".to_string(),
        layer: "account".to_string(),
        var: "nonce".to_string(),
    };

    let mut ctx = ExecutionContext::new();
    ctx.set_state("nonce".to_string(), Value::U64(1));
    ctx.set_state("account::nonce".to_string(), Value::U64(2));
    ctx.set_state("validation::account::nonce".to_string(), Value::U64(3));
    assert_eq!(Evaluator::new(ctx).evaluate(&var()), Ok(Value::U64(3)));

    let mut ctx = ExecutionContext::new();
    ctx.set_state("nonce".to_string(), Value::U64(1));
    ctx.set_state("account::nonce".to_string(), Value::U64(2));
    assert_eq!(Evaluator::new(ctx).evaluate(&var()), Ok(Value::U64(2)));

    let mut ctx = ExecutionContext::new();
    ctx.set_state("nonce".to_string(), Value::U64(1));
    assert_eq!(Evaluator::new(ctx).evaluate(&var()), Ok(Value::U64(1)));

    assert_eq!(
        Evaluator::new(ExecutionContext::new()).evaluate(&var()),
        Err(EvaluationError::UndefinedVariable("validation::account::nonce".to_string()))
    );
}

#[test]
fn comparing_values_of_different_variants_is_a_type_error() {
    let evaluator = Evaluator::new(ExecutionContext::new());
    for op in [BinaryOp::Eq, BinaryOp::Neq, BinaryOp::Lt, BinaryOp::Gte] {
        assert_eq!(
            evaluator.eval_binary_op(&Value::U64(1), &op, &Value::I64(1)),
            Err(EvaluationError::TypeError)
        );
    }
    assert_eq!(
        evaluator.eval_binary_op(&Value::Bool(true), &BinaryOp::Lt, &Value::Bool(false)),
        Err(EvaluationError::TypeError)
    );
}

#[test]
fn comparisons_of_matching_integers() {
    let evaluator = Evaluator::new(ExecutionContext::new());
    let cases = [
        (BinaryOp::Eq, false),
        (BinaryOp::Neq, true),
        (BinaryOp::Lt, true),
        (BinaryOp::Lte, true),
        (BinaryOp::Gt, false),
        (BinaryOp::Gte, false),
    ];
    for (op, expected) in cases {
        assert_eq!(
            evaluator.eval_binary_op(&Value::I64(-3), &op, &Value::I64(4)),
            Ok(Value::Bool(expected))
        );
        assert_eq!(
            evaluator.eval_binary_op(&Value::U128(3), &op, &Value::U128(4)),
            Ok(Value::Bool(expected))
        );
    }
    assert_eq!(
        evaluator.eval_binary_op(
            &Value::Address("0xab".to_string()),
            &BinaryOp::Eq,
            &Value::Address("0xab".to_string())
        ),
        Ok(Value::Bool(true))
    );
}

#[test]
fn truth_of_values() {
    assert_eq!(Value::Bool(false).to_bool(), Ok(false));
    assert_eq!(Value::U64(0).to_bool(), Ok(false));
    assert_eq!(Value::U128(9).to_bool(), Ok(true));
    assert_eq!(Value::I64(-1).to_bool(), Ok(true));
    assert_eq!(Value::Address(String::new()).to_bool(), Ok(false));
    assert_eq!(Value::Address("0x0".to_string()).to_bool(), Ok(true));
}

#[test]
fn not_negates_the_truth_of_its_operand() {
    let mut ctx = ExecutionContext::new();
    ctx.set_state("n".to_string(), Value::U64(0));
    let evaluator = Evaluator::new(ctx);
    let e = Expression::Not(Box::new(Expression::Var("n".to_string())));
    assert_eq!(evaluator.evaluate(&e), Ok(Value::Bool(true)));
}

#[test]
fn conversions_between_integer_widths() {
    assert_eq!(Value::U64(7).as_u64(), Ok(7));
    assert_eq!(Value::U128(u64::MAX as u128).as_u64(), Ok(u64::MAX));
    assert_eq!(Value::U128(u64::MAX as u128 + 1).as_u64(), Err(EvaluationError::ConversionOverflow));
    assert_eq!(Value::I64(-1).as_u64(), Err(EvaluationError::ConversionOverflow));
    assert_eq!(Value::Bool(true).as_u64(), Err(EvaluationError::TypeError));
    assert_eq!(Value::I64(-5).as_i64(), Ok(-5));
    assert_eq!(Value::U64(i64::MAX as u64).as_i64(), Ok(i64::MAX));
    assert_eq!(Value::U64(i64::MAX as u64 + 1).as_i64(), Err(EvaluationError::ConversionOverflow));
    assert_eq!(Value::U128(1).as_i64(), Err(EvaluationError::TypeError));
}

#[test]
fn evaluation_errors_read_as_sentences() {
    assert_eq!(EvaluationError::Overflow.to_string(), "arithmetic overflow");
    assert_eq!(EvaluationError::Underflow.to_string(), "arithmetic underflow");
    assert_eq!(EvaluationError::TypeError.to_string(), "type error");
    assert_eq!(EvaluationError::DivisionByZero.to_string(), "division by zero");
    assert_eq!(
        EvaluationError::UndefinedVariable("x".to_string()).to_string(),
        "undefined variable 'x'"
    );
    assert_eq!(
        EvaluationError::UndefinedFunction("f".to_string()).to_string(),
        "undefined function 'f'"
    );
    assert_eq!(
        EvaluationError::InvalidArgument("bad".to_string()).to_string(),
        "invalid argument: bad"
    );
    assert_eq!(EvaluationError::ConversionOverflow.to_string(), "conversion overflow");
    assert_eq!(EvaluationError::Custom("why".to_string()).to_string(), "why");
}

#[test]
fn values_are_written_out() {
    assert_eq!(Value::Bool(true).to_string(), "true");
    assert_eq!(Value::U64(0).to_string(), "0");
    assert_eq!(Value::U128(u128::MAX).to_string(), u128::MAX.to_string());
    assert_eq!(Value::I64(i64::MIN).to_string(), i64::MIN.to_string());
    assert_eq!(Value::Address("0xAb".to_string()).to_string(), "0xAb");
}

#[test]
fn evaluating_twice_gives_the_same_result() {
    let mut ctx = ExecutionContext::new();
    ctx.set_state("a".to_string(), Value::U64(3));
    let evaluator = Evaluator::new(ctx);
    let e = greater_than_zero(Expression::Var("a".to_string()));
    assert_eq!(evaluator.evaluate(&e), evaluator.evaluate(&e));
    let missing = greater_than_zero(Expression::Var("b".to_string()));
    assert_eq!(evaluator.evaluate(&missing), evaluator.evaluate(&missing));
}

#[test]
fn a_native_function_need_not_return_the_same_result_twice() {
    let calls = Cell::new(0u64);
    let count = move |_args: &[Value]| -> EvalResult<Value> {
        calls.set(calls.get() + 1);
        Ok(Value::U64(calls.get()))
    };
    let mut ctx = ExecutionContext::new();
    ctx.register_function("count".to_string(), Callable::Native(NativeFunction::new(count)));
    let evaluator = Evaluator::new(ctx);
    let expr = call("count", vec![]);
    assert_eq!(evaluator.evaluate(&expr), Ok(Value::U64(1)));
    assert_eq!(evaluator.evaluate(&expr), Ok(Value::U64(2)));
}

#[test]
fn a_native_function_is_not_called_when_an_argument_fails() {
    let mut ctx = ExecutionContext::new();
    ctx.register_function(
        "explode".to_string(),
        Callable::Native(NativeFunction::new(|_args: &[Value]| -> EvalResult<Value> {
            Err(EvaluationError::Custom("called".to_string()))
        })),
    );
    let evaluator = Evaluator::new(ctx);
    assert_eq!(
        evaluator.evaluate(&call("explode", vec![Expression::Var("missing".to_string())])),
        Err(EvaluationError::UndefinedVariable("missing".to_string()))
    );
    assert_eq!(
        evaluator.evaluate(&call("explode", vec![Expression::Int(1)])),
        Err(EvaluationError::Custom("called".to_string()))
    );
}

#[test]
fn a_verified_function_returns_the_same_result_twice() {
    let mut ctx = ExecutionContext::new();
    ctx.register_function("add".to_string(), Callable::Pure(Box::new(CheckedArithmetic::Add)));
    ctx.set_state("x".to_string(), Value::U64(40));
    let evaluator = Evaluator::new(ctx);
    let expr = call("add", vec![Expression::Var("x".to_string()), Expression::Int(2)]);
    let first = evaluator.evaluate(&expr);
    assert_eq!(first, Ok(Value::U64(42)));
    assert_eq!(evaluator.evaluate(&expr), first);
}

#[test]
fn a_callable_hands_the_arguments_to_its_function() {
    let pure = Callable::Pure(Box::new(CheckedArithmetic::Sub));
    assert_eq!(pure.call(&[Value::U64(5), Value::U64(3)]), Ok(Value::U64(2)));
    assert_eq!(add().call(&[Value::U64(5), Value::U64(3)]), Ok(Value::U64(8)));
}
