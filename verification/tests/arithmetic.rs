use invar::arithmetic::CheckedArithmetic;
use invar::evaluator::{
    Callable, EvalFunction, EvaluationError, Evaluator, ExecutionContext, Value,
};
use invar::model::Expression;

use CheckedArithmetic::{Add, Div, Mod, Mul, Sub};

#[test]
fn sums_differences_and_products_are_exact() {
    assert_eq!(Add.call(&[Value::U64(40), Value::U64(2)]), Ok(Value::U64(42)));
    assert_eq!(Sub.call(&[Value::U64(40), Value::U64(2)]), Ok(Value::U64(38)));
    assert_eq!(Mul.call(&[Value::U64(40), Value::U64(2)]), Ok(Value::U64(80)));
    assert_eq!(Add.call(&[Value::I64(-40), Value::I64(2)]), Ok(Value::I64(-38)));
    assert_eq!(Sub.call(&[Value::I64(-40), Value::I64(2)]), Ok(Value::I64(-42)));
    assert_eq!(Mul.call(&[Value::I64(-40), Value::I64(2)]), Ok(Value::I64(-80)));
    assert_eq!(Mul.call(&[Value::I64(i64::MIN), Value::I64(1)]), Ok(Value::I64(i64::MIN)));
    assert_eq!(
        Add.call(&[Value::U128(u64::MAX as u128), Value::U128(1)]),
        Ok(Value::U128(u64::MAX as u128 + 1))
    );
    assert_eq!(Sub.call(&[Value::U128(5), Value::U128(5)]), Ok(Value::U128(0)));
    assert_eq!(
        Mul.call(&[Value::U128(1 << 64), Value::U128(1 << 63)]),
        Ok(Value::U128(1 << 127))
    );
    assert_eq!(Add.call(&[Value::U64(u64::MAX), Value::U64(0)]), Ok(Value::U64(u64::MAX)));
}

#[test]
fn results_that_do_not_fit_are_errors_not_wrapped_values() {
    let overflow = Err(EvaluationError::Overflow);
    let underflow = Err(EvaluationError::Underflow);
    assert_eq!(Add.call(&[Value::U64(u64::MAX), Value::U64(1)]), overflow);
    assert_eq!(Mul.call(&[Value::U64(1 << 32), Value::U64(1 << 32)]), overflow);
    assert_eq!(Sub.call(&[Value::U64(0), Value::U64(1)]), underflow);
    assert_eq!(Add.call(&[Value::U128(u128::MAX), Value::U128(1)]), overflow);
    assert_eq!(Mul.call(&[Value::U128(1 << 64), Value::U128(1 << 64)]), overflow);
    assert_eq!(Sub.call(&[Value::U128(1), Value::U128(2)]), underflow);
    assert_eq!(Add.call(&[Value::I64(i64::MAX), Value::I64(1)]), overflow);
    assert_eq!(Add.call(&[Value::I64(i64::MIN), Value::I64(-1)]), underflow);
    assert_eq!(Sub.call(&[Value::I64(i64::MIN), Value::I64(1)]), underflow);
    assert_eq!(Sub.call(&[Value::I64(0), Value::I64(i64::MIN)]), overflow);
    assert_eq!(Mul.call(&[Value::I64(i64::MIN), Value::I64(-1)]), overflow);
    assert_eq!(Mul.call(&[Value::I64(i64::MAX), Value::I64(-2)]), underflow);
    assert_eq!(Mul.call(&[Value::I64(i64::MIN), Value::I64(i64::MIN)]), overflow);
}

#[test]
fn operands_must_be_two_integers_of_one_type() {
    let type_error = Err(EvaluationError::TypeError);
    assert_eq!(Add.call(&[Value::U64(1), Value::I64(1)]), type_error);
    assert_eq!(Add.call(&[Value::U64(1), Value::U128(1)]), type_error);
    assert_eq!(Sub.call(&[Value::Bool(true), Value::Bool(false)]), type_error);
    assert_eq!(
        Mul.call(&[Value::Address("0x1".to_string()), Value::Address("0x1".to_string())]),
        type_error
    );
    assert_eq!(
        Add.call(&[]),
        Err(EvaluationError::InvalidArgument("expected 2 arguments, got 0".to_string()))
    );
    assert_eq!(
        Add.call(&[Value::U64(1), Value::U64(2), Value::U64(3)]),
        Err(EvaluationError::InvalidArgument("expected 2 arguments, got 3".to_string()))
    );
}

#[test]
fn arithmetic_can_be_registered_and_called_from_expressions() {
    let mut ctx = ExecutionContext::new();
    ctx.register_function("add".to_string(), Callable::Pure(Box::new(Add)));
    ctx.register_function("mul".to_string(), Callable::Pure(Box::new(Mul)));
    ctx.set_state("supply".to_string(), Value::U64(u64::MAX));
    let evaluator = Evaluator::new(ctx);
    let call = |name: &str, args| Expression::FunctionCall { name: name.to_string(), args };
    let product = call("mul", vec![Expression::Int(6), Expression::Int(7)]);
    assert_eq!(
        evaluator.evaluate(&call("add", vec![product, Expression::Int(0)])),
        Ok(Value::U64(42))
    );
    assert_eq!(
        evaluator
            .evaluate(&call("add", vec![Expression::Var("supply".to_string()), Expression::Int(1)])),
        Err(EvaluationError::Overflow)
    );
    assert_eq!(
        evaluator.evaluate(&call("add", vec![Expression::Int(-1), Expression::Int(1)])),
        Err(EvaluationError::TypeError)
    );
}

#[test]
fn division_rounds_towards_zero_and_refuses_zero() {
    let by_zero = Err(EvaluationError::DivisionByZero);
    for (a, b) in [(7i64, 2i64), (-7, 2), (7, -2), (-7, -2), (0, 5), (i64::MAX, -1), (i64::MIN, 2), (i64::MIN, i64::MAX), (5, i64::MIN), (i64::MIN, i64::MIN)] {
        assert_eq!(Div.call(&[Value::I64(a), Value::I64(b)]), Ok(Value::I64(a / b)), "{} / {}", a, b);
        assert_eq!(Mod.call(&[Value::I64(a), Value::I64(b)]), Ok(Value::I64(a % b)), "{} % {}", a, b);
    }
    assert_eq!(Div.call(&[Value::I64(i64::MIN), Value::I64(-1)]), Err(EvaluationError::Overflow));
    assert_eq!(Mod.call(&[Value::I64(i64::MIN), Value::I64(-1)]), Ok(Value::I64(0)));
    assert_eq!(Div.call(&[Value::U64(7), Value::U64(2)]), Ok(Value::U64(3)));
    assert_eq!(Mod.call(&[Value::U64(7), Value::U64(2)]), Ok(Value::U64(1)));
    assert_eq!(Div.call(&[Value::U128(u128::MAX), Value::U128(2)]), Ok(Value::U128(u128::MAX / 2)));
    assert_eq!(Mod.call(&[Value::U128(u128::MAX), Value::U128(10)]), Ok(Value::U128(5)));
    assert_eq!(Div.call(&[Value::U64(1), Value::U64(0)]), by_zero);
    assert_eq!(Mod.call(&[Value::U64(1), Value::U64(0)]), by_zero);
    assert_eq!(Div.call(&[Value::U128(0), Value::U128(0)]), by_zero);
    assert_eq!(Mod.call(&[Value::I64(-1), Value::I64(0)]), by_zero);
    assert_eq!(Div.call(&[Value::I64(1), Value::U64(0)]), Err(EvaluationError::TypeError));
}
