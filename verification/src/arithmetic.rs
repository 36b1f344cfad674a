//! Checked integer arithmetic for the functions that expressions call.

use crate::evaluator::{
    outcome_of, values_view, EvalErrorView, EvalFunction, EvalResult, EvaluationError, Outcome,
    Value, ValueView,
};
use crate::text::{decimal, push_decimal};
use vstd::prelude::*;
use vstd::string::*;

verus! {

/// An arithmetic function of two integers of one type. It never wraps: a
/// result that does not fit the type of its operands is an error.
#[derive(Debug, Clone, Copy, PartialEq, Eq, Structural)]
pub enum CheckedArithmetic {
    /// The sum of two integers.
    Add,
    /// The difference of two integers.
    Sub,
    /// The product of two integers.
    Mul,
    /// The quotient of two integers, rounded towards zero.
    Div,
    /// The remainder that `Div` leaves; its sign is that of the dividend.
    Mod,
}

/// The size of a number, without its sign.
pub open spec fn magnitude(n: int) -> int {
    if n < 0 {
        -n
    } else {
        n
    }
}

/// The quotient of `a` by `b`, rounded towards zero. `b` is not zero.
pub open spec fn quotient(a: int, b: int) -> int {
    if (a < 0) == (b < 0) {
        magnitude(a) / magnitude(b)
    } else {
        -(magnitude(a) / magnitude(b))
    }
}

/// The remainder that `quotient` leaves. `b` is not zero.
pub open spec fn remainder(a: int, b: int) -> int {
    if a < 0 {
        -(magnitude(a) % magnitude(b))
    } else {
        magnitude(a) % magnitude(b)
    }
}

/// The number that an integer value holds.
pub open spec fn number(v: ValueView) -> int {
    match v {
        ValueView::U64(n) => n as int,
        ValueView::U128(n) => n as int,
        ValueView::I64(n) => n as int,
        _ => 0,
    }
}

/// Whether a value is an integer.
pub open spec fn is_integer(v: ValueView) -> bool {
    v is U64 || v is U128 || v is I64
}

/// The least number that fits the type of an integer value.
pub open spec fn least(v: ValueView) -> int {
    match v {
        ValueView::I64(_) => i64::MIN as int,
        _ => 0,
    }
}

/// The greatest number that fits the type of an integer value.
pub open spec fn greatest(v: ValueView) -> int {
    match v {
        ValueView::U64(_) => u64::MAX as int,
        ValueView::U128(_) => u128::MAX as int,
        ValueView::I64(_) => i64::MAX as int,
        _ => 0,
    }
}

/// The value of the type of `like` that holds `n`.
pub open spec fn of_type(like: ValueView, n: int) -> ValueView {
    match like {
        ValueView::U64(_) => ValueView::U64(n as u64),
        ValueView::U128(_) => ValueView::U128(n as u128),
        ValueView::I64(_) => ValueView::I64(n as i64),
        _ => like,
    }
}

/// The message for a call with the wrong number of arguments.
pub open spec fn arity_error(got: nat) -> EvalErrorView {
    EvalErrorView::InvalidArgument("expected 2 arguments, got "@ + decimal(got))
}

impl CheckedArithmetic {
    /// What the function computes of two numbers, as numbers go.
    pub open spec fn exact(self, a: int, b: int) -> int {
        match self {
            CheckedArithmetic::Add => a + b,
            CheckedArithmetic::Sub => a - b,
            CheckedArithmetic::Mul => a * b,
            CheckedArithmetic::Div => quotient(a, b),
            CheckedArithmetic::Mod => remainder(a, b),
        }
    }

    /// Whether the function divides.
    pub open spec fn divides(self) -> bool {
        self == CheckedArithmetic::Div || self == CheckedArithmetic::Mod
    }

    /// What the function returns: for two integers of one type the exact
    /// result where it fits their type, an overflow where it is too
    /// large and an underflow where it is too small, and for a division
    /// by zero an error of its own; a type error for anything else that
    /// comes in a pair.
    pub open spec fn result(self, args: Seq<ValueView>) -> Outcome {
        if args.len() != 2 {
            Err(arity_error(args.len()))
        } else if !is_integer(args[0]) || args[0].type_of() != args[1].type_of() {
            Err(EvalErrorView::TypeError)
        } else if self.divides() && number(args[1]) == 0 {
            Err(EvalErrorView::DivisionByZero)
        } else {
            let exact = self.exact(number(args[0]), number(args[1]));
            if exact > greatest(args[0]) {
                Err(EvalErrorView::Overflow)
            } else if exact < least(args[0]) {
                Err(EvalErrorView::Underflow)
            } else {
                Ok(of_type(args[0], exact))
            }
        }
    }

    fn on_u64(self, a: u64, b: u64) -> (r: EvalResult<Value>)
        ensures
            outcome_of(r) == self.result(seq![ValueView::U64(a), ValueView::U64(b)]),
    {
        match self {
            CheckedArithmetic::Add => match a.checked_add(b) {
                Some(n) => Ok(Value::U64(n)),
                None => Err(EvaluationError::Overflow),
            },
            CheckedArithmetic::Sub => match a.checked_sub(b) {
                Some(n) => Ok(Value::U64(n)),
                None => Err(EvaluationError::Underflow),
            },
            CheckedArithmetic::Mul => match a.checked_mul(b) {
                Some(n) => Ok(Value::U64(n)),
                None => Err(EvaluationError::Overflow),
            },
            CheckedArithmetic::Div => if b == 0 {
                Err(EvaluationError::DivisionByZero)
            } else {
                Ok(Value::U64(a / b))
            },
            CheckedArithmetic::Mod => if b == 0 {
                Err(EvaluationError::DivisionByZero)
            } else {
                Ok(Value::U64(a % b))
            },
        }
    }

    fn on_u128(self, a: u128, b: u128) -> (r: EvalResult<Value>)
        ensures
            outcome_of(r) == self.result(seq![ValueView::U128(a), ValueView::U128(b)]),
    {
        match self {
            CheckedArithmetic::Add => match a.checked_add(b) {
                Some(n) => Ok(Value::U128(n)),
                None => Err(EvaluationError::Overflow),
            },
            CheckedArithmetic::Sub => match a.checked_sub(b) {
                Some(n) => Ok(Value::U128(n)),
                None => Err(EvaluationError::Underflow),
            },
            CheckedArithmetic::Mul => match a.checked_mul(b) {
                Some(n) => Ok(Value::U128(n)),
                None => Err(EvaluationError::Overflow),
            },
            CheckedArithmetic::Div => if b == 0 {
                Err(EvaluationError::DivisionByZero)
            } else {
                Ok(Value::U128(a / b))
            },
            CheckedArithmetic::Mod => if b == 0 {
                Err(EvaluationError::DivisionByZero)
            } else {
                Ok(Value::U128(a % b))
            },
        }
    }

    fn on_i64(self, a: i64, b: i64) -> (r: EvalResult<Value>)
        ensures
            outcome_of(r) == self.result(seq![ValueView::I64(a), ValueView::I64(b)]),
    {
        if (self == CheckedArithmetic::Div || self == CheckedArithmetic::Mod) && b == 0 {
            return Err(EvaluationError::DivisionByZero);
        }
        let exact: i128 = match self {
            CheckedArithmetic::Div => {
                let q = size_of(a) / size_of(b);
                if (a < 0) == (b < 0) {
                    q as i128
                } else {
                    -(q as i128)
                }
            },
            CheckedArithmetic::Mod => {
                let r = size_of(a) % size_of(b);
                if a < 0 {
                    -(r as i128)
                } else {
                    r as i128
                }
            },
            CheckedArithmetic::Add => a as i128 + b as i128,
            CheckedArithmetic::Sub => a as i128 - b as i128,
            CheckedArithmetic::Mul => {
                assert(-0x8000_0000_0000_0000 <= a < 0x8000_0000_0000_0000 && -0x8000_0000_0000_0000
                    <= b < 0x8000_0000_0000_0000 ==> -0x4000_0000_0000_0000_0000_0000_0000_0000
                    <= a * b <= 0x4000_0000_0000_0000_0000_0000_0000_0000) by (nonlinear_arith);
                (a as i128) * (b as i128)
            },
        };
        if exact > i64::MAX as i128 {
            Err(EvaluationError::Overflow)
        } else if exact < i64::MIN as i128 {
            Err(EvaluationError::Underflow)
        } else {
            Ok(Value::I64(exact as i64))
        }
    }
}

/// The size of a number, without its sign.
fn size_of(n: i64) -> (m: u64)
    ensures
        m == magnitude(n as int),
{
    if n < 0 {
        (-(n as i128)) as u64
    } else {
        n as u64
    }
}

impl EvalFunction for CheckedArithmetic {
    open spec fn apply(&self, args: Seq<ValueView>) -> Outcome {
        self.result(args)
    }

    fn call(&self, args: &[Value]) -> (r: EvalResult<Value>) {
        if args.len() != 2 {
            let mut m = String::from_str("expected 2 arguments, got ");
            push_decimal(&mut m, args.len() as u128);
            return Err(EvaluationError::InvalidArgument(m));
        }
        proof {
            assert(values_view(args@)[0] == args@[0]@);
            assert(values_view(args@)[1] == args@[1]@);
        }
        let r = match &args[0] {
            Value::U64(a) => match &args[1] {
                Value::U64(b) => self.on_u64(*a, *b),
                _ => Err(EvaluationError::TypeError),
            },
            Value::U128(a) => match &args[1] {
                Value::U128(b) => self.on_u128(*a, *b),
                _ => Err(EvaluationError::TypeError),
            },
            Value::I64(a) => match &args[1] {
                Value::I64(b) => self.on_i64(*a, *b),
                _ => Err(EvaluationError::TypeError),
            },
            _ => Err(EvaluationError::TypeError),
        };
        proof {
            let views = values_view(args@);
            assert(views =~= seq![views[0], views[1]]);
        }
        r
    }
}

/// Arithmetic never wraps: of two integers of one type, the sum, the
/// difference, the product, the quotient and the remainder are either
/// the exact number or an error: a division by zero, an overflow exactly
/// where the exact number is too large for the type, an underflow exactly
/// where it is too small.
pub proof fn law_arithmetic_is_checked(op: CheckedArithmetic, a: ValueView, b: ValueView)
    requires
        is_integer(a),
        a.type_of() == b.type_of(),
    ensures
        match op.apply(seq![a, b]) {
            Ok(v) => v.type_of() == a.type_of() && number(v) == op.exact(number(a), number(b)),
            Err(e) => (e == EvalErrorView::DivisionByZero && op.divides() && number(b) == 0) || (e
                == EvalErrorView::Overflow && op.exact(number(a), number(b)) > greatest(a)) || (e
                == EvalErrorView::Underflow && op.exact(number(a), number(b)) < least(a)),
        },
{
}

/// The quotient and the remainder make up the dividend again, and the
/// remainder is smaller than the divisor.
pub proof fn law_division(a: int, b: int)
    requires
        b != 0,
    ensures
        a == quotient(a, b) * b + remainder(a, b),
        magnitude(remainder(a, b)) < magnitude(b),
{
    let m = magnitude(a);
    let d = magnitude(b);
    assert(m == (m / d) * d + m % d && 0 <= m % d < d) by (nonlinear_arith)
        requires
            d > 0,
            m >= 0,
    ;
    assert((-(m / d)) * b == -((m / d) * b)) by (nonlinear_arith);
    assert((m / d) * (-d) == -((m / d) * d)) by (nonlinear_arith);
    assert((-(m / d)) * (-d) == (m / d) * d) by (nonlinear_arith);
}

} // verus!
