//! Deterministic evaluation of invariant expressions against a context of
//! named values.

use crate::model::{exprs_view, lemma_call_view, lemma_tuple_view};
use crate::model::{BinaryOp, ExprView, Expression, LogicalOp};
use crate::ordmap::OrderedMap;
use crate::text::{decimal, join2, join3, signed_decimal};
use crate::types::Type;
use vstd::prelude::*;
use vstd::string::*;

verus! {

/// A runtime value, tagged with its type.
#[derive(Debug, PartialEq, Eq)]
pub enum Value {
    /// Boolean value.
    Bool(bool),
    /// 64-bit unsigned integer.
    U64(u64),
    /// 128-bit unsigned integer.
    U128(u128),
    /// 64-bit signed integer.
    I64(i64),
    /// Address, as a string of hexadecimal digits.
    Address(String),
}

/// A runtime value with its address as a sequence of characters.
pub enum ValueView {
    Bool(bool),
    U64(u64),
    U128(u128),
    I64(i64),
    Address(Seq<char>),
}

impl View for Value {
    type V = ValueView;

    open spec fn view(&self) -> ValueView {
        match self {
            Value::Bool(b) => ValueView::Bool(*b),
            Value::U64(n) => ValueView::U64(*n),
            Value::U128(n) => ValueView::U128(*n),
            Value::I64(n) => ValueView::I64(*n),
            Value::Address(a) => ValueView::Address(a@),
        }
    }
}

impl Clone for Value {
    fn clone(&self) -> (r: Self)
        ensures
            r@ == self@,
    {
        match self {
            Value::Bool(b) => Value::Bool(*b),
            Value::U64(n) => Value::U64(*n),
            Value::U128(n) => Value::U128(*n),
            Value::I64(n) => Value::I64(*n),
            Value::Address(a) => Value::Address(a.clone()),
        }
    }
}

impl ValueView {
    /// The type that the value is tagged with.
    pub open spec fn type_of(self) -> Type {
        match self {
            ValueView::Bool(_) => Type::Bool,
            ValueView::U64(_) => Type::U64,
            ValueView::U128(_) => Type::U128,
            ValueView::I64(_) => Type::I64,
            ValueView::Address(_) => Type::Address,
        }
    }

    /// What the value counts as where a condition is asked for: a boolean
    /// is itself, an integer is true unless it is zero, an address is true
    /// unless it is empty.
    pub open spec fn truth(self) -> bool {
        match self {
            ValueView::Bool(b) => b,
            ValueView::U64(n) => n != 0,
            ValueView::U128(n) => n != 0,
            ValueView::I64(n) => n != 0,
            ValueView::Address(a) => a.len() != 0,
        }
    }

    /// The value as an unsigned 64-bit integer, where it is an integer
    /// that fits.
    pub open spec fn to_u64(self) -> Result<u64, EvalErrorView> {
        match self {
            ValueView::U64(n) => Ok(n),
            ValueView::U128(n) => if n <= u64::MAX {
                Ok(n as u64)
            } else {
                Err(EvalErrorView::ConversionOverflow)
            },
            ValueView::I64(n) => if n >= 0 {
                Ok(n as u64)
            } else {
                Err(EvalErrorView::ConversionOverflow)
            },
            _ => Err(EvalErrorView::TypeError),
        }
    }

    /// The value as a signed 64-bit integer, where it is a 64-bit integer
    /// that fits.
    pub open spec fn to_i64(self) -> Result<i64, EvalErrorView> {
        match self {
            ValueView::I64(n) => Ok(n),
            ValueView::U64(n) => if n <= i64::MAX {
                Ok(n as i64)
            } else {
                Err(EvalErrorView::ConversionOverflow)
            },
            _ => Err(EvalErrorView::TypeError),
        }
    }
}

/// Evaluation errors.
#[derive(Debug, Clone, PartialEq, Eq)]
pub enum EvaluationError {
    /// Arithmetic overflow.
    Overflow,
    /// Arithmetic underflow.
    Underflow,
    /// Type error during evaluation.
    TypeError,
    /// Division by zero.
    DivisionByZero,
    /// Undefined variable.
    UndefinedVariable(String),
    /// Undefined function.
    UndefinedFunction(String),
    /// Function argument error.
    InvalidArgument(String),
    /// Conversion overflow.
    ConversionOverflow,
    /// Custom error.
    Custom(String),
}

/// An evaluation error with its texts as sequences of characters.
pub enum EvalErrorView {
    Overflow,
    Underflow,
    TypeError,
    DivisionByZero,
    UndefinedVariable(Seq<char>),
    UndefinedFunction(Seq<char>),
    InvalidArgument(Seq<char>),
    ConversionOverflow,
    Custom(Seq<char>),
}

impl View for EvaluationError {
    type V = EvalErrorView;

    open spec fn view(&self) -> EvalErrorView {
        match self {
            EvaluationError::Overflow => EvalErrorView::Overflow,
            EvaluationError::Underflow => EvalErrorView::Underflow,
            EvaluationError::TypeError => EvalErrorView::TypeError,
            EvaluationError::DivisionByZero => EvalErrorView::DivisionByZero,
            EvaluationError::UndefinedVariable(n) => EvalErrorView::UndefinedVariable(n@),
            EvaluationError::UndefinedFunction(n) => EvalErrorView::UndefinedFunction(n@),
            EvaluationError::InvalidArgument(m) => EvalErrorView::InvalidArgument(m@),
            EvaluationError::ConversionOverflow => EvalErrorView::ConversionOverflow,
            EvaluationError::Custom(m) => EvalErrorView::Custom(m@),
        }
    }
}

/// The sentence that reports an evaluation error.
pub open spec fn eval_error_text(e: EvalErrorView) -> Seq<char> {
    match e {
        EvalErrorView::Overflow => "arithmetic overflow"@,
        EvalErrorView::Underflow => "arithmetic underflow"@,
        EvalErrorView::TypeError => "type error"@,
        EvalErrorView::DivisionByZero => "division by zero"@,
        EvalErrorView::UndefinedVariable(n) => "undefined variable '"@ + n + "'"@,
        EvalErrorView::UndefinedFunction(n) => "undefined function '"@ + n + "'"@,
        EvalErrorView::InvalidArgument(m) => "invalid argument: "@ + m,
        EvalErrorView::ConversionOverflow => "conversion overflow"@,
        EvalErrorView::Custom(m) => m,
    }
}

impl EvaluationError {
    /// The sentence that reports this error.
    pub fn to_string(&self) -> (s: String)
        ensures
            s@ == eval_error_text(self@),
    {
        match self {
            EvaluationError::Overflow => String::from_str("arithmetic overflow"),
            EvaluationError::Underflow => String::from_str("arithmetic underflow"),
            EvaluationError::TypeError => String::from_str("type error"),
            EvaluationError::DivisionByZero => String::from_str("division by zero"),
            EvaluationError::UndefinedVariable(n) => join3("undefined variable '", n.as_str(), "'"),
            EvaluationError::UndefinedFunction(n) => join3("undefined function '", n.as_str(), "'"),
            EvaluationError::InvalidArgument(m) => join2("invalid argument: ", m.as_str()),
            EvaluationError::ConversionOverflow => String::from_str("conversion overflow"),
            EvaluationError::Custom(m) => m.clone(),
        }
    }
}

/// Result type for evaluation operations.
pub type EvalResult<T> = Result<T, EvaluationError>;

/// What an evaluation comes to, over views.
pub type Outcome = Result<ValueView, EvalErrorView>;

/// The view of an evaluation result.
pub open spec fn outcome_of(r: EvalResult<Value>) -> Outcome {
    match r {
        Ok(v) => Ok(v@),
        Err(e) => Err(e@),
    }
}

/// The views of a list of values.
pub open spec fn values_view(vs: Seq<Value>) -> Seq<ValueView> {
    Seq::new(vs.len(), |i: int| vs[i]@)
}

impl Value {
    /// Get the type of this value.
    pub fn get_type(&self) -> (t: Type)
        ensures
            t == self@.type_of(),
    {
        match self {
            Value::Bool(_) => Type::Bool,
            Value::U64(_) => Type::U64,
            Value::U128(_) => Type::U128,
            Value::I64(_) => Type::I64,
            Value::Address(_) => Type::Address,
        }
    }

    /// Convert to a boolean for conditional evaluation. Always succeeds.
    pub fn to_bool(&self) -> (r: Result<bool, EvaluationError>)
        ensures
            r == Ok::<bool, EvaluationError>(self@.truth()),
    {
        match self {
            Value::Bool(b) => Ok(*b),
            Value::U64(n) => Ok(*n != 0),
            Value::U128(n) => Ok(*n != 0),
            Value::I64(n) => Ok(*n != 0),
            Value::Address(a) => Ok(!a.as_str().is_empty()),
        }
    }

    /// Safe conversion to an unsigned 64-bit integer.
    pub fn as_u64(&self) -> (r: Result<u64, EvaluationError>)
        ensures
            match r {
                Ok(n) => self@.to_u64() == Ok::<u64, EvalErrorView>(n),
                Err(e) => self@.to_u64() == Err::<u64, EvalErrorView>(e@),
            },
    {
        match self {
            Value::U64(n) => Ok(*n),
            Value::U128(n) => {
                if *n <= u64::MAX as u128 {
                    Ok(*n as u64)
                } else {
                    Err(EvaluationError::ConversionOverflow)
                }
            },
            Value::I64(n) => {
                if *n >= 0 {
                    Ok(*n as u64)
                } else {
                    Err(EvaluationError::ConversionOverflow)
                }
            },
            _ => Err(EvaluationError::TypeError),
        }
    }

    /// Safe conversion to a signed 64-bit integer.
    pub fn as_i64(&self) -> (r: Result<i64, EvaluationError>)
        ensures
            match r {
                Ok(n) => self@.to_i64() == Ok::<i64, EvalErrorView>(n),
                Err(e) => self@.to_i64() == Err::<i64, EvalErrorView>(e@),
            },
    {
        match self {
            Value::I64(n) => Ok(*n),
            Value::U64(n) => {
                if *n <= i64::MAX as u64 {
                    Ok(*n as i64)
                } else {
                    Err(EvaluationError::ConversionOverflow)
                }
            },
            _ => Err(EvaluationError::TypeError),
        }
    }

    /// The value written out: booleans as `true` and `false`, integers in
    /// base ten, addresses as they are.
    pub fn to_string(&self) -> (s: String)
        ensures
            s@ == value_text(self@),
    {
        match self {
            Value::Bool(b) => if *b {
                String::from_str("true")
            } else {
                String::from_str("false")
            },
            Value::U64(n) => crate::text::decimal_string(*n as u128),
            Value::U128(n) => crate::text::decimal_string(*n),
            Value::I64(n) => {
                let mut s = String::new();
                crate::text::push_signed_decimal(&mut s, *n as i128);
                assert(s@ =~= signed_decimal(*n as int));
                s
            },
            Value::Address(a) => a.clone(),
        }
    }
}

/// How a value is written out.
pub open spec fn value_text(v: ValueView) -> Seq<char> {
    match v {
        ValueView::Bool(b) => if b {
            "true"@
        } else {
            "false"@
        },
        ValueView::U64(n) => decimal(n as nat),
        ValueView::U128(n) => decimal(n as nat),
        ValueView::I64(n) => signed_decimal(n as int),
        ValueView::Address(a) => a,
    }
}

/// A verified function that expressions can call by name. It is a
/// function of its arguments alone: `call` computes what `apply` says.
pub trait EvalFunction {
    /// What the function returns for `args`.
    spec fn apply(&self, args: Seq<ValueView>) -> Outcome;

    /// Runs the function on `args`.
    fn call(&self, args: &[Value]) -> (r: EvalResult<Value>)
        ensures
            outcome_of(r) == self.apply(values_view(args@)),
    ;
}

/// A function of the driver's own, to be called by name from expressions.
/// Nothing is known of it: it may read what it likes, and it need not
/// return the same result for the same arguments twice. If it panics, so
/// does the evaluation that calls it.
#[verifier::external_body]
pub struct NativeFunction {
    f: Box<dyn Fn(&[Value]) -> EvalResult<Value>>,
}

impl NativeFunction {
    /// Wraps a function or closure so that it can be registered: the
    /// function is put into a `Box`, nothing more.
    #[verifier::external_body]
    pub fn new<F: Fn(&[Value]) -> EvalResult<Value> + 'static>(f: F) -> (r: NativeFunction) {
        NativeFunction { f: Box::new(f) }
    }
}

/// Calls the function that `f` wraps on `args`, through `Fn::call`, and
/// hands back what it returns. Nothing is claimed of the result.
#[verifier::external_body]
fn invoke(f: &NativeFunction, args: &[Value]) -> (r: EvalResult<Value>) {
    (f.f)(args)
}

/// A function registered under a name.
pub enum Callable {
    /// A verified function: a call of it comes to what `apply` states.
    Pure(Box<dyn EvalFunction>),
    /// A native function: a call of it comes to whatever it returns.
    Native(NativeFunction),
}

impl Callable {
    /// Whether a call of the function on `args` can come to `o`: for a
    /// verified function only what `apply` states, for a native function
    /// anything.
    pub open spec fn admits(self, args: Seq<ValueView>, o: Outcome) -> bool {
        match self {
            Callable::Pure(f) => o == f.apply(args),
            Callable::Native(_) => true,
        }
    }

    /// Runs the function on `args`.
    pub fn call(&self, args: &[Value]) -> (r: EvalResult<Value>)
        ensures
            self.admits(values_view(args@), outcome_of(r)),
    {
        match self {
            Callable::Pure(f) => f.call(args),
            Callable::Native(f) => invoke(f, args),
        }
    }
}

/// The views of the values of a map.
pub open spec fn bindings_view(m: Map<Seq<char>, Value>) -> Map<Seq<char>, ValueView> {
    Map::new(|k: Seq<char>| m.contains_key(k), |k: Seq<char>| m[k]@)
}

/// What evaluation reads of a context: the value of each bound name and
/// the function registered under each name.
pub struct ContextView {
    pub vars: Map<Seq<char>, ValueView>,
    pub funcs: Map<Seq<char>, Callable>,
}

/// Execution context for invariant evaluation.
pub struct ExecutionContext {
    /// Current state variable values.
    pub state_vars: OrderedMap<Value>,
    /// Function implementations.
    pub functions: OrderedMap<Callable>,
}

impl View for ExecutionContext {
    type V = ContextView;

    open spec fn view(&self) -> ContextView {
        ContextView { vars: bindings_view(self.state_vars@), funcs: self.functions@ }
    }
}

impl ExecutionContext {
    /// Create a new empty context.
    pub fn new() -> (c: Self)
        ensures
            c@.vars == Map::<Seq<char>, ValueView>::empty(),
            c@.funcs == Map::<Seq<char>, Callable>::empty(),
    {
        let c = ExecutionContext { state_vars: OrderedMap::new(), functions: OrderedMap::new() };
        assert(c@.vars =~= Map::<Seq<char>, ValueView>::empty());
        c
    }

    /// Set a state variable value.
    pub fn set_state(&mut self, name: String, value: Value)
        ensures
            final(self)@.vars == old(self)@.vars.insert(name@, value@),
            final(self)@.funcs == old(self)@.funcs,
    {
        self.state_vars.insert(name, value);
        assert(final(self)@.vars =~= old(self)@.vars.insert(name@, value@));
    }

    /// Register a function under a name.
    pub fn register_function(&mut self, name: String, func: Callable)
        ensures
            final(self)@.funcs == old(self)@.funcs.insert(name@, func),
            final(self)@.vars == old(self)@.vars,
    {
        self.functions.insert(name, func);
    }
}

impl Default for ExecutionContext {
    fn default() -> (c: Self)
        ensures
            c@.vars == Map::<Seq<char>, ValueView>::empty(),
            c@.funcs == Map::<Seq<char>, Callable>::empty(),
    {
        Self::new()
    }
}

/// The key under which a layer's variable is bound: `layer::var`.
pub open spec fn layer_key(layer: Seq<char>, var: Seq<char>) -> Seq<char> {
    layer + "::"@ + var
}

/// The key under which a layer's variable is bound for one phase:
/// `phase::layer::var`.
pub open spec fn phase_key(phase: Seq<char>, layer: Seq<char>, var: Seq<char>) -> Seq<char> {
    phase + "::"@ + layer + "::"@ + var
}

/// The value of an integer literal: signed 64-bit if it is negative,
/// unsigned 64-bit if it fits, unsigned 128-bit otherwise. A negative
/// literal below the signed 64-bit range has no value.
pub open spec fn literal_value(v: i128) -> Outcome {
    if v < 0 {
        if v >= i64::MIN {
            Ok(ValueView::I64(v as i64))
        } else {
            Err(EvalErrorView::ConversionOverflow)
        }
    } else if v <= u64::MAX {
        Ok(ValueView::U64(v as u64))
    } else {
        Ok(ValueView::U128(v as u128))
    }
}

/// The result of comparing two values. Equality is defined between two
/// values of one variant, order between two integers of one variant;
/// anything else is a type error.
pub open spec fn compare(l: ValueView, op: BinaryOp, r: ValueView) -> Outcome {
    match op {
        BinaryOp::Eq => if l.type_of() == r.type_of() {
            Ok(ValueView::Bool(l == r))
        } else {
            Err(EvalErrorView::TypeError)
        },
        BinaryOp::Neq => if l.type_of() == r.type_of() {
            Ok(ValueView::Bool(l != r))
        } else {
            Err(EvalErrorView::TypeError)
        },
        _ => match (l, r) {
            (ValueView::U64(a), ValueView::U64(b)) => Ok(
                ValueView::Bool(ordered(a as int, op, b as int)),
            ),
            (ValueView::I64(a), ValueView::I64(b)) => Ok(
                ValueView::Bool(ordered(a as int, op, b as int)),
            ),
            (ValueView::U128(a), ValueView::U128(b)) => Ok(
                ValueView::Bool(ordered(a as int, op, b as int)),
            ),
            _ => Err(EvalErrorView::TypeError),
        },
    }
}

/// Whether `a op b` holds of two integers.
pub open spec fn ordered(a: int, op: BinaryOp, b: int) -> bool {
    match op {
        BinaryOp::Eq => a == b,
        BinaryOp::Neq => a != b,
        BinaryOp::Lt => a < b,
        BinaryOp::Gt => a > b,
        BinaryOp::Lte => a <= b,
        BinaryOp::Gte => a >= b,
    }
}

/// The value of the first of `keys` that is bound, or the error that
/// names `missing` if none is.
pub open spec fn resolve(
    vars: Map<Seq<char>, ValueView>,
    keys: Seq<Seq<char>>,
    missing: Seq<char>,
) -> Outcome
    decreases keys.len(),
{
    if keys.len() == 0 {
        Err(EvalErrorView::UndefinedVariable(missing))
    } else if vars.contains_key(keys[0]) {
        Ok(vars[keys[0]])
    } else {
        resolve(vars, keys.drop_first(), missing)
    }
}

/// What the arguments of a call come to: their values, or the first error.
pub type Arguments = Result<Seq<ValueView>, EvalErrorView>;

/// What a comparison comes to when its sides came to `l` and `r`: the
/// error of the left side, else that of the right side, else the
/// comparison of the two values. Where the left side failed, `r` is not
/// looked at.
pub open spec fn compared(l: Outcome, op: BinaryOp, r: Outcome) -> Outcome {
    match l {
        Err(e) => Err(e),
        Ok(lv) => match r {
            Err(e) => Err(e),
            Ok(rv) => compare(lv, op, rv),
        },
    }
}

/// Whether a connective whose left side came to `l` goes on to evaluate
/// its right side: not after an error, not after a false left side of a
/// conjunction, not after a true left side of a disjunction.
pub open spec fn asks_right(l: Outcome, op: LogicalOp) -> bool {
    match l {
        Err(_) => false,
        Ok(lv) => if op == LogicalOp::And {
            lv.truth()
        } else {
            !lv.truth()
        },
    }
}

/// What a connective comes to when its sides came to `l` and `r`. Where
/// the right side is not asked for, `r` is not looked at.
pub open spec fn connected(l: Outcome, op: LogicalOp, r: Outcome) -> Outcome {
    match l {
        Err(e) => Err(e),
        Ok(lv) => if op == LogicalOp::And && !lv.truth() {
            Ok(ValueView::Bool(false))
        } else if op == LogicalOp::Or && lv.truth() {
            Ok(ValueView::Bool(true))
        } else {
            match r {
                Err(e) => Err(e),
                Ok(rv) => Ok(ValueView::Bool(rv.truth())),
            }
        },
    }
}

/// What a negation comes to when its operand came to `v`.
pub open spec fn negated(v: Outcome) -> Outcome {
    match v {
        Err(e) => Err(e),
        Ok(x) => Ok(ValueView::Bool(!x.truth())),
    }
}

/// The arguments `before` followed by one more that came to `last`: the
/// first error, or all the values in order. Where an earlier argument
/// failed, `last` is not looked at.
pub open spec fn appended(before: Arguments, last: Outcome) -> Arguments {
    match before {
        Err(e) => Err(e),
        Ok(vals) => match last {
            Err(e) => Err(e),
            Ok(v) => Ok(vals.push(v)),
        },
    }
}

/// Whether a call of `f` whose arguments came to `a` can come to `o`: the
/// first argument error if there is one, else what `f` admits for the
/// values.
pub open spec fn called(f: Callable, a: Arguments, o: Outcome) -> bool {
    match a {
        Err(e) => o == Err::<ValueView, EvalErrorView>(e),
        Ok(vals) => f.admits(vals, o),
    }
}

/// Whether evaluating `e` in `ctx` can come to `o`. Every node but one
/// has exactly one outcome, given those of the nodes below it. The one is
/// a call of a native function: once the name is found registered and the
/// arguments have evaluated, from left to right, to values, the call can
/// come to anything.
pub open spec fn may_eval(ctx: ContextView, e: ExprView, o: Outcome) -> bool
    decreases e, 0nat,
{
    match e {
        ExprView::Boolean(b) => o == Ok::<ValueView, EvalErrorView>(ValueView::Bool(b)),
        ExprView::Int(v) => o == literal_value(v),
        ExprView::Var(name) => o == resolve(ctx.vars, seq![name], name),
        ExprView::LayerVar { layer, var } => o == resolve(
            ctx.vars,
            seq![layer_key(layer, var), var],
            layer_key(layer, var),
        ),
        ExprView::PhaseQualifiedVar { phase, layer, var } => o == resolve(
            ctx.vars,
            seq![phase_key(phase, layer, var), layer_key(layer, var), var],
            phase_key(phase, layer, var),
        ),
        ExprView::PhaseConstraint { phase, constraint } => may_eval(ctx, *constraint, o),
        ExprView::CrossPhaseRelation { phase1, expr1, phase2, expr2, op } => exists|
            l: Outcome,
            r: Outcome,
        |
            #![trigger compared(l, op, r)]
            may_eval(ctx, *expr1, l) && (l is Ok ==> may_eval(ctx, *expr2, r)) && o == compared(
                l,
                op,
                r,
            ),
        ExprView::BinaryOp { left, op, right } => exists|l: Outcome, r: Outcome|
            #![trigger compared(l, op, r)]
            may_eval(ctx, *left, l) && (l is Ok ==> may_eval(ctx, *right, r)) && o == compared(
                l,
                op,
                r,
            ),
        ExprView::Logical { left, op, right } => exists|l: Outcome, r: Outcome|
            #![trigger connected(l, op, r)]
            may_eval(ctx, *left, l) && (asks_right(l, op) ==> may_eval(ctx, *right, r)) && o
                == connected(l, op, r),
        ExprView::Not(inner) => exists|v: Outcome|
            #![trigger negated(v)]
            may_eval(ctx, *inner, v) && o == negated(v),
        ExprView::FunctionCall { name, args } => if !ctx.funcs.contains_key(name) {
            o == Err::<ValueView, EvalErrorView>(EvalErrorView::UndefinedFunction(name))
        } else {
            exists|a: Arguments|
                #![trigger called(ctx.funcs[name], a, o)]
                may_eval_list(ctx, args, args.len(), a) && called(ctx.funcs[name], a, o)
        },
        ExprView::Tuple(items) => if items.len() == 0 {
            o == Ok::<ValueView, EvalErrorView>(ValueView::Bool(true))
        } else {
            may_eval(ctx, items[0], o)
        },
    }
}

/// Whether evaluating the first `n` expressions of `es` from left to
/// right can come to `a`: the values in order, or the first error met,
/// after which nothing more is evaluated.
pub open spec fn may_eval_list(ctx: ContextView, es: Seq<ExprView>, n: nat, a: Arguments) -> bool
    decreases es, n,
{
    if n == 0 || n > es.len() {
        a == Ok::<Seq<ValueView>, EvalErrorView>(Seq::<ValueView>::empty())
    } else {
        exists|before: Arguments, last: Outcome|
            #![trigger appended(before, last)]
            may_eval_list(ctx, es, (n - 1) as nat, before) && (before is Ok ==> may_eval(
                ctx,
                es[n - 1],
                last,
            )) && a == appended(before, last)
    }
}

/// Whether every call in `e` goes to a function that is not registered or
/// to a verified one: `e` calls no native function.
pub open spec fn calls_verified(ctx: ContextView, e: ExprView) -> bool
    decreases e,
{
    match e {
        ExprView::PhaseConstraint { phase, constraint } => calls_verified(ctx, *constraint),
        ExprView::CrossPhaseRelation { phase1, expr1, phase2, expr2, op } => calls_verified(
            ctx,
            *expr1,
        ) && calls_verified(ctx, *expr2),
        ExprView::BinaryOp { left, op, right } => calls_verified(ctx, *left) && calls_verified(
            ctx,
            *right,
        ),
        ExprView::Logical { left, op, right } => calls_verified(ctx, *left) && calls_verified(
            ctx,
            *right,
        ),
        ExprView::Not(inner) => calls_verified(ctx, *inner),
        ExprView::FunctionCall { name, args } => {
            &&& ctx.funcs.contains_key(name) ==> ctx.funcs[name] is Pure
            &&& forall|i: int| 0 <= i < args.len() ==> calls_verified(ctx, #[trigger] args[i])
        },
        ExprView::Tuple(items) => items.len() > 0 ==> calls_verified(ctx, items[0]),
        _ => true,
    }
}

/// Deterministic invariant expression evaluator.
pub struct Evaluator {
    context: ExecutionContext,
}

impl View for Evaluator {
    type V = ContextView;

    closed spec fn view(&self) -> ContextView {
        self.context@
    }
}

impl Evaluator {
    /// Create a new evaluator with an execution context.
    pub fn new(context: ExecutionContext) -> (ev: Self)
        ensures
            ev@ == context@,
    {
        Evaluator { context }
    }

    fn lookup(&self, key: &str) -> (r: Option<Value>)
        ensures
            match r {
                Some(v) => self@.vars.contains_key(key@) && v@ == self@.vars[key@],
                None => !self@.vars.contains_key(key@),
            },
    {
        match self.context.state_vars.get(key) {
            Some(v) => Some(v.clone()),
            None => None,
        }
    }

    /// Evaluate an expression against the current context.
    pub fn evaluate(&self, expr: &Expression) -> (r: EvalResult<Value>)
        ensures
            may_eval(self@, expr@, outcome_of(r)),
        decreases expr,
    {
        match expr {
            Expression::Boolean(b) => Ok(Value::Bool(*b)),
            Expression::Int(val) => {
                if *val < 0 {
                    if *val >= i64::MIN as i128 {
                        Ok(Value::I64(*val as i64))
                    } else {
                        Err(EvaluationError::ConversionOverflow)
                    }
                } else if *val <= u64::MAX as i128 {
                    Ok(Value::U64(*val as u64))
                } else {
                    Ok(Value::U128(*val as u128))
                }
            },
            Expression::Var(name) => {
                proof {
                    reveal_with_fuel(resolve, 2);
                }
                match self.lookup(name.as_str()) {
                    Some(v) => Ok(v),
                    None => Err(EvaluationError::UndefinedVariable(name.clone())),
                }
            },
            Expression::LayerVar { layer, var } => {
                let qualified = join3(layer.as_str(), "::", var.as_str());
                proof {
                    reveal_with_fuel(resolve, 3);
                    let keys = seq![layer_key(layer@, var@), var@];
                    assert(keys.drop_first() =~= seq![var@]);
                }
                match self.lookup(qualified.as_str()) {
                    Some(v) => Ok(v),
                    None => match self.lookup(var.as_str()) {
                        Some(v) => Ok(v),
                        None => Err(EvaluationError::UndefinedVariable(qualified)),
                    },
                }
            },
            Expression::PhaseQualifiedVar { phase, layer, var } => {
                let layer_var = join3(layer.as_str(), "::", var.as_str());
                let mut qualified = join2(phase.as_str(), "::");
                qualified.append(layer_var.as_str());
                proof {
                    assert(qualified@ =~= phase_key(phase@, layer@, var@));
                    reveal_with_fuel(resolve, 4);
                    let keys = seq![phase_key(phase@, layer@, var@), layer_key(layer@, var@), var@];
                    assert(keys.drop_first() =~= seq![layer_key(layer@, var@), var@]);
                    assert(keys.drop_first().drop_first() =~= seq![var@]);
                }
                match self.lookup(qualified.as_str()) {
                    Some(v) => Ok(v),
                    None => match self.lookup(layer_var.as_str()) {
                        Some(v) => Ok(v),
                        None => match self.lookup(var.as_str()) {
                            Some(v) => Ok(v),
                            None => Err(EvaluationError::UndefinedVariable(qualified)),
                        },
                    },
                }
            },
            Expression::PhaseConstraint { phase: _, constraint } => self.evaluate(constraint),
            Expression::CrossPhaseRelation { phase1: _, expr1, phase2: _, expr2, op } => {
                let left_res = self.evaluate(expr1);
                let ghost l = outcome_of(left_res);
                let left_val = match left_res {
                    Ok(v) => v,
                    Err(e) => {
                        assert(outcome_of(Err::<Value, EvaluationError>(e)) == compared(l, *op, l));
                        return Err(e);
                    },
                };
                let right_res = self.evaluate(expr2);
                let ghost r = outcome_of(right_res);
                let right_val = match right_res {
                    Ok(v) => v,
                    Err(e) => {
                        assert(outcome_of(Err::<Value, EvaluationError>(e)) == compared(l, *op, r));
                        return Err(e);
                    },
                };
                let res = self.eval_binary_op(&left_val, op, &right_val);
                assert(outcome_of(res) == compared(l, *op, r));
                res
            },
            Expression::BinaryOp { left, op, right } => {
                let left_res = self.evaluate(left);
                let ghost l = outcome_of(left_res);
                let left_val = match left_res {
                    Ok(v) => v,
                    Err(e) => {
                        assert(outcome_of(Err::<Value, EvaluationError>(e)) == compared(l, *op, l));
                        return Err(e);
                    },
                };
                let right_res = self.evaluate(right);
                let ghost r = outcome_of(right_res);
                let right_val = match right_res {
                    Ok(v) => v,
                    Err(e) => {
                        assert(outcome_of(Err::<Value, EvaluationError>(e)) == compared(l, *op, r));
                        return Err(e);
                    },
                };
                let res = self.eval_binary_op(&left_val, op, &right_val);
                assert(outcome_of(res) == compared(l, *op, r));
                res
            },
            Expression::Logical { left, op, right } => {
                let left_res = self.evaluate(left);
                let ghost l = outcome_of(left_res);
                let left_val = match left_res {
                    Ok(v) => v.to_bool().unwrap(),
                    Err(e) => {
                        assert(outcome_of(Err::<Value, EvaluationError>(e)) == connected(l, *op, l));
                        return Err(e);
                    },
                };
                match op {
                    LogicalOp::And => {
                        if !left_val {
                            assert(Ok::<ValueView, EvalErrorView>(ValueView::Bool(false))
                                == connected(l, *op, l));
                            return Ok(Value::Bool(false));
                        }
                    },
                    LogicalOp::Or => {
                        if left_val {
                            assert(Ok::<ValueView, EvalErrorView>(ValueView::Bool(true))
                                == connected(l, *op, l));
                            return Ok(Value::Bool(true));
                        }
                    },
                }
                let right_res = self.evaluate(right);
                let ghost r = outcome_of(right_res);
                let res = match right_res {
                    Ok(v) => Ok(Value::Bool(v.to_bool().unwrap())),
                    Err(e) => Err(e),
                };
                assert(outcome_of(res) == connected(l, *op, r));
                res
            },
            Expression::Not(inner) => {
                let inner_res = self.evaluate(inner);
                let res = match inner_res {
                    Ok(v) => Ok(Value::Bool(!v.to_bool().unwrap())),
                    Err(e) => Err(e),
                };
                assert(outcome_of(res) == negated(outcome_of(inner_res)));
                res
            },
            Expression::FunctionCall { name, args } => {
                proof {
                    lemma_call_view(*name, *args);
                }
                let func = match self.context.functions.get(name.as_str()) {
                    Some(f) => f,
                    None => {
                        return Err(EvaluationError::UndefinedFunction(name.clone()));
                    },
                };
                let ghost es = exprs_view(args@);
                let mut vals: Vec<Value> = Vec::new();
                let mut i: usize = 0;
                proof {
                    assert(values_view(vals@) =~= Seq::<ValueView>::empty());
                }
                while i < args.len()
                    invariant
                        i <= args.len(),
                        expr matches Expression::FunctionCall { args: a, .. } && a == args,
                        es == exprs_view(args@),
                        expr@ == (ExprView::FunctionCall { name: name@, args: es }),
                        self@.funcs.contains_key(name@),
                        self@.funcs[name@] == *func,
                        may_eval_list(
                            self@,
                            es,
                            i as nat,
                            Ok::<Seq<ValueView>, EvalErrorView>(values_view(vals@)),
                        ),
                    decreases args.len() - i,
                {
                    let ghost before = Ok::<Seq<ValueView>, EvalErrorView>(values_view(vals@));
                    match self.evaluate(&args[i]) {
                        Ok(v) => {
                            proof {
                                assert(es[i as int] == args@[i as int]@);
                                assert(values_view(vals@).push(v@) =~= values_view(vals@.push(v)));
                                assert(appended(before, Ok::<ValueView, EvalErrorView>(v@)) == Ok::<
                                    Seq<ValueView>,
                                    EvalErrorView,
                                >(values_view(vals@.push(v))));
                            }
                            vals.push(v);
                        },
                        Err(e) => {
                            proof {
                                assert(es[i as int] == args@[i as int]@);
                                let failed = Err::<Seq<ValueView>, EvalErrorView>(e@);
                                assert(appended(before, Err::<ValueView, EvalErrorView>(e@))
                                    == failed);
                                assert(may_eval_list(self@, es, (i + 1) as nat, failed));
                                lemma_list_error_stays(self@, es, (i + 1) as nat, es.len(), e@);
                                assert(called(
                                    self@.funcs[name@],
                                    failed,
                                    Err::<ValueView, EvalErrorView>(e@),
                                ));
                            }
                            return Err(e);
                        },
                    }
                    i += 1;
                }
                let res = func.call(vals.as_slice());
                proof {
                    assert(called(
                        self@.funcs[name@],
                        Ok::<Seq<ValueView>, EvalErrorView>(values_view(vals@)),
                        outcome_of(res),
                    ));
                }
                res
            },
            Expression::Tuple(items) => {
                proof {
                    lemma_tuple_view(*items);
                }
                if items.len() == 0 {
                    Ok(Value::Bool(true))
                } else {
                    self.evaluate(&items[0])
                }
            },
        }
    }

    /// Compare two values under an operator.
    pub fn eval_binary_op(&self, left: &Value, op: &BinaryOp, right: &Value) -> (r: EvalResult<
        Value,
    >)
        ensures
            outcome_of(r) == compare(left@, *op, right@),
    {
        match op {
            BinaryOp::Eq => match same_value(left, right) {
                Some(b) => Ok(Value::Bool(b)),
                None => Err(EvaluationError::TypeError),
            },
            BinaryOp::Neq => match same_value(left, right) {
                Some(b) => Ok(Value::Bool(!b)),
                None => Err(EvaluationError::TypeError),
            },
            BinaryOp::Lt => match (left, right) {
                (Value::U64(l), Value::U64(r)) => Ok(Value::Bool(*l < *r)),
                (Value::I64(l), Value::I64(r)) => Ok(Value::Bool(*l < *r)),
                (Value::U128(l), Value::U128(r)) => Ok(Value::Bool(*l < *r)),
                _ => Err(EvaluationError::TypeError),
            },
            BinaryOp::Gt => match (left, right) {
                (Value::U64(l), Value::U64(r)) => Ok(Value::Bool(*l > *r)),
                (Value::I64(l), Value::I64(r)) => Ok(Value::Bool(*l > *r)),
                (Value::U128(l), Value::U128(r)) => Ok(Value::Bool(*l > *r)),
                _ => Err(EvaluationError::TypeError),
            },
            BinaryOp::Lte => match (left, right) {
                (Value::U64(l), Value::U64(r)) => Ok(Value::Bool(*l <= *r)),
                (Value::I64(l), Value::I64(r)) => Ok(Value::Bool(*l <= *r)),
                (Value::U128(l), Value::U128(r)) => Ok(Value::Bool(*l <= *r)),
                _ => Err(EvaluationError::TypeError),
            },
            BinaryOp::Gte => match (left, right) {
                (Value::U64(l), Value::U64(r)) => Ok(Value::Bool(*l >= *r)),
                (Value::I64(l), Value::I64(r)) => Ok(Value::Bool(*l >= *r)),
                (Value::U128(l), Value::U128(r)) => Ok(Value::Bool(*l >= *r)),
                _ => Err(EvaluationError::TypeError),
            },
        }
    }
}

/// Whether two values of one variant are equal; nothing for two values of
/// different variants.
fn same_value(left: &Value, right: &Value) -> (r: Option<bool>)
    ensures
        r == (if left@.type_of() == right@.type_of() {
            Some(left@ == right@)
        } else {
            None
        }),
{
    match left {
        Value::Bool(l) => match right {
            Value::Bool(r) => Some(*l == *r),
            _ => None,
        },
        Value::U64(l) => match right {
            Value::U64(r) => Some(*l == *r),
            _ => None,
        },
        Value::U128(l) => match right {
            Value::U128(r) => Some(*l == *r),
            _ => None,
        },
        Value::I64(l) => match right {
            Value::I64(r) => Some(*l == *r),
            _ => None,
        },
        Value::Address(l) => match right {
            Value::Address(r) => Some(*l == *r),
            _ => None,
        },
    }
}

/// Once an argument fails, the whole list fails with the same error.
proof fn lemma_list_error_stays(
    ctx: ContextView,
    es: Seq<ExprView>,
    k: nat,
    n: nat,
    e: EvalErrorView,
)
    requires
        1 <= k <= n <= es.len(),
        may_eval_list(ctx, es, k, Err::<Seq<ValueView>, EvalErrorView>(e)),
    ensures
        may_eval_list(ctx, es, n, Err::<Seq<ValueView>, EvalErrorView>(e)),
    decreases n - k,
{
    if k < n {
        lemma_list_error_stays(ctx, es, k, (n - 1) as nat, e);
        let failed = Err::<Seq<ValueView>, EvalErrorView>(e);
        assert(appended(failed, Err::<ValueView, EvalErrorView>(e)) == failed);
    }
}

/// Evaluation is a function of the context and the expression, as long as
/// the expression calls no native function: two evaluations of one
/// expression against one unchanged context come to the same result. Of
/// a native function nothing of the kind can be said.
pub proof fn law_evaluation_is_deterministic(
    ctx: ContextView,
    e: ExprView,
    first: Outcome,
    second: Outcome,
)
    requires
        calls_verified(ctx, e),
        may_eval(ctx, e, first),
        may_eval(ctx, e, second),
    ensures
        first == second,
    decreases e, 0nat,
{
    match e {
        ExprView::PhaseConstraint { phase, constraint } => {
            law_evaluation_is_deterministic(ctx, *constraint, first, second);
        },
        ExprView::CrossPhaseRelation { phase1, expr1, phase2, expr2, op } => {
            let (l1, r1) = choose|l: Outcome, r: Outcome|
                #![trigger compared(l, op, r)]
                may_eval(ctx, *expr1, l) && (l is Ok ==> may_eval(ctx, *expr2, r)) && first
                    == compared(l, op, r);
            let (l2, r2) = choose|l: Outcome, r: Outcome|
                #![trigger compared(l, op, r)]
                may_eval(ctx, *expr1, l) && (l is Ok ==> may_eval(ctx, *expr2, r)) && second
                    == compared(l, op, r);
            law_evaluation_is_deterministic(ctx, *expr1, l1, l2);
            if l1 is Ok {
                law_evaluation_is_deterministic(ctx, *expr2, r1, r2);
            }
        },
        ExprView::BinaryOp { left, op, right } => {
            let (l1, r1) = choose|l: Outcome, r: Outcome|
                #![trigger compared(l, op, r)]
                may_eval(ctx, *left, l) && (l is Ok ==> may_eval(ctx, *right, r)) && first
                    == compared(l, op, r);
            let (l2, r2) = choose|l: Outcome, r: Outcome|
                #![trigger compared(l, op, r)]
                may_eval(ctx, *left, l) && (l is Ok ==> may_eval(ctx, *right, r)) && second
                    == compared(l, op, r);
            law_evaluation_is_deterministic(ctx, *left, l1, l2);
            if l1 is Ok {
                law_evaluation_is_deterministic(ctx, *right, r1, r2);
            }
        },
        ExprView::Logical { left, op, right } => {
            let (l1, r1) = choose|l: Outcome, r: Outcome|
                #![trigger connected(l, op, r)]
                may_eval(ctx, *left, l) && (asks_right(l, op) ==> may_eval(ctx, *right, r))
                    && first == connected(l, op, r);
            let (l2, r2) = choose|l: Outcome, r: Outcome|
                #![trigger connected(l, op, r)]
                may_eval(ctx, *left, l) && (asks_right(l, op) ==> may_eval(ctx, *right, r))
                    && second == connected(l, op, r);
            law_evaluation_is_deterministic(ctx, *left, l1, l2);
            if asks_right(l1, op) {
                law_evaluation_is_deterministic(ctx, *right, r1, r2);
            }
        },
        ExprView::Not(inner) => {
            let v1 = choose|v: Outcome|
                #![trigger negated(v)]
                may_eval(ctx, *inner, v) && first == negated(v);
            let v2 = choose|v: Outcome|
                #![trigger negated(v)]
                may_eval(ctx, *inner, v) && second == negated(v);
            law_evaluation_is_deterministic(ctx, *inner, v1, v2);
        },
        ExprView::FunctionCall { name, args } => {
            if ctx.funcs.contains_key(name) {
                let a1 = choose|a: Arguments|
                    #![trigger called(ctx.funcs[name], a, first)]
                    may_eval_list(ctx, args, args.len(), a) && called(ctx.funcs[name], a, first);
                let a2 = choose|a: Arguments|
                    #![trigger called(ctx.funcs[name], a, second)]
                    may_eval_list(ctx, args, args.len(), a) && called(ctx.funcs[name], a, second);
                lemma_arguments_are_determined(ctx, args, args.len(), a1, a2);
            }
        },
        ExprView::Tuple(items) => {
            if items.len() > 0 {
                law_evaluation_is_deterministic(ctx, items[0], first, second);
            }
        },
        _ => {},
    }
}

/// The arguments of a call that calls no native function come to one
/// thing only.
proof fn lemma_arguments_are_determined(
    ctx: ContextView,
    es: Seq<ExprView>,
    n: nat,
    first: Arguments,
    second: Arguments,
)
    requires
        n <= es.len(),
        forall|i: int| 0 <= i < es.len() ==> calls_verified(ctx, #[trigger] es[i]),
        may_eval_list(ctx, es, n, first),
        may_eval_list(ctx, es, n, second),
    ensures
        first == second,
    decreases es, n,
{
    if n > 0 {
        let (b1, l1) = choose|before: Arguments, last: Outcome|
            #![trigger appended(before, last)]
            may_eval_list(ctx, es, (n - 1) as nat, before) && (before is Ok ==> may_eval(
                ctx,
                es[n - 1],
                last,
            )) && first == appended(before, last);
        let (b2, l2) = choose|before: Arguments, last: Outcome|
            #![trigger appended(before, last)]
            may_eval_list(ctx, es, (n - 1) as nat, before) && (before is Ok ==> may_eval(
                ctx,
                es[n - 1],
                last,
            )) && second == appended(before, last);
        lemma_arguments_are_determined(ctx, es, (n - 1) as nat, b1, b2);
        if b1 is Ok {
            law_evaluation_is_deterministic(ctx, es[n - 1], l1, l2);
        }
    }
}

/// An outcome that evaluating `e` in `ctx` can come to.
proof fn lemma_an_outcome(ctx: ContextView, e: ExprView) -> (o: Outcome)
    ensures
        may_eval(ctx, e, o),
    decreases e, 0nat,
{
    match e {
        ExprView::Boolean(b) => Ok(ValueView::Bool(b)),
        ExprView::Int(v) => literal_value(v),
        ExprView::Var(name) => resolve(ctx.vars, seq![name], name),
        ExprView::LayerVar { layer, var } => resolve(
            ctx.vars,
            seq![layer_key(layer, var), var],
            layer_key(layer, var),
        ),
        ExprView::PhaseQualifiedVar { phase, layer, var } => resolve(
            ctx.vars,
            seq![phase_key(phase, layer, var), layer_key(layer, var), var],
            phase_key(phase, layer, var),
        ),
        ExprView::PhaseConstraint { phase, constraint } => lemma_an_outcome(ctx, *constraint),
        ExprView::CrossPhaseRelation { phase1, expr1, phase2, expr2, op } => {
            let l = lemma_an_outcome(ctx, *expr1);
            let r = lemma_an_outcome(ctx, *expr2);
            let o = compared(l, op, r);
            assert(may_eval(ctx, e, o));
            o
        },
        ExprView::BinaryOp { left, op, right } => {
            let l = lemma_an_outcome(ctx, *left);
            let r = lemma_an_outcome(ctx, *right);
            let o = compared(l, op, r);
            assert(may_eval(ctx, e, o));
            o
        },
        ExprView::Logical { left, op, right } => {
            let l = lemma_an_outcome(ctx, *left);
            let r = lemma_an_outcome(ctx, *right);
            let o = connected(l, op, r);
            assert(may_eval(ctx, e, o));
            o
        },
        ExprView::Not(inner) => {
            let v = lemma_an_outcome(ctx, *inner);
            let o = negated(v);
            assert(may_eval(ctx, e, o));
            o
        },
        ExprView::FunctionCall { name, args } => {
            if !ctx.funcs.contains_key(name) {
                Err(EvalErrorView::UndefinedFunction(name))
            } else {
                let a = lemma_some_arguments(ctx, args, args.len());
                let o = match a {
                    Err(err) => Err(err),
                    Ok(vals) => match ctx.funcs[name] {
                        Callable::Pure(f) => f.apply(vals),
                        Callable::Native(_) => Ok(ValueView::Bool(true)),
                    },
                };
                assert(called(ctx.funcs[name], a, o));
                o
            }
        },
        ExprView::Tuple(items) => {
            if items.len() == 0 {
                Ok(ValueView::Bool(true))
            } else {
                lemma_an_outcome(ctx, items[0])
            }
        },
    }
}

/// Something that evaluating the first `n` expressions of `es` can come
/// to.
proof fn lemma_some_arguments(ctx: ContextView, es: Seq<ExprView>, n: nat) -> (a: Arguments)
    requires
        n <= es.len(),
    ensures
        may_eval_list(ctx, es, n, a),
    decreases es, n,
{
    if n == 0 {
        Ok(Seq::<ValueView>::empty())
    } else {
        let before = lemma_some_arguments(ctx, es, (n - 1) as nat);
        let last = lemma_an_outcome(ctx, es[n - 1]);
        let a = appended(before, last);
        assert(may_eval_list(ctx, es, n, a));
        a
    }
}

/// Every expression has a result in every context: a value or one of the
/// evaluation errors.
pub proof fn law_evaluation_is_total(ctx: ContextView, e: ExprView)
    ensures
        exists|o: Outcome| may_eval(ctx, e, o),
{
    let o = lemma_an_outcome(ctx, e);
}

/// A conjunction whose left side is false comes to false and to nothing
/// else, and a disjunction whose left side is true comes to true and to
/// nothing else, whatever stands on the right: the right side is not
/// evaluated, so neither an error in it nor a native function that it
/// calls shows.
pub proof fn law_short_circuit(ctx: ContextView, right: ExprView, o: Outcome)
    ensures
        may_eval(
            ctx,
            ExprView::Logical {
                left: Box::new(ExprView::Boolean(false)),
                op: LogicalOp::And,
                right: Box::new(right),
            },
            o,
        ) <==> o == Ok::<ValueView, EvalErrorView>(ValueView::Bool(false)),
        may_eval(
            ctx,
            ExprView::Logical {
                left: Box::new(ExprView::Boolean(true)),
                op: LogicalOp::Or,
                right: Box::new(right),
            },
            o,
        ) <==> o == Ok::<ValueView, EvalErrorView>(ValueView::Bool(true)),
{
    reveal_with_fuel(may_eval, 2);
    let no = Ok::<ValueView, EvalErrorView>(ValueView::Bool(false));
    let yes = Ok::<ValueView, EvalErrorView>(ValueView::Bool(true));
    assert(connected(no, LogicalOp::And, no) == no);
    assert(connected(yes, LogicalOp::Or, yes) == yes);
}

/// More generally, the right side of a connective is left alone as soon as
/// the left side decides: if the left side comes to a value that counts
/// as false, the conjunction comes to false, and dually.
pub proof fn law_left_side_decides(ctx: ContextView, left: ExprView, right: ExprView, v: ValueView)
    requires
        may_eval(ctx, left, Ok::<ValueView, EvalErrorView>(v)),
    ensures
        !v.truth() ==> may_eval(
            ctx,
            ExprView::Logical { left: Box::new(left), op: LogicalOp::And, right: Box::new(right) },
            Ok::<ValueView, EvalErrorView>(ValueView::Bool(false)),
        ),
        v.truth() ==> may_eval(
            ctx,
            ExprView::Logical { left: Box::new(left), op: LogicalOp::Or, right: Box::new(right) },
            Ok::<ValueView, EvalErrorView>(ValueView::Bool(true)),
        ),
{
    let l = Ok::<ValueView, EvalErrorView>(v);
    if !v.truth() {
        assert(connected(l, LogicalOp::And, l) == Ok::<ValueView, EvalErrorView>(
            ValueView::Bool(false),
        ));
    } else {
        assert(connected(l, LogicalOp::Or, l) == Ok::<ValueView, EvalErrorView>(
            ValueView::Bool(true),
        ));
    }
}

/// An integer literal never evaluates to a value other than itself: the
/// value, where there is one, is the literal's own number.
pub proof fn law_literals_do_not_wrap(v: i128)
    ensures
        match literal_value(v) {
            Ok(ValueView::I64(n)) => n == v,
            Ok(ValueView::U64(n)) => n == v,
            Ok(ValueView::U128(n)) => n == v,
            Ok(_) => false,
            Err(e) => e == EvalErrorView::ConversionOverflow && v < i64::MIN,
        },
{
}

} // verus!
