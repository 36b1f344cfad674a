//! The types of the invariant language and the errors of type checking.

use crate::model::Expression;
use crate::text::{decimal, push_decimal};
use vstd::prelude::*;
use vstd::string::*;

verus! {

/// A type of the invariant language. There is no conversion between any
/// two of them.
#[derive(Debug, Clone, Copy, PartialEq, Eq, Hash, Structural)]
pub enum Type {
    /// Boolean type.
    Bool,
    /// 64-bit unsigned integer.
    U64,
    /// 128-bit unsigned integer.
    U128,
    /// 64-bit signed integer.
    I64,
    /// Address type.
    Address,
}

impl Type {
    /// Whether values of this type are integers.
    pub open spec fn numeric(self) -> bool {
        self == Type::U64 || self == Type::U128 || self == Type::I64
    }

    /// The name of the type as it is shown to people.
    pub open spec fn label(self) -> Seq<char> {
        match self {
            Type::Bool => "bool"@,
            Type::U64 => "u64"@,
            Type::U128 => "u128"@,
            Type::I64 => "i64"@,
            Type::Address => "address"@,
        }
    }

    /// Check if this type is numeric.
    pub fn is_numeric(self) -> (r: bool)
        ensures
            r == self.numeric(),
    {
        match self {
            Type::U64 | Type::U128 | Type::I64 => true,
            _ => false,
        }
    }

    /// Check if this type is a primitive. Every type of the language is.
    pub fn is_primitive(self) -> (r: bool)
        ensures
            r,
    {
        match self {
            Type::Bool | Type::U64 | Type::U128 | Type::I64 | Type::Address => true,
        }
    }

    /// Get a human-readable name for this type.
    pub fn name(self) -> (s: &'static str)
        ensures
            s@ == self.label(),
    {
        match self {
            Type::Bool => "bool",
            Type::U64 => "u64",
            Type::U128 => "u128",
            Type::I64 => "i64",
            Type::Address => "address",
        }
    }

    /// The name of the type, as an owned string.
    pub fn to_string(&self) -> (s: String)
        ensures
            s@ == self.label(),
    {
        String::from_str(self.name())
    }
}

/// A value with its static type information.
#[derive(Debug, Clone, PartialEq, Eq)]
pub struct TypedValue {
    /// The static type.
    pub ty: Type,
    /// The value written out, for inspection.
    pub value: String,
}

impl TypedValue {
    /// Create a new typed value.
    pub fn new(ty: Type, value: String) -> (r: Self)
        ensures
            r.ty == ty,
            r.value == value,
    {
        TypedValue { ty, value }
    }
}

/// An expression together with the type that checking gave it.
#[derive(Debug)]
pub struct TypedExpr {
    /// The expression.
    pub expr: Expression,
    /// The verified type.
    pub ty: Type,
}

impl TypedExpr {
    /// Create a new typed expression.
    pub fn new(expr: Expression, ty: Type) -> (r: Self)
        ensures
            r.expr == expr,
            r.ty == ty,
    {
        TypedExpr { expr, ty }
    }
}

impl Clone for TypedExpr {
    fn clone(&self) -> (r: Self)
        ensures
            r.expr@ == self.expr@,
            r.ty == self.ty,
    {
        TypedExpr { expr: self.expr.deep_copy(), ty: self.ty }
    }
}

/// Type checking errors.
#[derive(Debug, Clone, PartialEq, Eq)]
pub enum TypeError {
    /// Unknown identifier.
    UndefinedVariable(String),
    /// Unknown function.
    UndefinedFunction(String),
    /// Type mismatch in binary operation.
    BinaryOpTypeMismatch {
        /// Left operand type.
        left: Type,
        /// Operator.
        op: String,
        /// Right operand type.
        right: Type,
    },
    /// Type mismatch in unary operation.
    UnaryOpTypeMismatch {
        /// Operator.
        op: String,
        /// Operand type.
        operand: Type,
    },
    /// Function argument type mismatch.
    FunctionArgMismatch {
        /// Function name.
        function: String,
        /// Parameter index.
        param_idx: usize,
        /// Expected type.
        expected: Type,
        /// Actual type.
        actual: Type,
    },
    /// Logical operator requires boolean operand.
    LogicalOpRequiresBool {
        /// Operator.
        op: String,
        /// Actual type.
        actual: Type,
    },
    /// Comparison not allowed between types.
    IncomparableTypes {
        /// Left type.
        left: Type,
        /// Right type.
        right: Type,
    },
    /// Custom error message.
    Custom(String),
}

/// A type checking error with its texts as sequences of characters.
#[allow(inconsistent_fields)]
pub enum TypeErrorView {
    UndefinedVariable(Seq<char>),
    UndefinedFunction(Seq<char>),
    BinaryOpTypeMismatch { left: Type, op: Seq<char>, right: Type },
    UnaryOpTypeMismatch { op: Seq<char>, operand: Type },
    FunctionArgMismatch { function: Seq<char>, param_idx: usize, expected: Type, actual: Type },
    LogicalOpRequiresBool { op: Seq<char>, actual: Type },
    IncomparableTypes { left: Type, right: Type },
    Custom(Seq<char>),
}

impl View for TypeError {
    type V = TypeErrorView;

    open spec fn view(&self) -> TypeErrorView {
        match self {
            TypeError::UndefinedVariable(n) => TypeErrorView::UndefinedVariable(n@),
            TypeError::UndefinedFunction(n) => TypeErrorView::UndefinedFunction(n@),
            TypeError::BinaryOpTypeMismatch { left, op, right } => {
                TypeErrorView::BinaryOpTypeMismatch { left: *left, op: op@, right: *right }
            },
            TypeError::UnaryOpTypeMismatch { op, operand } => TypeErrorView::UnaryOpTypeMismatch {
                op: op@,
                operand: *operand,
            },
            TypeError::FunctionArgMismatch { function, param_idx, expected, actual } => {
                TypeErrorView::FunctionArgMismatch {
                    function: function@,
                    param_idx: *param_idx,
                    expected: *expected,
                    actual: *actual,
                }
            },
            TypeError::LogicalOpRequiresBool { op, actual } => {
                TypeErrorView::LogicalOpRequiresBool { op: op@, actual: *actual }
            },
            TypeError::IncomparableTypes { left, right } => TypeErrorView::IncomparableTypes {
                left: *left,
                right: *right,
            },
            TypeError::Custom(m) => TypeErrorView::Custom(m@),
        }
    }
}

/// The sentence that reports a type checking error.
pub open spec fn type_error_text(e: TypeErrorView) -> Seq<char> {
    match e {
        TypeErrorView::UndefinedVariable(n) => "undefined variable '"@ + n + "'"@,
        TypeErrorView::UndefinedFunction(n) => "undefined function '"@ + n + "'"@,
        TypeErrorView::BinaryOpTypeMismatch { left, op, right } =>
            "type mismatch in binary operation: "@ + left.label() + " "@ + op + " "@
            + right.label() + " is invalid"@,
        TypeErrorView::UnaryOpTypeMismatch { op, operand } => "type mismatch in unary operation: "@
            + op + "("@ + operand.label() + ") is invalid"@,
        TypeErrorView::FunctionArgMismatch { function, param_idx, expected, actual } =>
            "function '"@ + function + "' parameter "@ + decimal(param_idx as nat) + " expects "@
            + expected.label() + " but got "@ + actual.label(),
        TypeErrorView::LogicalOpRequiresBool { op, actual } => "logical operator '"@ + op
            + "' requires bool operand, got "@ + actual.label(),
        TypeErrorView::IncomparableTypes { left, right } => "cannot compare "@ + left.label()
            + " and "@ + right.label(),
        TypeErrorView::Custom(m) => m,
    }
}

impl TypeError {
    /// The sentence that reports this error.
    pub fn to_string(&self) -> (s: String)
        ensures
            s@ == type_error_text(self@),
    {
        let mut s = String::new();
        match self {
            TypeError::UndefinedVariable(n) => {
                s.append("undefined variable '");
                s.append(n.as_str());
                s.append("'");
            },
            TypeError::UndefinedFunction(n) => {
                s.append("undefined function '");
                s.append(n.as_str());
                s.append("'");
            },
            TypeError::BinaryOpTypeMismatch { left, op, right } => {
                s.append("type mismatch in binary operation: ");
                s.append(left.name());
                s.append(" ");
                s.append(op.as_str());
                s.append(" ");
                s.append(right.name());
                s.append(" is invalid");
            },
            TypeError::UnaryOpTypeMismatch { op, operand } => {
                s.append("type mismatch in unary operation: ");
                s.append(op.as_str());
                s.append("(");
                s.append(operand.name());
                s.append(") is invalid");
            },
            TypeError::FunctionArgMismatch { function, param_idx, expected, actual } => {
                s.append("function '");
                s.append(function.as_str());
                s.append("' parameter ");
                push_decimal(&mut s, *param_idx as u128);
                s.append(" expects ");
                s.append(expected.name());
                s.append(" but got ");
                s.append(actual.name());
            },
            TypeError::LogicalOpRequiresBool { op, actual } => {
                s.append("logical operator '");
                s.append(op.as_str());
                s.append("' requires bool operand, got ");
                s.append(actual.name());
            },
            TypeError::IncomparableTypes { left, right } => {
                s.append("cannot compare ");
                s.append(left.name());
                s.append(" and ");
                s.append(right.name());
            },
            TypeError::Custom(m) => {
                s.append(m.as_str());
            },
        }
        assert(s@ =~= type_error_text(self@));
        s
    }
}

/// Result type for type checking operations.
pub type TypeResult<T> = Result<T, TypeError>;

} // verus!
