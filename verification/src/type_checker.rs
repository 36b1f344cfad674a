//! Static type checking of invariant expressions.

use crate::model::{exprs_view, lemma_call_view, lemma_tuple_view};
use crate::model::{BinaryOp, ExprView, Expression, LogicalOp, ProgramModel};
use crate::ordmap::OrderedMap;
use crate::text::{decimal, join3, lowercase, push_decimal, str_eq, to_lowercase};
use crate::types::{Type, TypeError, TypeErrorView, TypeResult, TypedExpr};
use vstd::prelude::*;
use vstd::string::*;

verus! {

/// A function signature: parameter types and return type.
#[derive(Debug, Clone)]
pub struct FunctionSignature {
    /// Parameter types in order.
    pub params: Vec<Type>,
    /// Return type.
    pub return_type: Type,
}

/// A function signature with its parameters as a sequence.
pub struct SignatureView {
    pub params: Seq<Type>,
    pub return_type: Type,
}

impl View for FunctionSignature {
    type V = SignatureView;

    open spec fn view(&self) -> SignatureView {
        SignatureView { params: self.params@, return_type: self.return_type }
    }
}

/// The views of the signatures of a map.
pub open spec fn signatures_view(m: Map<Seq<char>, FunctionSignature>) -> Map<
    Seq<char>,
    SignatureView,
> {
    Map::new(|k: Seq<char>| m.contains_key(k), |k: Seq<char>| m[k]@)
}

/// What type checking reads of its environment: the type of each state
/// variable and the signature of each function.
pub struct EnvView {
    pub vars: Map<Seq<char>, Type>,
    pub funcs: Map<Seq<char>, SignatureView>,
}

/// The type that a type name, already in lower case, stands for. A name
/// that is not known stands for the unsigned 64-bit integer.
pub open spec fn type_from_lowercase(name: Seq<char>) -> Type {
    if name == "bool"@ || name == "boolean"@ {
        Type::Bool
    } else if name == "u64"@ || name == "uint64"@ {
        Type::U64
    } else if name == "u128"@ || name == "uint128"@ {
        Type::U128
    } else if name == "i64"@ || name == "int64"@ {
        Type::I64
    } else if name == "address"@ {
        Type::Address
    } else {
        Type::U64
    }
}

/// The type that a type name stands for, whatever its case.
pub open spec fn type_from_name(name: Seq<char>) -> Type {
    type_from_lowercase(lowercase(name))
}

/// The type of an integer literal: signed 64-bit if it is negative,
/// unsigned 64-bit if it fits, unsigned 128-bit otherwise.
pub open spec fn literal_type(v: i128) -> Type {
    if v < 0 {
        Type::I64
    } else if v <= u64::MAX {
        Type::U64
    } else {
        Type::U128
    }
}

/// The type of a comparison of a `left` with a `right`.
pub open spec fn comparison_type(left: Type, op: BinaryOp, right: Type) -> Result<
    Type,
    TypeErrorView,
> {
    if op == BinaryOp::Eq || op == BinaryOp::Neq {
        if left != right {
            Err(TypeErrorView::IncomparableTypes { left, right })
        } else {
            Ok(Type::Bool)
        }
    } else if !left.numeric() || !right.numeric() {
        Err(TypeErrorView::IncomparableTypes { left, right })
    } else if left != right {
        Err(TypeErrorView::BinaryOpTypeMismatch { left, op: op.symbol(), right })
    } else {
        Ok(Type::Bool)
    }
}

/// The type of a logical connective of a `left` with a `right`: both must
/// be boolean, and the left one is reported first.
pub open spec fn connective_type(left: Type, op: LogicalOp, right: Type) -> Result<
    Type,
    TypeErrorView,
> {
    if left != Type::Bool {
        Err(TypeErrorView::LogicalOpRequiresBool { op: op.symbol(), actual: left })
    } else if right != Type::Bool {
        Err(TypeErrorView::LogicalOpRequiresBool { op: op.symbol(), actual: right })
    } else {
        Ok(Type::Bool)
    }
}

/// The message for a call with the wrong number of arguments.
pub open spec fn arity_message(name: Seq<char>, expected: nat, got: nat) -> Seq<char> {
    "function '"@ + name + "' expects "@ + decimal(expected) + " arguments but got "@ + decimal(
        got,
    )
}

/// The type of an expression in an environment, or the first error that
/// checking meets, operands taken from left to right.
pub open spec fn infer(env: EnvView, e: ExprView) -> Result<Type, TypeErrorView>
    decreases e, 0nat,
{
    match e {
        ExprView::Boolean(_) => Ok(Type::Bool),
        ExprView::Int(v) => Ok(literal_type(v)),
        ExprView::Var(name) => if env.vars.contains_key(name) {
            Ok(env.vars[name])
        } else {
            Err(TypeErrorView::UndefinedVariable(name))
        },
        ExprView::LayerVar { layer, var } => if env.vars.contains_key(var) {
            Ok(env.vars[var])
        } else {
            Err(TypeErrorView::UndefinedVariable(layer + "::"@ + var))
        },
        ExprView::PhaseQualifiedVar { phase, layer, var } => if env.vars.contains_key(var) {
            Ok(env.vars[var])
        } else {
            Err(TypeErrorView::UndefinedVariable(layer + "::"@ + var))
        },
        ExprView::PhaseConstraint { phase, constraint } => match infer(env, *constraint) {
            Err(e) => Err(e),
            Ok(t) => if t != Type::Bool {
                Err(TypeErrorView::LogicalOpRequiresBool { op: "@"@, actual: t })
            } else {
                Ok(Type::Bool)
            },
        },
        ExprView::CrossPhaseRelation { phase1, expr1, phase2, expr2, op } => match infer(
            env,
            *expr1,
        ) {
            Err(e) => Err(e),
            Ok(l) => match infer(env, *expr2) {
                Err(e) => Err(e),
                Ok(r) => comparison_type(l, op, r),
            },
        },
        ExprView::BinaryOp { left, op, right } => match infer(env, *left) {
            Err(e) => Err(e),
            Ok(l) => match infer(env, *right) {
                Err(e) => Err(e),
                Ok(r) => comparison_type(l, op, r),
            },
        },
        ExprView::Logical { left, op, right } => match infer(env, *left) {
            Err(e) => Err(e),
            Ok(l) => match infer(env, *right) {
                Err(e) => Err(e),
                Ok(r) => connective_type(l, op, r),
            },
        },
        ExprView::Not(inner) => match infer(env, *inner) {
            Err(e) => Err(e),
            Ok(t) => if t != Type::Bool {
                Err(TypeErrorView::UnaryOpTypeMismatch { op: "!"@, operand: t })
            } else {
                Ok(Type::Bool)
            },
        },
        ExprView::FunctionCall { name, args } => if !env.funcs.contains_key(name) {
            Err(TypeErrorView::UndefinedFunction(name))
        } else {
            let sig = env.funcs[name];
            if args.len() != sig.params.len() {
                Err(TypeErrorView::Custom(arity_message(name, sig.params.len(), args.len())))
            } else {
                match infer_args(env, name, args, sig.params, args.len()) {
                    Some(e) => Err(e),
                    None => Ok(sig.return_type),
                }
            }
        },
        ExprView::Tuple(items) => if items.len() == 0 {
            Ok(Type::Bool)
        } else {
            infer(env, items[0])
        },
    }
}

/// The first error among the first `n` arguments of a call, taken from
/// left to right: an argument that does not check, or one whose type is
/// not that of its parameter.
pub open spec fn infer_args(
    env: EnvView,
    name: Seq<char>,
    args: Seq<ExprView>,
    params: Seq<Type>,
    n: nat,
) -> Option<TypeErrorView>
    decreases args, n,
{
    if n == 0 || n > args.len() || n > params.len() {
        None
    } else {
        match infer_args(env, name, args, params, (n - 1) as nat) {
            Some(e) => Some(e),
            None => match infer(env, args[n - 1]) {
                Err(e) => Some(e),
                Ok(t) => if t != params[n - 1] {
                    Some(
                        TypeErrorView::FunctionArgMismatch {
                            function: name,
                            param_idx: (n - 1) as usize,
                            expected: params[n - 1],
                            actual: t,
                        },
                    )
                } else {
                    None
                },
            },
        }
    }
}

/// The functions that every checker knows after loading a program:
/// `sum`, `len`, `min` and `max`.
pub open spec fn with_standard_functions(funcs: Map<Seq<char>, SignatureView>) -> Map<
    Seq<char>,
    SignatureView,
> {
    funcs.insert("sum"@, SignatureView { params: seq![Type::U64], return_type: Type::U64 }).insert(
        "len"@,
        SignatureView { params: seq![Type::Address], return_type: Type::U64 },
    ).insert(
        "min"@,
        SignatureView { params: seq![Type::U64, Type::U64], return_type: Type::U64 },
    ).insert("max"@, SignatureView { params: seq![Type::U64, Type::U64], return_type: Type::U64 })
}

/// The variable types after the first `n` state variables of a program, in
/// the order of their names, have been registered over `vars`.
pub open spec fn with_program_vars(
    vars: Map<Seq<char>, Type>,
    names: Seq<Seq<char>>,
    declared: Map<Seq<char>, Seq<char>>,
    n: nat,
) -> Map<Seq<char>, Type>
    decreases n,
{
    if n == 0 || n > names.len() {
        vars
    } else {
        with_program_vars(vars, names, declared, (n - 1) as nat).insert(
            names[n - 1],
            type_from_name(declared[names[n - 1]]),
        )
    }
}

/// Static type checker for invariant expressions.
pub struct TypeChecker {
    /// Known state variables and their types.
    state_vars: OrderedMap<Type>,
    /// Known functions and their signatures.
    functions: OrderedMap<FunctionSignature>,
}

impl View for TypeChecker {
    type V = EnvView;

    closed spec fn view(&self) -> EnvView {
        EnvView { vars: self.state_vars@, funcs: signatures_view(self.functions@) }
    }
}

impl TypeChecker {
    /// Create a new type checker with empty context.
    pub fn new() -> (c: Self)
        ensures
            c@.vars == Map::<Seq<char>, Type>::empty(),
            c@.funcs == Map::<Seq<char>, SignatureView>::empty(),
    {
        let c = TypeChecker { state_vars: OrderedMap::new(), functions: OrderedMap::new() };
        assert(c@.funcs =~= Map::<Seq<char>, SignatureView>::empty());
        c
    }

    /// Register a state variable with its type.
    pub fn register_state_var(&mut self, name: String, ty: Type)
        ensures
            final(self)@.vars == old(self)@.vars.insert(name@, ty),
            final(self)@.funcs == old(self)@.funcs,
    {
        self.state_vars.insert(name, ty);
    }

    /// Register a function signature.
    pub fn register_function(&mut self, name: String, sig: FunctionSignature)
        ensures
            final(self)@.funcs == old(self)@.funcs.insert(name@, sig@),
            final(self)@.vars == old(self)@.vars,
    {
        self.functions.insert(name, sig);
        assert(self@.funcs =~= old(self)@.funcs.insert(name@, sig@));
    }

    /// Load the state variables of a program model, each with the type
    /// that its declared type name stands for, and the standard functions.
    pub fn load_from_program(&mut self, program: &ProgramModel)
        ensures
            final(self)@.vars == with_program_vars(
                old(self)@.vars,
                program.state_vars.keys(),
                declared_types(program.state_vars@),
                program.state_vars.keys().len(),
            ),
            final(self)@.funcs == with_standard_functions(old(self)@.funcs),
    {
        let n = program.state_vars.len();
        let mut i: usize = 0;
        while i < n
            invariant
                i <= n,
                n == program.state_vars.keys().len(),
                self@.funcs == old(self)@.funcs,
                self@.vars == with_program_vars(
                    old(self)@.vars,
                    program.state_vars.keys(),
                    declared_types(program.state_vars@),
                    i as nat,
                ),
            decreases n - i,
        {
            let name = program.state_vars.key_at(i);
            let var = program.state_vars.value_at(i);
            let ty = self.infer_type_from_string(var.declared_type.as_str());
            self.register_state_var(name.clone(), ty);
            i += 1;
        }
        self.register_stdlib_functions();
    }

    /// Type check an expression: the expression with its type, or the
    /// first error met.
    pub fn check_expr(&self, expr: &Expression) -> (r: TypeResult<TypedExpr>)
        ensures
            match r {
                Ok(t) => infer(self@, expr@) == Ok::<Type, TypeErrorView>(t.ty) && t.expr@
                    == expr@,
                Err(e) => infer(self@, expr@) == Err::<Type, TypeErrorView>(e@),
            },
    {
        match self.infer_type(expr) {
            Ok(ty) => Ok(TypedExpr::new(expr.deep_copy(), ty)),
            Err(e) => Err(e),
        }
    }

    /// Infer the type of an expression.
    pub fn infer_type(&self, expr: &Expression) -> (r: TypeResult<Type>)
        ensures
            type_outcome(r) == infer(self@, expr@),
        decreases expr,
    {
        match expr {
            Expression::Boolean(_) => Ok(Type::Bool),
            Expression::Int(val) => {
                if *val < 0 {
                    Ok(Type::I64)
                } else if *val <= u64::MAX as i128 {
                    Ok(Type::U64)
                } else {
                    Ok(Type::U128)
                }
            },
            Expression::Var(name) => match self.state_vars.get(name.as_str()) {
                Some(t) => Ok(*t),
                None => Err(TypeError::UndefinedVariable(name.clone())),
            },
            Expression::LayerVar { layer, var } => match self.state_vars.get(var.as_str()) {
                Some(t) => Ok(*t),
                None => Err(
                    TypeError::UndefinedVariable(join3(layer.as_str(), "::", var.as_str())),
                ),
            },
            Expression::PhaseQualifiedVar { phase: _, layer, var } => match self.state_vars.get(
                var.as_str(),
            ) {
                Some(t) => Ok(*t),
                None => Err(
                    TypeError::UndefinedVariable(join3(layer.as_str(), "::", var.as_str())),
                ),
            },
            Expression::PhaseConstraint { phase: _, constraint } => {
                match self.infer_type(constraint) {
                    Ok(ty) => {
                        if ty != Type::Bool {
                            Err(
                                TypeError::LogicalOpRequiresBool {
                                    op: String::from_str("@"),
                                    actual: ty,
                                },
                            )
                        } else {
                            Ok(Type::Bool)
                        }
                    },
                    Err(e) => Err(e),
                }
            },
            Expression::CrossPhaseRelation { phase1: _, expr1, phase2: _, expr2, op } => {
                let left_ty = match self.infer_type(expr1) {
                    Ok(t) => t,
                    Err(e) => {
                        return Err(e);
                    },
                };
                let right_ty = match self.infer_type(expr2) {
                    Ok(t) => t,
                    Err(e) => {
                        return Err(e);
                    },
                };
                compare_types(left_ty, op, right_ty)
            },
            Expression::BinaryOp { left, op, right } => {
                let left_ty = match self.infer_type(left) {
                    Ok(t) => t,
                    Err(e) => {
                        return Err(e);
                    },
                };
                let right_ty = match self.infer_type(right) {
                    Ok(t) => t,
                    Err(e) => {
                        return Err(e);
                    },
                };
                compare_types(left_ty, op, right_ty)
            },
            Expression::Logical { left, op, right } => {
                let left_ty = match self.infer_type(left) {
                    Ok(t) => t,
                    Err(e) => {
                        return Err(e);
                    },
                };
                let right_ty = match self.infer_type(right) {
                    Ok(t) => t,
                    Err(e) => {
                        return Err(e);
                    },
                };
                connect_types(left_ty, op, right_ty)
            },
            Expression::Not(inner) => match self.infer_type(inner) {
                Ok(ty) => {
                    if ty != Type::Bool {
                        Err(
                            TypeError::UnaryOpTypeMismatch {
                                op: String::from_str("!"),
                                operand: ty,
                            },
                        )
                    } else {
                        Ok(Type::Bool)
                    }
                },
                Err(e) => Err(e),
            },
            Expression::FunctionCall { name, args } => {
                proof {
                    lemma_call_view(*name, *args);
                }
                self.check_function_call(name, args)
            },
            Expression::Tuple(items) => {
                proof {
                    lemma_tuple_view(*items);
                }
                if items.len() == 0 {
                    Ok(Type::Bool)
                } else {
                    self.infer_type(&items[0])
                }
            },
        }
    }

    /// Check a comparison's types: those of its operands, the left one
    /// first, then whether the operator takes them.
    pub fn check_binary_op(&self, left: &Expression, op: &BinaryOp, right: &Expression) -> (r:
        TypeResult<Type>)
        ensures
            type_outcome(r) == infer(
                self@,
                ExprView::BinaryOp { left: Box::new(left@), op: *op, right: Box::new(right@) },
            ),
    {
        let left_ty = match self.infer_type(left) {
            Ok(t) => t,
            Err(e) => {
                return Err(e);
            },
        };
        let right_ty = match self.infer_type(right) {
            Ok(t) => t,
            Err(e) => {
                return Err(e);
            },
        };
        compare_types(left_ty, op, right_ty)
    }

    /// Check a logical connective's types: those of its operands, the
    /// left one first, then whether both are boolean.
    pub fn check_logical_op(&self, left: &Expression, op: &LogicalOp, right: &Expression) -> (r:
        TypeResult<Type>)
        ensures
            type_outcome(r) == infer(
                self@,
                ExprView::Logical { left: Box::new(left@), op: *op, right: Box::new(right@) },
            ),
    {
        let left_ty = match self.infer_type(left) {
            Ok(t) => t,
            Err(e) => {
                return Err(e);
            },
        };
        let right_ty = match self.infer_type(right) {
            Ok(t) => t,
            Err(e) => {
                return Err(e);
            },
        };
        connect_types(left_ty, op, right_ty)
    }

    /// Check a function call's types.
    pub fn check_function_call(&self, name: &String, args: &Vec<Expression>) -> (r: TypeResult<
        Type,
    >)
        ensures
            type_outcome(r) == infer(
                self@,
                ExprView::FunctionCall { name: name@, args: exprs_view(args@) },
            ),
        decreases args,
    {
        let sig = match self.functions.get(name.as_str()) {
            Some(s) => s,
            None => {
                return Err(TypeError::UndefinedFunction(name.clone()));
            },
        };
        if args.len() != sig.params.len() {
            let mut msg = join3("function '", name.as_str(), "' expects ");
            push_decimal(&mut msg, sig.params.len() as u128);
            msg.append(" arguments but got ");
            push_decimal(&mut msg, args.len() as u128);
            proof {
                assert(msg@ =~= arity_message(
                    name@,
                    sig.params.len() as nat,
                    args.len() as nat,
                ));
            }
            return Err(TypeError::Custom(msg));
        }
        let ghost es = exprs_view(args@);
        let mut idx: usize = 0;
        while idx < args.len()
            invariant
                idx <= args.len(),
                args.len() == sig.params.len(),
                es == exprs_view(args@),
                self@.funcs.contains_key(name@),
                self@.funcs[name@] == sig@,
                infer_args(self@, name@, es, sig.params@, idx as nat) is None,
            decreases args.len() - idx,
        {
            proof {
                assert(es[idx as int] == args@[idx as int]@);
            }
            let actual = match self.infer_type(&args[idx]) {
                Ok(t) => t,
                Err(e) => {
                    proof {
                        lemma_infer_args_error(
                            self@,
                            name@,
                            es,
                            sig.params@,
                            (idx + 1) as nat,
                            es.len(),
                        );
                    }
                    return Err(e);
                },
            };
            let expected = sig.params[idx];
            if actual != expected {
                proof {
                    lemma_infer_args_error(
                        self@,
                        name@,
                        es,
                        sig.params@,
                        (idx + 1) as nat,
                        es.len(),
                    );
                }
                return Err(
                    TypeError::FunctionArgMismatch {
                        function: name.clone(),
                        param_idx: idx,
                        expected,
                        actual,
                    },
                );
            }
            idx += 1;
        }
        Ok(sig.return_type)
    }

    /// Register the standard functions.
    pub fn register_stdlib_functions(&mut self)
        ensures
            final(self)@.funcs == with_standard_functions(old(self)@.funcs),
            final(self)@.vars == old(self)@.vars,
    {
        let mut one: Vec<Type> = Vec::new();
        one.push(Type::U64);
        self.register_function(
            String::from_str("sum"),
            FunctionSignature { params: one, return_type: Type::U64 },
        );
        let mut addr: Vec<Type> = Vec::new();
        addr.push(Type::Address);
        self.register_function(
            String::from_str("len"),
            FunctionSignature { params: addr, return_type: Type::U64 },
        );
        let mut two: Vec<Type> = Vec::new();
        two.push(Type::U64);
        two.push(Type::U64);
        self.register_function(
            String::from_str("min"),
            FunctionSignature { params: two, return_type: Type::U64 },
        );
        let mut pair: Vec<Type> = Vec::new();
        pair.push(Type::U64);
        pair.push(Type::U64);
        self.register_function(
            String::from_str("max"),
            FunctionSignature { params: pair, return_type: Type::U64 },
        );
        proof {
            assert(one@ =~= seq![Type::U64]);
            assert(addr@ =~= seq![Type::Address]);
            assert(two@ =~= seq![Type::U64, Type::U64]);
            assert(pair@ =~= seq![Type::U64, Type::U64]);
        }
    }

    /// Infer a type from the name that a chain gives it, whatever its case.
    pub fn infer_type_from_string(&self, type_str: &str) -> (t: Type)
        ensures
            t == type_from_name(type_str@),
    {
        let lower = to_lowercase(type_str);
        type_of_lowercase(lower.as_str())
    }
}

/// The type that a type name stands for, the name taken as it is written:
/// a name in lower case is known, any other name stands for the unsigned
/// 64-bit integer.
pub fn type_of_lowercase(lower: &str) -> (t: Type)
    ensures
        t == type_from_lowercase(lower@),
{
    if str_eq(lower, "bool") || str_eq(lower, "boolean") {
        Type::Bool
    } else if str_eq(lower, "u64") || str_eq(lower, "uint64") {
        Type::U64
    } else if str_eq(lower, "u128") || str_eq(lower, "uint128") {
        Type::U128
    } else if str_eq(lower, "i64") || str_eq(lower, "int64") {
        Type::I64
    } else if str_eq(lower, "address") {
        Type::Address
    } else {
        Type::U64
    }
}

impl Default for TypeChecker {
    fn default() -> (c: Self)
        ensures
            c@.vars == Map::<Seq<char>, Type>::empty(),
            c@.funcs == Map::<Seq<char>, SignatureView>::empty(),
    {
        Self::new()
    }
}

/// The type of a comparison of operands of the given types.
fn compare_types(left_ty: Type, op: &BinaryOp, right_ty: Type) -> (r: TypeResult<Type>)
    ensures
        type_outcome(r) == comparison_type(left_ty, *op, right_ty),
{
    match op {
        BinaryOp::Eq | BinaryOp::Neq => {
            if left_ty != right_ty {
                return Err(TypeError::IncomparableTypes { left: left_ty, right: right_ty });
            }
            Ok(Type::Bool)
        },
        BinaryOp::Lt | BinaryOp::Gt | BinaryOp::Lte | BinaryOp::Gte => {
            if !left_ty.is_numeric() || !right_ty.is_numeric() {
                return Err(TypeError::IncomparableTypes { left: left_ty, right: right_ty });
            }
            if left_ty != right_ty {
                return Err(
                    TypeError::BinaryOpTypeMismatch {
                        left: left_ty,
                        op: op.to_string(),
                        right: right_ty,
                    },
                );
            }
            Ok(Type::Bool)
        },
    }
}

/// The type of a logical connective of operands of the given types.
fn connect_types(left_ty: Type, op: &LogicalOp, right_ty: Type) -> (r: TypeResult<Type>)
    ensures
        type_outcome(r) == connective_type(left_ty, *op, right_ty),
{
    if left_ty != Type::Bool {
        return Err(TypeError::LogicalOpRequiresBool { op: op.to_string(), actual: left_ty });
    }
    if right_ty != Type::Bool {
        return Err(TypeError::LogicalOpRequiresBool { op: op.to_string(), actual: right_ty });
    }
    Ok(Type::Bool)
}

/// The declared type name of each state variable.
pub open spec fn declared_types(vars: Map<Seq<char>, crate::model::StateVar>) -> Map<
    Seq<char>,
    Seq<char>,
> {
    Map::new(|k: Seq<char>| vars.contains_key(k), |k: Seq<char>| vars[k].declared_type@)
}

/// The view of the result of inferring a type.
pub open spec fn type_outcome(r: TypeResult<Type>) -> Result<Type, TypeErrorView> {
    match r {
        Ok(t) => Ok(t),
        Err(e) => Err(e@),
    }
}

/// Once an argument fails, the whole list fails with the same error.
proof fn lemma_infer_args_error(
    env: EnvView,
    name: Seq<char>,
    args: Seq<ExprView>,
    params: Seq<Type>,
    k: nat,
    n: nat,
)
    requires
        1 <= k <= n <= args.len(),
        n <= params.len(),
        infer_args(env, name, args, params, k) is Some,
    ensures
        infer_args(env, name, args, params, n) == infer_args(env, name, args, params, k),
    decreases n - k,
{
    if k < n {
        lemma_infer_args_error(env, name, args, params, k, (n - 1) as nat);
    }
}

/// What checking makes of a list of expressions, one after another.
pub open spec fn check_results(env: EnvView, es: Seq<ExprView>) -> Seq<Result<Type, TypeErrorView>> {
    Seq::new(es.len(), |i: int| infer(env, es[i]))
}

/// Two checkers that were loaded from one program, starting from one
/// environment, give every list of expressions the same results in the
/// same order: what a program's state variables are registered as depends
/// on the program alone, its variables taken in the order of their names.
pub proof fn law_checking_is_reproducible(
    start: EnvView,
    first: EnvView,
    second: EnvView,
    program: ProgramModel,
    es: Seq<ExprView>,
)
    requires
        first.vars == with_program_vars(
            start.vars,
            program.state_vars.keys(),
            declared_types(program.state_vars@),
            program.state_vars.keys().len(),
        ),
        second.vars == with_program_vars(
            start.vars,
            program.state_vars.keys(),
            declared_types(program.state_vars@),
            program.state_vars.keys().len(),
        ),
        first.funcs == with_standard_functions(start.funcs),
        second.funcs == with_standard_functions(start.funcs),
    ensures
        first == second,
        check_results(first, es) == check_results(second, es),
{
}

/// The type of an integer literal is that of its value: a literal is
/// typed signed exactly if it is negative, and 128 bits wide exactly if
/// it does not fit in 64.
pub proof fn law_literal_types(v: i128)
    ensures
        literal_type(v) == Type::I64 <==> v < 0,
        literal_type(v) == Type::U64 <==> 0 <= v <= u64::MAX,
        literal_type(v) == Type::U128 <==> v > u64::MAX,
        literal_type(-1i128) == Type::I64,
        literal_type(0xffff_ffff_ffff_ffffi128) == Type::U64,
        literal_type(0x1_0000_0000_0000_0000i128) == Type::U128,
{
}

} // verus!
