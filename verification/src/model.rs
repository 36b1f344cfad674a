//! The intermediate representation: expressions, invariants and the model
//! of a program that invariants are checked against.

use crate::ordmap::{OrderedMap, OrderedSet};
use crate::text::{push_signed_decimal, signed_decimal, strings_view};
use vstd::prelude::*;
use vstd::string::*;

verus! {

/// Comparison operators.
#[derive(Debug, Clone, Copy, PartialEq, Eq, PartialOrd, Ord, Structural)]
pub enum BinaryOp {
    /// Equality.
    Eq,
    /// Not equal.
    Neq,
    /// Less than.
    Lt,
    /// Greater than.
    Gt,
    /// Less than or equal.
    Lte,
    /// Greater than or equal.
    Gte,
}

impl BinaryOp {
    /// The operator as it is written.
    pub open spec fn symbol(self) -> Seq<char> {
        match self {
            BinaryOp::Eq => "=="@,
            BinaryOp::Neq => "!="@,
            BinaryOp::Lt => "<"@,
            BinaryOp::Gt => ">"@,
            BinaryOp::Lte => "<="@,
            BinaryOp::Gte => ">="@,
        }
    }

    /// The operator as it is written.
    pub fn as_str(&self) -> (s: &'static str)
        ensures
            s@ == self.symbol(),
    {
        match self {
            BinaryOp::Eq => "==",
            BinaryOp::Neq => "!=",
            BinaryOp::Lt => "<",
            BinaryOp::Gt => ">",
            BinaryOp::Lte => "<=",
            BinaryOp::Gte => ">=",
        }
    }

    /// The operator as it is written, as an owned string.
    pub fn to_string(&self) -> (s: String)
        ensures
            s@ == self.symbol(),
    {
        String::from_str(self.as_str())
    }
}

/// Logical connectives.
#[derive(Debug, Clone, Copy, PartialEq, Eq, PartialOrd, Ord, Structural)]
pub enum LogicalOp {
    /// Logical AND.
    And,
    /// Logical OR.
    Or,
}

impl LogicalOp {
    /// The connective as it is written.
    pub open spec fn symbol(self) -> Seq<char> {
        match self {
            LogicalOp::And => "&&"@,
            LogicalOp::Or => "||"@,
        }
    }

    /// The connective as it is written.
    pub fn as_str(&self) -> (s: &'static str)
        ensures
            s@ == self.symbol(),
    {
        match self {
            LogicalOp::And => "&&",
            LogicalOp::Or => "||",
        }
    }

    /// The connective as it is written, as an owned string.
    pub fn to_string(&self) -> (s: String)
        ensures
            s@ == self.symbol(),
    {
        String::from_str(self.as_str())
    }
}

/// An expression tree representing an invariant's condition.
#[derive(Debug, PartialEq, Eq)]
#[allow(inconsistent_fields)]
pub enum Expression {
    /// Boolean literal.
    Boolean(bool),
    /// Variable reference.
    Var(String),
    /// Layer-qualified variable reference, such as `bundler::nonce`.
    LayerVar {
        /// Layer name.
        layer: String,
        /// Variable name within the layer.
        var: String,
    },
    /// Phase-qualified variable reference, such as
    /// `validation::account::balance`.
    PhaseQualifiedVar {
        /// Execution phase.
        phase: String,
        /// Layer name within that phase.
        layer: String,
        /// Variable name within the layer.
        var: String,
    },
    /// A condition that is to hold during one phase.
    PhaseConstraint {
        /// Phase to enforce the constraint in.
        phase: String,
        /// The condition.
        constraint: Box<Expression>,
    },
    /// A comparison of one value sampled in one phase with another sampled
    /// in a second phase.
    CrossPhaseRelation {
        /// First phase.
        phase1: String,
        /// Expression sampled in the first phase.
        expr1: Box<Expression>,
        /// Second phase.
        phase2: String,
        /// Expression sampled in the second phase.
        expr2: Box<Expression>,
        /// Relation operator.
        op: BinaryOp,
    },
    /// Integer constant.
    Int(i128),
    /// Comparison: left op right.
    BinaryOp {
        /// Left operand.
        left: Box<Expression>,
        /// Operator.
        op: BinaryOp,
        /// Right operand.
        right: Box<Expression>,
    },
    /// Logical connective: left op right.
    Logical {
        /// Left operand.
        left: Box<Expression>,
        /// Connective.
        op: LogicalOp,
        /// Right operand.
        right: Box<Expression>,
    },
    /// Logical negation.
    Not(Box<Expression>),
    /// Function call.
    FunctionCall {
        /// Function name.
        name: String,
        /// Arguments.
        args: Vec<Expression>,
    },
    /// Tuple of expressions.
    Tuple(Vec<Expression>),
}

/// An expression as a mathematical tree, with names as sequences of
/// characters.
#[allow(inconsistent_fields)]
pub enum ExprView {
    Boolean(bool),
    Var(Seq<char>),
    LayerVar { layer: Seq<char>, var: Seq<char> },
    PhaseQualifiedVar { phase: Seq<char>, layer: Seq<char>, var: Seq<char> },
    PhaseConstraint { phase: Seq<char>, constraint: Box<ExprView> },
    CrossPhaseRelation {
        phase1: Seq<char>,
        expr1: Box<ExprView>,
        phase2: Seq<char>,
        expr2: Box<ExprView>,
        op: BinaryOp,
    },
    Int(i128),
    BinaryOp { left: Box<ExprView>, op: BinaryOp, right: Box<ExprView> },
    Logical { left: Box<ExprView>, op: LogicalOp, right: Box<ExprView> },
    Not(Box<ExprView>),
    FunctionCall { name: Seq<char>, args: Seq<ExprView> },
    Tuple(Seq<ExprView>),
}

/// The tree that `e` stands for.
pub open spec fn expr_view(e: Expression) -> ExprView
    decreases e,
{
    match e {
        Expression::Boolean(b) => ExprView::Boolean(b),
        Expression::Var(name) => ExprView::Var(name@),
        Expression::LayerVar { layer, var } => ExprView::LayerVar { layer: layer@, var: var@ },
        Expression::PhaseQualifiedVar { phase, layer, var } => ExprView::PhaseQualifiedVar {
            phase: phase@,
            layer: layer@,
            var: var@,
        },
        Expression::PhaseConstraint { phase, constraint } => ExprView::PhaseConstraint {
            phase: phase@,
            constraint: Box::new(expr_view(*constraint)),
        },
        Expression::CrossPhaseRelation { phase1, expr1, phase2, expr2, op } => {
            ExprView::CrossPhaseRelation {
                phase1: phase1@,
                expr1: Box::new(expr_view(*expr1)),
                phase2: phase2@,
                expr2: Box::new(expr_view(*expr2)),
                op,
            }
        },
        Expression::Int(v) => ExprView::Int(v),
        Expression::BinaryOp { left, op, right } => ExprView::BinaryOp {
            left: Box::new(expr_view(*left)),
            op,
            right: Box::new(expr_view(*right)),
        },
        Expression::Logical { left, op, right } => ExprView::Logical {
            left: Box::new(expr_view(*left)),
            op,
            right: Box::new(expr_view(*right)),
        },
        Expression::Not(inner) => ExprView::Not(Box::new(expr_view(*inner))),
        Expression::FunctionCall { name, args } => ExprView::FunctionCall {
            name: name@,
            args: Seq::new(
                args.len() as nat,
                |i: int|
                    if 0 <= i < args.len() {
                        expr_view(args[i])
                    } else {
                        ExprView::Boolean(false)
                    },
            ),
        },
        Expression::Tuple(items) => ExprView::Tuple(
            Seq::new(
                items.len() as nat,
                |i: int|
                    if 0 <= i < items.len() {
                        expr_view(items[i])
                    } else {
                        ExprView::Boolean(false)
                    },
            ),
        ),
    }
}

/// The trees that a list of expressions stands for.
pub open spec fn exprs_view(es: Seq<Expression>) -> Seq<ExprView> {
    Seq::new(es.len(), |i: int| expr_view(es[i]))
}

impl View for Expression {
    type V = ExprView;

    open spec fn view(&self) -> ExprView {
        expr_view(*self)
    }
}

/// How an expression is written out: atoms as they are, compound
/// expressions in parentheses, arguments separated by a comma and a space.
pub open spec fn render(e: ExprView) -> Seq<char>
    decreases e, 0nat,
{
    match e {
        ExprView::Boolean(b) => if b {
            "true"@
        } else {
            "false"@
        },
        ExprView::Var(name) => name,
        ExprView::LayerVar { layer, var } => layer + "::"@ + var,
        ExprView::PhaseQualifiedVar { phase, layer, var } => phase + "::"@ + layer + "::"@ + var,
        ExprView::PhaseConstraint { phase, constraint } => "("@ + render(*constraint) + " @ "@
            + phase + ")"@,
        ExprView::CrossPhaseRelation { phase1, expr1, phase2, expr2, op } => "("@ + render(*expr1)
            + "["@ + phase1 + "] "@ + op.symbol() + " "@ + render(*expr2) + "["@ + phase2 + "])"@,
        ExprView::Int(v) => signed_decimal(v as int),
        ExprView::BinaryOp { left, op, right } => "("@ + render(*left) + " "@ + op.symbol() + " "@
            + render(*right) + ")"@,
        ExprView::Logical { left, op, right } => "("@ + render(*left) + " "@ + op.symbol() + " "@
            + render(*right) + ")"@,
        ExprView::Not(inner) => "!("@ + render(*inner) + ")"@,
        ExprView::FunctionCall { name, args } => name + "("@ + render_list(args, args.len())
            + ")"@,
        ExprView::Tuple(items) => "("@ + render_list(items, items.len()) + ")"@,
    }
}

/// The first `n` expressions of `es` written out, separated by a comma and
/// a space.
pub open spec fn render_list(es: Seq<ExprView>, n: nat) -> Seq<char>
    decreases es, n,
{
    if n == 0 || n > es.len() {
        Seq::<char>::empty()
    } else if n == 1 {
        render(es[0])
    } else {
        render_list(es, (n - 1) as nat) + ", "@ + render(es[n - 1])
    }
}

/// The view of a call holds the views of its arguments.
pub proof fn lemma_call_view(name: String, items: Vec<Expression>)
    ensures
        (Expression::FunctionCall { name, args: items })@ == (ExprView::FunctionCall {
            name: name@,
            args: exprs_view(items@),
        }),
{
    let v = expr_view(Expression::FunctionCall { name, args: items });
    assert(v matches ExprView::FunctionCall { name: n, args: a } && n == name@ && a =~= exprs_view(
        items@,
    ));
}

/// The view of a tuple holds the views of its items.
pub proof fn lemma_tuple_view(items: Vec<Expression>)
    ensures
        Expression::Tuple(items)@ == ExprView::Tuple(exprs_view(items@)),
{
    let v = expr_view(Expression::Tuple(items));
    assert(v matches ExprView::Tuple(a) && a =~= exprs_view(items@));
}

fn copy_list(items: &Vec<Expression>) -> (r: Vec<Expression>)
    ensures
        exprs_view(r@) == exprs_view(items@),
    decreases items, 0nat,
{
    let mut out: Vec<Expression> = Vec::new();
    let mut i: usize = 0;
    while i < items.len()
        invariant
            i <= items.len(),
            out.len() == i,
            forall|j: int| 0 <= j < i ==> expr_view(out@[j]) == expr_view(items@[j]),
        decreases items.len() - i,
    {
        let c = items[i].deep_copy();
        out.push(c);
        i += 1;
    }
    assert(exprs_view(out@) =~= exprs_view(items@));
    out
}

impl Expression {
    /// A copy of the whole tree.
    pub fn deep_copy(&self) -> (r: Expression)
        ensures
            r@ == self@,
        decreases self, 1nat,
    {
        match self {
            Expression::Boolean(b) => Expression::Boolean(*b),
            Expression::Var(name) => Expression::Var(name.clone()),
            Expression::LayerVar { layer, var } => Expression::LayerVar {
                layer: layer.clone(),
                var: var.clone(),
            },
            Expression::PhaseQualifiedVar { phase, layer, var } => Expression::PhaseQualifiedVar {
                phase: phase.clone(),
                layer: layer.clone(),
                var: var.clone(),
            },
            Expression::PhaseConstraint { phase, constraint } => Expression::PhaseConstraint {
                phase: phase.clone(),
                constraint: Box::new(constraint.deep_copy()),
            },
            Expression::CrossPhaseRelation { phase1, expr1, phase2, expr2, op } => {
                Expression::CrossPhaseRelation {
                    phase1: phase1.clone(),
                    expr1: Box::new(expr1.deep_copy()),
                    phase2: phase2.clone(),
                    expr2: Box::new(expr2.deep_copy()),
                    op: *op,
                }
            },
            Expression::Int(v) => Expression::Int(*v),
            Expression::BinaryOp { left, op, right } => Expression::BinaryOp {
                left: Box::new(left.deep_copy()),
                op: *op,
                right: Box::new(right.deep_copy()),
            },
            Expression::Logical { left, op, right } => Expression::Logical {
                left: Box::new(left.deep_copy()),
                op: *op,
                right: Box::new(right.deep_copy()),
            },
            Expression::Not(inner) => Expression::Not(Box::new(inner.deep_copy())),
            Expression::FunctionCall { name, args } => {
                let copied = copy_list(args);
                let n = name.clone();
                proof {
                    lemma_call_view(*name, *args);
                    lemma_call_view(n, copied);
                }
                Expression::FunctionCall { name: n, args: copied }
            },
            Expression::Tuple(items) => {
                let copied = copy_list(items);
                proof {
                    lemma_tuple_view(*items);
                    lemma_tuple_view(copied);
                }
                Expression::Tuple(copied)
            },
        }
    }
}

impl Expression {
    /// Appends the expression, written out, to `out`.
    pub fn write_to(&self, out: &mut String)
        ensures
            final(out)@ == old(out)@ + render(self@),
        decreases self, 2nat,
    {
        match self {
            Expression::Boolean(b) => {
                if *b {
                    out.append("true");
                } else {
                    out.append("false");
                }
            },
            Expression::Var(name) => {
                out.append(name.as_str());
            },
            Expression::Int(v) => {
                push_signed_decimal(out, *v);
            },
            Expression::LayerVar { .. } | Expression::PhaseQualifiedVar { .. } => {
                write_qualified(self, out);
            },
            Expression::PhaseConstraint { .. } | Expression::Not(_) => {
                write_wrapped(self, out);
            },
            Expression::CrossPhaseRelation { .. } => {
                write_relation(self, out);
            },
            Expression::BinaryOp { .. } | Expression::Logical { .. } => {
                write_infix(self, out);
            },
            Expression::FunctionCall { .. } | Expression::Tuple(_) => {
                write_group(self, out);
            },
        }
    }

    /// The expression written out.
    pub fn to_string(&self) -> (s: String)
        ensures
            s@ == render(self@),
    {
        let mut s = String::new();
        self.write_to(&mut s);
        assert(s@ =~= render(self@));
        s
    }
}

/// Writes a qualified variable.
fn write_qualified(e: &Expression, out: &mut String)
    requires
        e is LayerVar || e is PhaseQualifiedVar,
    ensures
        final(out)@ == old(out)@ + render(e@),
{
    match e {
        Expression::LayerVar { layer, var } => {
            out.append(layer.as_str());
            out.append("::");
            out.append(var.as_str());
            assert(out@ =~= old(out)@ + render(e@));
        },
        Expression::PhaseQualifiedVar { phase, layer, var } => {
            out.append(phase.as_str());
            out.append("::");
            out.append(layer.as_str());
            out.append("::");
            out.append(var.as_str());
            assert(out@ =~= old(out)@ + render(e@));
        },
        _ => {},
    }
}

/// Writes a negation or a phase constraint.
fn write_wrapped(e: &Expression, out: &mut String)
    requires
        e is Not || e is PhaseConstraint,
    ensures
        final(out)@ == old(out)@ + render(e@),
    decreases e, 1nat,
{
    let ghost base = out@;
    match e {
        Expression::Not(inner) => {
            out.append("!(");
            inner.write_to(out);
            assert(out@ =~= base + ("!("@ + render(inner@)));
            out.append(")");
            assert(out@ =~= base + render(e@));
        },
        Expression::PhaseConstraint { phase, constraint } => {
            out.append("(");
            constraint.write_to(out);
            assert(out@ =~= base + ("("@ + render(constraint@)));
            out.append(" @ ");
            out.append(phase.as_str());
            assert(out@ =~= base + ("("@ + render(constraint@) + " @ "@ + phase@));
            out.append(")");
            assert(out@ =~= base + render(e@));
        },
        _ => {},
    }
}

/// Writes a comparison or a logical connective.
fn write_infix(e: &Expression, out: &mut String)
    requires
        e is BinaryOp || e is Logical,
    ensures
        final(out)@ == old(out)@ + render(e@),
    decreases e, 1nat,
{
    let ghost base = out@;
    match e {
        Expression::BinaryOp { left, op, right } => {
            out.append("(");
            left.write_to(out);
            assert(out@ =~= base + ("("@ + render(left@)));
            out.append(" ");
            out.append(op.as_str());
            out.append(" ");
            assert(out@ =~= base + ("("@ + render(left@) + " "@ + op.symbol() + " "@));
            right.write_to(out);
            assert(out@ =~= base + ("("@ + render(left@) + " "@ + op.symbol() + " "@ + render(
                right@,
            )));
            out.append(")");
            assert(out@ =~= base + render(e@));
        },
        Expression::Logical { left, op, right } => {
            out.append("(");
            left.write_to(out);
            assert(out@ =~= base + ("("@ + render(left@)));
            out.append(" ");
            out.append(op.as_str());
            out.append(" ");
            assert(out@ =~= base + ("("@ + render(left@) + " "@ + op.symbol() + " "@));
            right.write_to(out);
            assert(out@ =~= base + ("("@ + render(left@) + " "@ + op.symbol() + " "@ + render(
                right@,
            )));
            out.append(")");
            assert(out@ =~= base + render(e@));
        },
        _ => {},
    }
}

/// Writes a cross-phase relation.
fn write_relation(e: &Expression, out: &mut String)
    requires
        e is CrossPhaseRelation,
    ensures
        final(out)@ == old(out)@ + render(e@),
    decreases e, 1nat,
{
    let ghost base = out@;
    match e {
        Expression::CrossPhaseRelation { phase1, expr1, phase2, expr2, op } => {
            out.append("(");
            expr1.write_to(out);
            assert(out@ =~= base + ("("@ + render(expr1@)));
            out.append("[");
            out.append(phase1.as_str());
            out.append("] ");
            assert(out@ =~= base + ("("@ + render(expr1@) + "["@ + phase1@ + "] "@));
            out.append(op.as_str());
            out.append(" ");
            assert(out@ =~= base + ("("@ + render(expr1@) + "["@ + phase1@ + "] "@ + op.symbol()
                + " "@));
            expr2.write_to(out);
            assert(out@ =~= base + ("("@ + render(expr1@) + "["@ + phase1@ + "] "@ + op.symbol()
                + " "@ + render(expr2@)));
            out.append("[");
            out.append(phase2.as_str());
            assert(out@ =~= base + ("("@ + render(expr1@) + "["@ + phase1@ + "] "@ + op.symbol()
                + " "@ + render(expr2@) + "["@ + phase2@));
            out.append("])");
            assert(out@ =~= base + render(e@));
        },
        _ => {},
    }
}

/// Writes a call or a tuple.
fn write_group(e: &Expression, out: &mut String)
    requires
        e is FunctionCall || e is Tuple,
    ensures
        final(out)@ == old(out)@ + render(e@),
    decreases e, 1nat,
{
    let ghost base = out@;
    match e {
        Expression::FunctionCall { name, args } => {
            proof {
                lemma_call_view(*name, *args);
            }
            out.append(name.as_str());
            out.append("(");
            assert(out@ =~= base + (name@ + "("@));
            write_list(args, out);
            assert(out@ =~= base + (name@ + "("@ + render_list(
                exprs_view(args@),
                args.len() as nat,
            )));
            out.append(")");
            assert(out@ =~= base + render(e@));
        },
        Expression::Tuple(items) => {
            proof {
                lemma_tuple_view(*items);
            }
            out.append("(");
            write_list(items, out);
            assert(out@ =~= base + ("("@ + render_list(exprs_view(items@), items.len() as nat)));
            out.append(")");
            assert(out@ =~= base + render(e@));
        },
        _ => {},
    }
}

fn write_list(items: &Vec<Expression>, out: &mut String)
    ensures
        final(out)@ == old(out)@ + render_list(exprs_view(items@), items.len() as nat),
    decreases items, 0nat,
{
    let ghost es = exprs_view(items@);
    let mut i: usize = 0;
    assert(out@ =~= old(out)@ + render_list(es, 0));
    while i < items.len()
        invariant
            i <= items.len(),
            es == exprs_view(items@),
            out@ == old(out)@ + render_list(es, i as nat),
        decreases items.len() - i,
    {
        let ghost before = out@;
        if i > 0 {
            out.append(", ");
        }
        items[i].write_to(out);
        proof {
            assert(es[i as int] == items@[i as int]@);
            assert(out@ =~= old(out)@ + render_list(es, (i + 1) as nat));
        }
        i += 1;
    }
}

impl Clone for Expression {
    fn clone(&self) -> (r: Self)
        ensures
            r@ == self@,
    {
        self.deep_copy()
    }
}

/// An invariant: a named condition with its metadata.
#[derive(Debug)]
pub struct Invariant {
    /// Unique identifier for the invariant.
    pub name: String,
    /// Human-readable description.
    pub description: Option<String>,
    /// The condition.
    pub expression: Expression,
    /// Severity level: "critical", "high", "medium", "low".
    pub severity: String,
    /// Category, a free string.
    pub category: String,
    /// Whether this invariant should always hold.
    pub is_always_true: bool,
    /// Layers that the invariant is about. Empty means all layers.
    pub layers: Vec<String>,
    /// Phases in which the invariant must hold. Empty means all phases.
    pub phases: Vec<String>,
}

/// The text of an optional string.
pub open spec fn option_view(v: Option<String>) -> Option<Seq<char>> {
    match v {
        Some(s) => Some(s@),
        None => None,
    }
}

/// An invariant with its texts as sequences of characters.
pub struct InvariantView {
    pub name: Seq<char>,
    pub description: Option<Seq<char>>,
    pub expression: ExprView,
    pub severity: Seq<char>,
    pub category: Seq<char>,
    pub is_always_true: bool,
    pub layers: Seq<Seq<char>>,
    pub phases: Seq<Seq<char>>,
}

impl View for Invariant {
    type V = InvariantView;

    open spec fn view(&self) -> InvariantView {
        InvariantView {
            name: self.name@,
            description: option_view(self.description),
            expression: self.expression@,
            severity: self.severity@,
            category: self.category@,
            is_always_true: self.is_always_true,
            layers: strings_view(self.layers@),
            phases: strings_view(self.phases@),
        }
    }
}

/// A copy of a list of strings.
pub fn copy_strings(v: &Vec<String>) -> (r: Vec<String>)
    ensures
        strings_view(r@) == strings_view(v@),
{
    let mut out: Vec<String> = Vec::new();
    let mut i: usize = 0;
    while i < v.len()
        invariant
            i <= v.len(),
            out.len() == i,
            forall|j: int| 0 <= j < i ==> out@[j]@ == v@[j]@,
        decreases v.len() - i,
    {
        out.push(v[i].clone());
        i += 1;
    }
    assert(strings_view(out@) =~= strings_view(v@));
    out
}

/// A copy of an optional string.
pub fn copy_option(v: &Option<String>) -> (r: Option<String>)
    ensures
        option_view(r) == option_view(*v),
{
    match v {
        Some(s) => Some(s.clone()),
        None => None,
    }
}

impl Clone for Invariant {
    fn clone(&self) -> (r: Self)
        ensures
            r@ == self@,
    {
        Invariant {
            name: self.name.clone(),
            description: copy_option(&self.description),
            expression: self.expression.deep_copy(),
            severity: self.severity.clone(),
            category: self.category.clone(),
            is_always_true: self.is_always_true,
            layers: copy_strings(&self.layers),
            phases: copy_strings(&self.phases),
        }
    }
}

/// A state variable in a program.
#[derive(Debug)]
pub struct StateVar {
    /// Variable name.
    pub name: String,
    /// Data type, as the chain names it.
    pub declared_type: String,
    /// Whether it's mutable.
    pub is_mutable: bool,
    /// Visibility: "public", "private", "internal", etc.
    pub visibility: Option<String>,
}

impl Clone for StateVar {
    fn clone(&self) -> (r: Self)
        ensures
            r.name@ == self.name@,
            r.declared_type@ == self.declared_type@,
            r.is_mutable == self.is_mutable,
            option_view(r.visibility) == option_view(self.visibility),
    {
        StateVar {
            name: self.name.clone(),
            declared_type: self.declared_type.clone(),
            is_mutable: self.is_mutable,
            visibility: copy_option(&self.visibility),
        }
    }
}

/// A function or entry point in a program.
#[derive(Debug)]
pub struct FunctionModel {
    /// Function name.
    pub name: String,
    /// Parameter names.
    pub parameters: Vec<String>,
    /// Return type.
    pub return_type: Option<String>,
    /// State variables this function mutates.
    pub mutates: OrderedSet,
    /// State variables this function reads.
    pub reads: OrderedSet,
    /// Whether this is an entry point.
    pub is_entry_point: bool,
    /// Whether it's pure/view (doesn't mutate state).
    pub is_pure: bool,
}

impl Clone for FunctionModel {
    fn clone(&self) -> (r: Self)
        ensures
            r.name@ == self.name@,
            strings_view(r.parameters@) == strings_view(self.parameters@),
            option_view(r.return_type) == option_view(self.return_type),
            r.mutates@ == self.mutates@,
            r.reads@ == self.reads@,
            r.is_entry_point == self.is_entry_point,
            r.is_pure == self.is_pure,
    {
        FunctionModel {
            name: self.name.clone(),
            parameters: copy_strings(&self.parameters),
            return_type: copy_option(&self.return_type),
            mutates: self.mutates.copy(),
            reads: self.reads.copy(),
            is_entry_point: self.is_entry_point,
            is_pure: self.is_pure,
        }
    }
}

/// A complete program model extracted from source code. Its tables are
/// walked in the order of their keys.
#[derive(Debug, Clone)]
pub struct ProgramModel {
    /// Program/contract/module name.
    pub name: String,
    /// State variables, by name.
    pub state_vars: OrderedMap<StateVar>,
    /// Functions/entry points, by name.
    pub functions: OrderedMap<FunctionModel>,
    /// For each function, the state variables that it mutates.
    pub mutation_graph: OrderedMap<OrderedSet>,
    /// Chain: "solana", "evm", "move".
    pub chain: String,
    /// Source file path.
    pub source_path: String,
}

impl ProgramModel {
    /// Create a new program model.
    pub fn new(name: String, chain: String, source_path: String) -> (p: Self)
        ensures
            p.name == name,
            p.chain == chain,
            p.source_path == source_path,
            p.state_vars@ == Map::<Seq<char>, StateVar>::empty(),
            p.functions@ == Map::<Seq<char>, FunctionModel>::empty(),
            p.mutation_graph@ == Map::<Seq<char>, OrderedSet>::empty(),
    {
        ProgramModel {
            name,
            chain,
            source_path,
            state_vars: OrderedMap::new(),
            functions: OrderedMap::new(),
            mutation_graph: OrderedMap::new(),
        }
    }

    /// Add a state variable to the model, under its name.
    pub fn add_state_var(&mut self, var: StateVar)
        ensures
            final(self).state_vars@ == old(self).state_vars@.insert(var.name@, var),
            final(self).functions == old(self).functions,
            final(self).mutation_graph == old(self).mutation_graph,
            final(self).name == old(self).name,
            final(self).chain == old(self).chain,
            final(self).source_path == old(self).source_path,
    {
        let key = var.name.clone();
        self.state_vars.insert(key, var);
    }

    /// Add a function to the model, under its name, and record what it
    /// mutates.
    pub fn add_function(&mut self, func: FunctionModel)
        ensures
            final(self).functions@ == old(self).functions@.insert(func.name@, func),
            final(self).mutation_graph@.dom() == old(self).mutation_graph@.dom().insert(func.name@),
            final(self).mutation_graph@[func.name@]@ == func.mutates@,
            forall|k: Seq<char>|
                k != func.name@ && old(self).mutation_graph@.contains_key(k)
                    ==> final(self).mutation_graph@[k] == old(self).mutation_graph@[k],
            final(self).state_vars == old(self).state_vars,
            final(self).name == old(self).name,
            final(self).chain == old(self).chain,
            final(self).source_path == old(self).source_path,
    {
        let key = func.name.clone();
        let mutated = func.mutates.copy();
        self.mutation_graph.insert(key, mutated);
        assert(self.mutation_graph@.dom() =~= old(self).mutation_graph@.dom().insert(func.name@));
        let key2 = func.name.clone();
        self.functions.insert(key2, func);
    }
}

/// Output from code generation.
#[derive(Debug, Clone)]
pub struct GenerationOutput {
    /// The generated code.
    pub code: String,
    /// Assertions injected.
    pub assertions: Vec<String>,
    /// Generated tests (if any).
    pub tests: Option<String>,
    /// Coverage percentage (0-100).
    pub coverage_percent: u8,
}

} // verus!
