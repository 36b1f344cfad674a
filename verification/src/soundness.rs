//! What type checking promises of evaluation.

use crate::evaluator::{
    appended, asks_right, called, compared, connected, layer_key, may_eval, may_eval_list, negated,
    phase_key, resolve, Arguments, Callable, ContextView, EvalErrorView, Outcome, ValueView,
};
use crate::model::ExprView;
use crate::type_checker::{infer, infer_args, EnvView, SignatureView};
use crate::types::{Type, TypeErrorView};
use vstd::prelude::*;

verus! {

/// Whether the values `args` have the types `params`, one for one.
pub open spec fn arguments_fit(args: Seq<ValueView>, params: Seq<Type>) -> bool {
    &&& args.len() == params.len()
    &&& forall|i: int| 0 <= i < args.len() ==> (#[trigger] args[i]).type_of() == params[i]
}

/// Whether an outcome is a value of type `t` or an error other than a
/// type error.
pub open spec fn respects(o: Outcome, t: Type) -> bool {
    match o {
        Ok(value) => value.type_of() == t,
        Err(e) => e != EvalErrorView::TypeError,
    }
}

/// Whether a variable that resolves to `found` and is declared as
/// `declared` has a value of its declared type. Nothing is asked of a
/// variable that does not resolve or is not declared.
pub open spec fn bound_as_declared(found: Outcome, declared: Result<Type, TypeErrorView>) -> bool {
    match (found, declared) {
        (Ok(value), Ok(t)) => value.type_of() == t,
        _ => true,
    }
}

/// Whether a registered function keeps to a signature: it is a verified
/// function that, given arguments of the parameter types, returns a value
/// of the return type or an error other than a type error. A native
/// function keeps to no signature, since a call of it can come to
/// anything.
pub open spec fn keeps_to(f: Callable, sig: SignatureView) -> bool {
    match f {
        Callable::Pure(g) => forall|args: Seq<ValueView>|
            arguments_fit(args, sig.params) ==> respects(#[trigger] g.apply(args), sig.return_type),
        Callable::Native(_) => false,
    }
}

/// Whether a context supplies what an environment declares, as far as
/// `e` asks for it: each variable of `e` is bound as it is declared, and
/// each function that `e` calls keeps to its signature. Nothing is asked
/// of a name that `e` does not hold.
pub open spec fn supplies(ctx: ContextView, env: EnvView, e: ExprView) -> bool
    decreases e,
{
    match e {
        ExprView::Boolean(_) => true,
        ExprView::Int(_) => true,
        ExprView::Var(name) => bound_as_declared(
            resolve(ctx.vars, seq![name], name),
            infer(env, e),
        ),
        ExprView::LayerVar { layer, var } => bound_as_declared(
            resolve(ctx.vars, seq![layer_key(layer, var), var], layer_key(layer, var)),
            infer(env, e),
        ),
        ExprView::PhaseQualifiedVar { phase, layer, var } => bound_as_declared(
            resolve(
                ctx.vars,
                seq![phase_key(phase, layer, var), layer_key(layer, var), var],
                phase_key(phase, layer, var),
            ),
            infer(env, e),
        ),
        ExprView::PhaseConstraint { phase, constraint } => supplies(ctx, env, *constraint),
        ExprView::CrossPhaseRelation { phase1, expr1, phase2, expr2, op } => supplies(
            ctx,
            env,
            *expr1,
        ) && supplies(ctx, env, *expr2),
        ExprView::BinaryOp { left, op, right } => supplies(ctx, env, *left) && supplies(
            ctx,
            env,
            *right,
        ),
        ExprView::Logical { left, op, right } => supplies(ctx, env, *left) && supplies(
            ctx,
            env,
            *right,
        ),
        ExprView::Not(inner) => supplies(ctx, env, *inner),
        ExprView::FunctionCall { name, args } => {
            &&& forall|i: int| 0 <= i < args.len() ==> supplies(ctx, env, #[trigger] args[i])
            &&& ctx.funcs.contains_key(name) && env.funcs.contains_key(name) ==> keeps_to(
                ctx.funcs[name],
                env.funcs[name],
            )
        },
        ExprView::Tuple(items) => items.len() > 0 ==> supplies(ctx, env, items[0]),
    }
}

/// Type safety: an expression that type-checks never evaluates to a type
/// error, and where it evaluates to a value, the value has the type that
/// checking gave the expression, provided the context supplies what the
/// environment declares of the names in the expression.
pub proof fn law_type_safety(ctx: ContextView, env: EnvView, e: ExprView, o: Outcome)
    requires
        infer(env, e) is Ok,
        supplies(ctx, env, e),
        may_eval(ctx, e, o),
    ensures
        respects(o, infer(env, e)->Ok_0),
    decreases e, 0nat,
{
    match e {
        ExprView::Boolean(_) => {},
        ExprView::Int(v) => {},
        ExprView::Var(name) => {
            lemma_resolve_error(ctx.vars, seq![name], name);
        },
        ExprView::LayerVar { layer, var } => {
            lemma_resolve_error(ctx.vars, seq![layer_key(layer, var), var], layer_key(layer, var));
        },
        ExprView::PhaseQualifiedVar { phase, layer, var } => {
            lemma_resolve_error(
                ctx.vars,
                seq![phase_key(phase, layer, var), layer_key(layer, var), var],
                phase_key(phase, layer, var),
            );
        },
        ExprView::PhaseConstraint { phase, constraint } => {
            law_type_safety(ctx, env, *constraint, o);
        },
        ExprView::CrossPhaseRelation { phase1, expr1, phase2, expr2, op } => {
            let (l, r) = choose|l: Outcome, r: Outcome|
                #![trigger compared(l, op, r)]
                may_eval(ctx, *expr1, l) && (l is Ok ==> may_eval(ctx, *expr2, r)) && o
                    == compared(l, op, r);
            law_type_safety(ctx, env, *expr1, l);
            if l is Ok {
                law_type_safety(ctx, env, *expr2, r);
            }
        },
        ExprView::BinaryOp { left, op, right } => {
            let (l, r) = choose|l: Outcome, r: Outcome|
                #![trigger compared(l, op, r)]
                may_eval(ctx, *left, l) && (l is Ok ==> may_eval(ctx, *right, r)) && o == compared(
                    l,
                    op,
                    r,
                );
            law_type_safety(ctx, env, *left, l);
            if l is Ok {
                law_type_safety(ctx, env, *right, r);
            }
        },
        ExprView::Logical { left, op, right } => {
            let (l, r) = choose|l: Outcome, r: Outcome|
                #![trigger connected(l, op, r)]
                may_eval(ctx, *left, l) && (asks_right(l, op) ==> may_eval(ctx, *right, r)) && o
                    == connected(l, op, r);
            law_type_safety(ctx, env, *left, l);
            if asks_right(l, op) {
                law_type_safety(ctx, env, *right, r);
            }
        },
        ExprView::Not(inner) => {
            let v = choose|v: Outcome|
                #![trigger negated(v)]
                may_eval(ctx, *inner, v) && o == negated(v);
            law_type_safety(ctx, env, *inner, v);
        },
        ExprView::FunctionCall { name, args } => {
            if ctx.funcs.contains_key(name) {
                let a = choose|a: Arguments|
                    #![trigger called(ctx.funcs[name], a, o)]
                    may_eval_list(ctx, args, args.len(), a) && called(ctx.funcs[name], a, o);
                let sig = env.funcs[name];
                lemma_arguments(ctx, env, name, args, sig.params, args.len(), a);
                assert(sig.params.take(args.len() as int) =~= sig.params);
            }
        },
        ExprView::Tuple(items) => {
            if items.len() > 0 {
                law_type_safety(ctx, env, items[0], o);
            }
        },
    }
}

/// Resolving a name either finds a value or reports the name undefined.
proof fn lemma_resolve_error(
    vars: Map<Seq<char>, ValueView>,
    keys: Seq<Seq<char>>,
    missing: Seq<char>,
)
    ensures
        resolve(vars, keys, missing) is Err ==> resolve(vars, keys, missing) == Err::<
            ValueView,
            EvalErrorView,
        >(EvalErrorView::UndefinedVariable(missing)),
    decreases keys.len(),
{
    if keys.len() > 0 {
        lemma_resolve_error(vars, keys.drop_first(), missing);
    }
}

/// The arguments of a call that type-checks evaluate to values of the
/// parameter types, or to an error other than a type error.
proof fn lemma_arguments(
    ctx: ContextView,
    env: EnvView,
    name: Seq<char>,
    args: Seq<ExprView>,
    params: Seq<Type>,
    n: nat,
    a: Arguments,
)
    requires
        forall|i: int| 0 <= i < args.len() ==> supplies(ctx, env, #[trigger] args[i]),
        n <= args.len(),
        args.len() == params.len(),
        infer_args(env, name, args, params, n) is None,
        may_eval_list(ctx, args, n, a),
    ensures
        match a {
            Ok(values) => arguments_fit(values, params.take(n as int)),
            Err(e) => e != EvalErrorView::TypeError,
        },
    decreases args, n,
{
    if n > 0 {
        let (before, last) = choose|before: Arguments, last: Outcome|
            #![trigger appended(before, last)]
            may_eval_list(ctx, args, (n - 1) as nat, before) && (before is Ok ==> may_eval(
                ctx,
                args[n - 1],
                last,
            )) && a == appended(before, last);
        lemma_arguments(ctx, env, name, args, params, (n - 1) as nat, before);
        match before {
            Ok(values) => {
                law_type_safety(ctx, env, args[n - 1], last);
                match last {
                    Ok(v) => {
                        let all = values.push(v);
                        assert forall|i: int| 0 <= i < all.len() implies (#[trigger] all[i]).type_of()
                            == params.take(n as int)[i] by {
                            if i < n - 1 {
                                assert(all[i] == values[i]);
                                assert(params.take((n - 1) as int)[i] == params[i]);
                            }
                        }
                    },
                    Err(_) => {},
                }
            },
            Err(_) => {},
        }
    }
}

} // verus!
