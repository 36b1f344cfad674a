//! Defences that keep invariant expressions inside their sandbox and
//! generated instrumentation honest.

use crate::model::{exprs_view, lemma_call_view, lemma_tuple_view};
use crate::model::{ExprView, Expression};
use crate::ordmap::OrderedMap;
use crate::text::{
    contains_chars, contains_seq, decimal, hex16, hex16_string, join2, join3, join_strings,
    join_texts, lemma_sorted_texts_of_rearrangement, lowercase, push_decimal, sorted_copy,
    sorted_texts, starts_with_seq, str_eq, strings_view, to_chars, to_lowercase,
};
use std::collections::hash_map::DefaultHasher;
use std::hash::Hasher;
use vstd::prelude::*;
use vstd::std_specs::hash::*;
use vstd::string::*;
use vstd::utf8::*;

verus! {

/// Which defences are switched on.
#[derive(Debug, Clone)]
pub struct ThreatModelConfig {
    /// Require strict mutation detection (abort if uncertain).
    pub strict_mode: bool,
    /// Validate all generated code by reading it again.
    pub re_parse_verification: bool,
    /// Detect tamper attempts via hash checking.
    pub tamper_detection_enabled: bool,
    /// Validate expressions for sandbox escapes.
    pub dsl_sandboxing_enabled: bool,
    /// Verify simulation isolation.
    pub isolation_verification: bool,
}

impl Default for ThreatModelConfig {
    fn default() -> (c: Self)
        ensures
            c.strict_mode,
            c.re_parse_verification,
            c.tamper_detection_enabled,
            c.dsl_sandboxing_enabled,
            c.isolation_verification,
    {
        ThreatModelConfig {
            strict_mode: true,
            re_parse_verification: true,
            tamper_detection_enabled: true,
            dsl_sandboxing_enabled: true,
            isolation_verification: true,
        }
    }
}

/// Threat model validation errors.
#[derive(Debug, Clone, PartialEq, Eq)]
pub enum ThreatModelError {
    /// Generated code does not hold what it should, or holds what it
    /// should not.
    ReParseVerificationFailed(String),
    /// Instrumentation was changed after it was generated.
    TamperDetected(String),
    /// An expression reaches outside the sandbox.
    SandboxEscapeDetected(String),
    /// Mutation detection was uncertain in strict mode.
    MutationUncertaintyDetected(String),
    /// A simulation context is not isolated.
    IsolationViolationDetected(String),
    /// Custom threat.
    Custom(String),
}

/// A threat model error with its message as a sequence of characters.
pub enum ThreatErrorView {
    ReParseVerificationFailed(Seq<char>),
    TamperDetected(Seq<char>),
    SandboxEscapeDetected(Seq<char>),
    MutationUncertaintyDetected(Seq<char>),
    IsolationViolationDetected(Seq<char>),
    Custom(Seq<char>),
}

impl View for ThreatModelError {
    type V = ThreatErrorView;

    open spec fn view(&self) -> ThreatErrorView {
        match self {
            ThreatModelError::ReParseVerificationFailed(m) => {
                ThreatErrorView::ReParseVerificationFailed(m@)
            },
            ThreatModelError::TamperDetected(m) => ThreatErrorView::TamperDetected(m@),
            ThreatModelError::SandboxEscapeDetected(m) => ThreatErrorView::SandboxEscapeDetected(
                m@,
            ),
            ThreatModelError::MutationUncertaintyDetected(m) => {
                ThreatErrorView::MutationUncertaintyDetected(m@)
            },
            ThreatModelError::IsolationViolationDetected(m) => {
                ThreatErrorView::IsolationViolationDetected(m@)
            },
            ThreatModelError::Custom(m) => ThreatErrorView::Custom(m@),
        }
    }
}

/// The sentence that reports a threat model error.
pub open spec fn threat_error_text(e: ThreatErrorView) -> Seq<char> {
    match e {
        ThreatErrorView::ReParseVerificationFailed(m) => "re-parse verification failed: "@ + m,
        ThreatErrorView::TamperDetected(m) => "macro tampering detected: "@ + m,
        ThreatErrorView::SandboxEscapeDetected(m) => "DSL sandbox escape: "@ + m,
        ThreatErrorView::MutationUncertaintyDetected(m) => "mutation uncertainty in strict mode: "@
            + m,
        ThreatErrorView::IsolationViolationDetected(m) => "simulation isolation violation: "@ + m,
        ThreatErrorView::Custom(m) => m,
    }
}

impl ThreatModelError {
    /// The sentence that reports this error.
    pub fn to_string(&self) -> (s: String)
        ensures
            s@ == threat_error_text(self@),
    {
        match self {
            ThreatModelError::ReParseVerificationFailed(m) => join2(
                "re-parse verification failed: ",
                m.as_str(),
            ),
            ThreatModelError::TamperDetected(m) => join2("macro tampering detected: ", m.as_str()),
            ThreatModelError::SandboxEscapeDetected(m) => join2("DSL sandbox escape: ", m.as_str()),
            ThreatModelError::MutationUncertaintyDetected(m) => join2(
                "mutation uncertainty in strict mode: ",
                m.as_str(),
            ),
            ThreatModelError::IsolationViolationDetected(m) => join2(
                "simulation isolation violation: ",
                m.as_str(),
            ),
            ThreatModelError::Custom(m) => m.clone(),
        }
    }
}

/// Result type for threat model validation.
pub type ThreatResult<T> = Result<T, ThreatModelError>;

/// The view of a validation result.
pub open spec fn verdict(r: ThreatResult<()>) -> Result<(), ThreatErrorView> {
    match r {
        Ok(_) => Ok(()),
        Err(e) => Err(e@),
    }
}

/// The comment that generated code carries for a check.
pub open spec fn coverage_marker(check: Seq<char>) -> Seq<char> {
    "// Invariant: "@ + check
}

/// Whether generated code carries the comment of each check, and if not,
/// the error that names the first check, in the order of the list, whose
/// comment is missing.
pub open spec fn coverage_verdict(code: Seq<char>, checks: Seq<Seq<char>>) -> Result<
    (),
    ThreatErrorView,
>
    decreases checks.len(),
{
    if checks.len() == 0 {
        Ok(())
    } else if !contains_seq(code, coverage_marker(checks[0])) {
        Err(ThreatErrorView::ReParseVerificationFailed(checks[0]))
    } else {
        coverage_verdict(code, checks.drop_first())
    }
}

/// The tokens that generated code must not hold, in the order in which
/// they are looked for.
pub open spec fn dangerous_tokens() -> Seq<Seq<char>> {
    seq!["unsafe"@, "extern"@, "use std::process"@, "std::fs"@, "std::net"@]
}

/// Whether generated code holds none of `tokens`, and if not, the error
/// that names the first of them, in the order of the list, that it holds.
pub open spec fn scope_verdict(code: Seq<char>, tokens: Seq<Seq<char>>) -> Result<
    (),
    ThreatErrorView,
>
    decreases tokens.len(),
{
    if tokens.len() == 0 {
        Ok(())
    } else if contains_seq(code, tokens[0]) {
        Err(
            ThreatErrorView::ReParseVerificationFailed(
                "dangerous pattern found in generated code: "@ + tokens[0],
            ),
        )
    } else {
        scope_verdict(code, tokens.drop_first())
    }
}

/// Checks generated code for the comments and tokens it must and must not
/// hold.
pub struct InjectionVerifier;

impl InjectionVerifier {
    /// Verify that generated code carries the comment of every expected
    /// check.
    pub fn verify_coverage(generated_code: &str, expected_checks: &[String]) -> (r: ThreatResult<
        (),
    >)
        ensures
            verdict(r) == coverage_verdict(generated_code@, strings_view(expected_checks@)),
    {
        let code = to_chars(generated_code);
        let ghost checks = strings_view(expected_checks@);
        let mut i: usize = 0;
        proof {
            assert(checks.skip(0) =~= checks);
        }
        while i < expected_checks.len()
            invariant
                i <= expected_checks.len(),
                code@ == generated_code@,
                checks == strings_view(expected_checks@),
                coverage_verdict(generated_code@, checks) == coverage_verdict(
                    generated_code@,
                    checks.skip(i as int),
                ),
            decreases expected_checks.len() - i,
        {
            let check = &expected_checks[i];
            let marker = join2("// Invariant: ", check.as_str());
            let wanted = to_chars(marker.as_str());
            proof {
                assert(checks.skip(i as int)[0] == check@);
                assert(checks.skip(i as int).drop_first() =~= checks.skip(i + 1));
            }
            if !contains_chars(code.as_slice(), wanted.as_slice()) {
                return Err(ThreatModelError::ReParseVerificationFailed(check.clone()));
            }
            i += 1;
        }
        Ok(())
    }

    /// Verify that generated code holds none of the dangerous tokens.
    pub fn verify_scope_containment(generated_code: &str) -> (r: ThreatResult<()>)
        ensures
            verdict(r) == scope_verdict(generated_code@, dangerous_tokens()),
    {
        let code = to_chars(generated_code);
        let ghost tokens = dangerous_tokens();
        let mut i: usize = 0;
        proof {
            assert(tokens.skip(0) =~= tokens);
        }
        while i < 5
            invariant
                i <= 5,
                code@ == generated_code@,
                tokens == dangerous_tokens(),
                scope_verdict(generated_code@, tokens) == scope_verdict(
                    generated_code@,
                    tokens.skip(i as int),
                ),
            decreases 5 - i,
        {
            let pattern = dangerous_token(i);
            let wanted = to_chars(pattern);
            proof {
                assert(tokens.skip(i as int)[0] == pattern@);
                assert(tokens.skip(i as int).drop_first() =~= tokens.skip(i + 1));
            }
            if contains_chars(code.as_slice(), wanted.as_slice()) {
                return Err(
                    ThreatModelError::ReParseVerificationFailed(
                        join2("dangerous pattern found in generated code: ", pattern),
                    ),
                );
            }
            i += 1;
        }
        Ok(())
    }
}

fn dangerous_token(i: usize) -> (t: &'static str)
    requires
        i < 5,
    ensures
        t@ == dangerous_tokens()[i as int],
{
    if i == 0 {
        "unsafe"
    } else if i == 1 {
        "extern"
    } else if i == 2 {
        "use std::process"
    } else if i == 3 {
        "std::fs"
    } else {
        "std::net"
    }
}

/// What is fed to the hasher for a list of strings: for each string its
/// UTF-8 bytes, then one byte 255.
pub open spec fn hash_writes(items: Seq<Seq<char>>) -> Seq<Seq<u8>>
    decreases items.len(),
{
    if items.len() == 0 {
        Seq::<Seq<u8>>::empty()
    } else {
        hash_writes(items.drop_last()).push(encode_utf8(items.last())).push(seq![255u8])
    }
}

/// The tamper hash of a list of checks: the checks are sorted, fed to the
/// hasher in that order, and the 64-bit result is written as sixteen
/// hexadecimal digits.
pub open spec fn tamper_hash(checks: Seq<Seq<char>>) -> Seq<char> {
    hex16(DefaultHasher::spec_finish(hash_writes(sorted_texts(checks))))
}

/// The line that generated code carries for its checks.
pub open spec fn hash_marker(checks: Seq<Seq<char>>) -> Seq<char> {
    "INVAR_HASH: "@ + tamper_hash(checks)
}

/// The tamper hash does not depend on the order of the checks: two lists
/// that hold the same checks equally often have the same hash.
pub proof fn law_hash_ignores_order(a: Seq<Seq<char>>, b: Seq<Seq<char>>)
    requires
        a.to_multiset() == b.to_multiset(),
    ensures
        tamper_hash(a) == tamper_hash(b),
{
    lemma_sorted_texts_of_rearrangement(a, b);
}

/// Two lists of checks that are the same once sorted have the same tamper
/// hash.
pub proof fn law_hash_of_sorted(a: Seq<Seq<char>>, b: Seq<Seq<char>>)
    requires
        sorted_texts(a) == sorted_texts(b),
    ensures
        tamper_hash(a) == tamper_hash(b),
{
}

/// Detects changes to instrumentation through a hash of its checks.
pub struct TamperDetector;

impl TamperDetector {
    /// Compute the hash of a list of checks, whatever their order.
    pub fn compute_hash(checks: &[String]) -> (h: String)
        ensures
            h@ == tamper_hash(strings_view(checks@)),
            h@.len() == 16,
    {
        let sorted = sorted_copy(checks);
        let mut hasher = DefaultHasher::new();
        let mut marker: Vec<u8> = Vec::new();
        marker.push(255u8);
        let ghost items = strings_view(sorted@);
        let mut i: usize = 0;
        proof {
            assert(items.take(0) =~= Seq::<Seq<char>>::empty());
        }
        while i < sorted.len()
            invariant
                i <= sorted.len(),
                items == strings_view(sorted@),
                marker@ == seq![255u8],
                hasher@ == hash_writes(items.take(i as int)),
            decreases sorted.len() - i,
        {
            hasher.write(sorted[i].as_str().as_bytes());
            hasher.write(marker.as_slice());
            proof {
                assert(items.take(i + 1).drop_last() =~= items.take(i as int));
                assert(items.take(i + 1).last() == sorted@[i as int]@);
            }
            i += 1;
        }
        proof {
            assert(items.take(i as int) =~= items);
        }
        hex16_string(hasher.finish())
    }

    /// Verify that generated code carries the hash of the expected checks.
    pub fn verify_tampering(generated_code: &str, expected_checks: &[String]) -> (r: ThreatResult<
        (),
    >)
        ensures
            verdict(r) == (if contains_seq(
                generated_code@,
                hash_marker(strings_view(expected_checks@)),
            ) {
                Ok(())
            } else {
                Err(
                    ThreatErrorView::TamperDetected(
                        "hash mismatch: generated code does not contain expected INVAR_HASH"@,
                    ),
                )
            }),
    {
        let expected_hash = Self::compute_hash(expected_checks);
        let hash_pattern = join2("INVAR_HASH: ", expected_hash.as_str());
        let code = to_chars(generated_code);
        let wanted = to_chars(hash_pattern.as_str());
        if !contains_chars(code.as_slice(), wanted.as_slice()) {
            return Err(
                ThreatModelError::TamperDetected(
                    String::from_str(
                        "hash mismatch: generated code does not contain expected INVAR_HASH",
                    ),
                ),
            );
        }
        Ok(())
    }
}

/// The prefixes that no name in an expression may begin with.
pub open spec fn forbidden_prefixes() -> Seq<Seq<char>> {
    seq!["file_"@, "io_"@, "extern_"@, "unsafe_"@]
}

/// The functions that an expression may call.
pub open spec fn allowed_functions() -> Seq<Seq<char>> {
    seq![
        "sum"@,
        "len"@,
        "min"@,
        "max"@,
        "abs"@,
        "mod"@,
        "div"@,
        "add"@,
        "sub"@,
        "mul"@,
        "and"@,
        "or"@,
        "not"@,
    ]
}

/// Whether `name`, in lower case, begins with one of `prefixes`.
pub open spec fn name_forbidden(name: Seq<char>, prefixes: Seq<Seq<char>>) -> bool {
    exists|i: int| 0 <= i < prefixes.len() && starts_with_seq(lowercase(name), #[trigger] prefixes[i])
}

/// Whether every name in `e` is free of `prefixes` and every function
/// that `e` calls is an allowed one.
pub open spec fn sandbox_clean(e: ExprView, prefixes: Seq<Seq<char>>) -> bool
    decreases e,
{
    match e {
        ExprView::Boolean(_) => true,
        ExprView::Int(_) => true,
        ExprView::Var(name) => !name_forbidden(name, prefixes),
        ExprView::LayerVar { layer, var } => !name_forbidden(layer, prefixes) && !name_forbidden(
            var,
            prefixes,
        ),
        ExprView::PhaseQualifiedVar { phase, layer, var } => !name_forbidden(phase, prefixes)
            && !name_forbidden(layer, prefixes) && !name_forbidden(var, prefixes),
        ExprView::PhaseConstraint { phase, constraint } => sandbox_clean(*constraint, prefixes),
        ExprView::CrossPhaseRelation { phase1, expr1, phase2, expr2, op } => sandbox_clean(
            *expr1,
            prefixes,
        ) && sandbox_clean(*expr2, prefixes),
        ExprView::BinaryOp { left, op, right } => sandbox_clean(*left, prefixes) && sandbox_clean(
            *right,
            prefixes,
        ),
        ExprView::Logical { left, op, right } => sandbox_clean(*left, prefixes) && sandbox_clean(
            *right,
            prefixes,
        ),
        ExprView::Not(inner) => sandbox_clean(*inner, prefixes),
        ExprView::FunctionCall { name, args } => allowed_functions().contains(name) && forall|
            i: int,
        |
            0 <= i < args.len() ==> sandbox_clean(#[trigger] args[i], prefixes),
        ExprView::Tuple(items) => forall|i: int|
            0 <= i < items.len() ==> sandbox_clean(#[trigger] items[i], prefixes),
    }
}

/// The error for a name that the sandbox refuses.
pub open spec fn escape(message: Seq<char>) -> Result<(), ThreatErrorView> {
    Err(ThreatErrorView::SandboxEscapeDetected(message))
}

/// What the sandbox says of an expression: nothing if it is clean, else
/// the first violation met, operands and arguments taken from left to
/// right and a call's name before its arguments.
pub open spec fn sandbox_verdict(e: ExprView, prefixes: Seq<Seq<char>>) -> Result<
    (),
    ThreatErrorView,
>
    decreases e, 0nat,
{
    match e {
        ExprView::Boolean(_) => Ok(()),
        ExprView::Int(_) => Ok(()),
        ExprView::Var(name) => if name_forbidden(name, prefixes) {
            escape("forbidden variable name: "@ + name)
        } else {
            Ok(())
        },
        ExprView::LayerVar { layer, var } => if name_forbidden(layer, prefixes) || name_forbidden(
            var,
            prefixes,
        ) {
            escape("forbidden layer/variable name: "@ + layer + "::"@ + var)
        } else {
            Ok(())
        },
        ExprView::PhaseQualifiedVar { phase, layer, var } => if name_forbidden(phase, prefixes)
            || name_forbidden(layer, prefixes) || name_forbidden(var, prefixes) {
            escape("forbidden phase/layer/variable name: "@ + phase + "::"@ + layer + "::"@ + var)
        } else {
            Ok(())
        },
        ExprView::PhaseConstraint { phase, constraint } => sandbox_verdict(*constraint, prefixes),
        ExprView::CrossPhaseRelation { phase1, expr1, phase2, expr2, op } => match sandbox_verdict(
            *expr1,
            prefixes,
        ) {
            Err(e) => Err(e),
            Ok(_) => sandbox_verdict(*expr2, prefixes),
        },
        ExprView::BinaryOp { left, op, right } => match sandbox_verdict(*left, prefixes) {
            Err(e) => Err(e),
            Ok(_) => sandbox_verdict(*right, prefixes),
        },
        ExprView::Logical { left, op, right } => match sandbox_verdict(*left, prefixes) {
            Err(e) => Err(e),
            Ok(_) => sandbox_verdict(*right, prefixes),
        },
        ExprView::Not(inner) => sandbox_verdict(*inner, prefixes),
        ExprView::FunctionCall { name, args } => if !allowed_functions().contains(name) {
            escape("forbidden function call: "@ + name)
        } else {
            sandbox_verdict_list(args, prefixes, args.len())
        },
        ExprView::Tuple(items) => sandbox_verdict_list(items, prefixes, items.len()),
    }
}

/// What the sandbox says of the first `n` expressions of `es`: the first
/// violation met from left to right, if any.
pub open spec fn sandbox_verdict_list(es: Seq<ExprView>, prefixes: Seq<Seq<char>>, n: nat) -> Result<
    (),
    ThreatErrorView,
>
    decreases es, n,
{
    if n == 0 || n > es.len() {
        Ok(())
    } else {
        match sandbox_verdict_list(es, prefixes, (n - 1) as nat) {
            Err(e) => Err(e),
            Ok(_) => sandbox_verdict(es[n - 1], prefixes),
        }
    }
}

/// The sandbox accepts exactly the expressions whose names are all free of
/// the forbidden prefixes and whose calls all go to allowed functions.
pub proof fn law_sandbox_accepts_only_clean(e: ExprView, prefixes: Seq<Seq<char>>)
    ensures
        sandbox_verdict(e, prefixes) is Ok <==> sandbox_clean(e, prefixes),
    decreases e, 0nat,
{
    match e {
        ExprView::PhaseConstraint { phase, constraint } => {
            law_sandbox_accepts_only_clean(*constraint, prefixes);
        },
        ExprView::CrossPhaseRelation { phase1, expr1, phase2, expr2, op } => {
            law_sandbox_accepts_only_clean(*expr1, prefixes);
            law_sandbox_accepts_only_clean(*expr2, prefixes);
        },
        ExprView::BinaryOp { left, op, right } => {
            law_sandbox_accepts_only_clean(*left, prefixes);
            law_sandbox_accepts_only_clean(*right, prefixes);
        },
        ExprView::Logical { left, op, right } => {
            law_sandbox_accepts_only_clean(*left, prefixes);
            law_sandbox_accepts_only_clean(*right, prefixes);
        },
        ExprView::Not(inner) => {
            law_sandbox_accepts_only_clean(*inner, prefixes);
        },
        ExprView::FunctionCall { name, args } => {
            lemma_sandbox_list(args, prefixes, args.len());
        },
        ExprView::Tuple(items) => {
            lemma_sandbox_list(items, prefixes, items.len());
        },
        _ => {},
    }
}

proof fn lemma_sandbox_list(es: Seq<ExprView>, prefixes: Seq<Seq<char>>, n: nat)
    requires
        n <= es.len(),
    ensures
        sandbox_verdict_list(es, prefixes, n) is Ok <==> forall|i: int|
            0 <= i < n ==> sandbox_clean(#[trigger] es[i], prefixes),
    decreases es, n,
{
    if n > 0 {
        lemma_sandbox_list(es, prefixes, (n - 1) as nat);
        law_sandbox_accepts_only_clean(es[n - 1], prefixes);
    }
}

/// Validation is a function of the expression: validating one expression
/// twice comes to the same outcome.
pub proof fn law_validation_is_repeatable(
    expr: Expression,
    first: ThreatResult<()>,
    second: ThreatResult<()>,
)
    requires
        verdict(first) == sandbox_verdict(expr@, forbidden_prefixes()),
        verdict(second) == sandbox_verdict(expr@, forbidden_prefixes()),
    ensures
        verdict(first) == verdict(second),
{
}

/// Once an expression of the list is refused, the whole list is refused
/// with the same error.
proof fn lemma_sandbox_list_error(es: Seq<ExprView>, prefixes: Seq<Seq<char>>, k: nat, n: nat)
    requires
        1 <= k <= n <= es.len(),
        sandbox_verdict_list(es, prefixes, k) is Err,
    ensures
        sandbox_verdict_list(es, prefixes, n) == sandbox_verdict_list(es, prefixes, k),
    decreases n - k,
{
    if k < n {
        lemma_sandbox_list_error(es, prefixes, k, (n - 1) as nat);
    }
}

/// The views of a list of string slices.
pub open spec fn strs_view(v: Seq<&str>) -> Seq<Seq<char>> {
    Seq::new(v.len(), |i: int| v[i]@)
}

/// Whether a text, as it stands, begins with one of `prefixes`.
pub fn has_forbidden_prefix(lower: &str, prefixes: &[&str]) -> (r: bool)
    ensures
        r == exists|i: int|
            0 <= i < prefixes.len() && starts_with_seq(lower@, #[trigger] strs_view(prefixes@)[i]),
{
    let l = to_chars(lower);
    let mut i: usize = 0;
    while i < prefixes.len()
        invariant
            i <= prefixes.len(),
            l@ == lower@,
            forall|j: int|
                0 <= j < i ==> !starts_with_seq(lower@, #[trigger] strs_view(prefixes@)[j]),
        decreases prefixes.len() - i,
    {
        let p = to_chars(prefixes[i]);
        if crate::text::matches_at(l.as_slice(), p.as_slice(), 0) {
            assert(strs_view(prefixes@)[i as int] == prefixes@[i as int]@);
            return true;
        }
        i += 1;
    }
    false
}

/// Whether `name`, in lower case, begins with one of `prefixes`.
fn is_forbidden(name: &str, prefixes: &[&str]) -> (r: bool)
    ensures
        r == name_forbidden(name@, strs_view(prefixes@)),
{
    let lower = to_lowercase(name);
    has_forbidden_prefix(lower.as_str(), prefixes)
}

fn is_allowed_function(name: &str) -> (r: bool)
    ensures
        r == allowed_functions().contains(name@),
{
    let r = str_eq(name, "sum") || str_eq(name, "len") || str_eq(name, "min") || str_eq(name, "max")
        || str_eq(name, "abs") || str_eq(name, "mod") || str_eq(name, "div") || str_eq(name, "add")
        || str_eq(name, "sub") || str_eq(name, "mul") || str_eq(name, "and") || str_eq(name, "or")
        || str_eq(name, "not");
    proof {
        let a = allowed_functions();
        if r {
            let i = choose|i: int| 0 <= i < 13 && a[i] == name@;
            assert(a[i] == name@);
        } else {
            assert forall|i: int| 0 <= i < a.len() implies a[i] != name@ by {}
        }
    }
    r
}

/// The sandbox for invariant expressions.
pub struct DSLSandbox;

impl DSLSandbox {
    /// Validate an expression for sandbox violations.
    pub fn validate_expression(expr: &Expression) -> (r: ThreatResult<()>)
        ensures
            verdict(r) == sandbox_verdict(expr@, forbidden_prefixes()),
            r is Ok <==> sandbox_clean(expr@, forbidden_prefixes()),
    {
        let mut prefixes: Vec<&str> = Vec::new();
        prefixes.push("file_");
        prefixes.push("io_");
        prefixes.push("extern_");
        prefixes.push("unsafe_");
        proof {
            assert(strs_view(prefixes@) =~= forbidden_prefixes());
            law_sandbox_accepts_only_clean(expr@, forbidden_prefixes());
        }
        Self::check_expression_recursive(expr, prefixes.as_slice())
    }

    /// Validate an expression against a list of forbidden prefixes.
    pub fn check_expression_recursive(expr: &Expression, forbidden_prefixes: &[&str]) -> (r:
        ThreatResult<()>)
        ensures
            verdict(r) == sandbox_verdict(expr@, strs_view(forbidden_prefixes@)),
        decreases expr, 1nat,
    {
        let ghost prefixes = strs_view(forbidden_prefixes@);
        match expr {
            Expression::Var(name) => {
                if is_forbidden(name.as_str(), forbidden_prefixes) {
                    return Err(
                        ThreatModelError::SandboxEscapeDetected(
                            join2("forbidden variable name: ", name.as_str()),
                        ),
                    );
                }
                Ok(())
            },
            Expression::LayerVar { layer, var } => {
                if is_forbidden(layer.as_str(), forbidden_prefixes) || is_forbidden(
                    var.as_str(),
                    forbidden_prefixes,
                ) {
                    let mut m = join3("forbidden layer/variable name: ", layer.as_str(), "::");
                    m.append(var.as_str());
                    return Err(ThreatModelError::SandboxEscapeDetected(m));
                }
                Ok(())
            },
            Expression::FunctionCall { name, args } => {
                proof {
                    lemma_call_view(*name, *args);
                }
                if !is_allowed_function(name.as_str()) {
                    return Err(
                        ThreatModelError::SandboxEscapeDetected(
                            join2("forbidden function call: ", name.as_str()),
                        ),
                    );
                }
                Self::check_all(args, forbidden_prefixes)
            },
            Expression::BinaryOp { left, op: _, right } => {
                match Self::check_expression_recursive(left, forbidden_prefixes) {
                    Ok(_) => {},
                    Err(e) => {
                        return Err(e);
                    },
                }
                Self::check_expression_recursive(right, forbidden_prefixes)
            },
            Expression::Logical { left, op: _, right } => {
                match Self::check_expression_recursive(left, forbidden_prefixes) {
                    Ok(_) => {},
                    Err(e) => {
                        return Err(e);
                    },
                }
                Self::check_expression_recursive(right, forbidden_prefixes)
            },
            Expression::Not(inner) => Self::check_expression_recursive(inner, forbidden_prefixes),
            Expression::Tuple(items) => {
                proof {
                    lemma_tuple_view(*items);
                }
                Self::check_all(items, forbidden_prefixes)
            },
            Expression::PhaseQualifiedVar { phase, layer, var } => {
                if is_forbidden(phase.as_str(), forbidden_prefixes) || is_forbidden(
                    layer.as_str(),
                    forbidden_prefixes,
                ) || is_forbidden(var.as_str(), forbidden_prefixes) {
                    let mut m = join3(
                        "forbidden phase/layer/variable name: ",
                        phase.as_str(),
                        "::",
                    );
                    m.append(layer.as_str());
                    m.append("::");
                    m.append(var.as_str());
                    return Err(ThreatModelError::SandboxEscapeDetected(m));
                }
                Ok(())
            },
            Expression::PhaseConstraint { phase: _, constraint } => {
                Self::check_expression_recursive(constraint, forbidden_prefixes)
            },
            Expression::CrossPhaseRelation { phase1: _, expr1, phase2: _, expr2, op: _ } => {
                match Self::check_expression_recursive(expr1, forbidden_prefixes) {
                    Ok(_) => {},
                    Err(e) => {
                        return Err(e);
                    },
                }
                Self::check_expression_recursive(expr2, forbidden_prefixes)
            },
            Expression::Boolean(_) | Expression::Int(_) => Ok(()),
        }
    }

    fn check_all(items: &Vec<Expression>, forbidden_prefixes: &[&str]) -> (r: ThreatResult<()>)
        ensures
            verdict(r) == sandbox_verdict_list(
                exprs_view(items@),
                strs_view(forbidden_prefixes@),
                items.len() as nat,
            ),
        decreases items, 0nat,
    {
        let ghost es = exprs_view(items@);
        let ghost prefixes = strs_view(forbidden_prefixes@);
        let mut i: usize = 0;
        while i < items.len()
            invariant
                i <= items.len(),
                es == exprs_view(items@),
                prefixes == strs_view(forbidden_prefixes@),
                sandbox_verdict_list(es, prefixes, i as nat) == Ok::<(), ThreatErrorView>(()),
            decreases items.len() - i,
        {
            proof {
                assert(es[i as int] == items@[i as int]@);
            }
            match Self::check_expression_recursive(&items[i], forbidden_prefixes) {
                Ok(_) => {},
                Err(e) => {
                    proof {
                        lemma_sandbox_list_error(es, prefixes, (i + 1) as nat, es.len());
                    }
                    return Err(e);
                },
            }
            i += 1;
        }
        Ok(())
    }
}

/// The message for mutations that analysis could not settle.
pub open spec fn uncertainty_message(warnings: Seq<Seq<char>>) -> Seq<char> {
    "strict mode detected "@ + decimal(warnings.len()) + " uncertain mutations: "@ + join_texts(
        warnings,
        ", "@,
        warnings.len(),
    )
}

/// Decides whether uncertain mutation analysis is an error.
pub struct StrictModeAnalyzer {
    enabled: bool,
}

impl StrictModeAnalyzer {
    /// Whether strict mode is on.
    pub closed spec fn strict(self) -> bool {
        self.enabled
    }

    /// Create a new strict mode analyzer.
    pub fn new(enabled: bool) -> (a: Self)
        ensures
            a.strict() == enabled,
    {
        StrictModeAnalyzer { enabled }
    }

    /// In strict mode, fail if any mutation was uncertain. With strict
    /// mode off, accept everything.
    pub fn verify_mutation_coverage(
        &self,
        _analyzed_mutations: &[String],
        uncertainty_warnings: &[String],
    ) -> (r: ThreatResult<()>)
        ensures
            verdict(r) == (if self.strict() && uncertainty_warnings.len() > 0 {
                Err(
                    ThreatErrorView::MutationUncertaintyDetected(
                        uncertainty_message(strings_view(uncertainty_warnings@)),
                    ),
                )
            } else {
                Ok(())
            }),
    {
        if !self.enabled {
            return Ok(());
        }
        if uncertainty_warnings.len() > 0 {
            let mut m = String::from_str("strict mode detected ");
            push_decimal(&mut m, uncertainty_warnings.len() as u128);
            m.append(" uncertain mutations: ");
            let joined = join_strings(uncertainty_warnings, ", ");
            m.append(joined.as_str());
            return Err(ThreatModelError::MutationUncertaintyDetected(m));
        }
        Ok(())
    }
}

/// Whether `ty` holds one of `allowed` as a substring.
pub open spec fn type_allowed(ty: Seq<char>, allowed: Seq<Seq<char>>) -> bool {
    exists|j: int| 0 <= j < allowed.len() && contains_seq(ty, #[trigger] allowed[j])
}

/// What isolation says of the first `n` variables of a context, taken in
/// the order of their names: the error for the first whose type holds
/// none of the allowed substrings, if any.
pub open spec fn isolation_verdict(
    names: Seq<Seq<char>>,
    types: Seq<Seq<char>>,
    allowed: Seq<Seq<char>>,
    n: nat,
) -> Result<(), ThreatErrorView>
    decreases n,
{
    if n == 0 || n > names.len() || n > types.len() {
        Ok(())
    } else {
        match isolation_verdict(names, types, allowed, (n - 1) as nat) {
            Err(e) => Err(e),
            Ok(_) => if type_allowed(types[n - 1], allowed) {
                Ok(())
            } else {
                Err(
                    ThreatErrorView::IsolationViolationDetected(
                        "variable '"@ + names[n - 1] + "' has disallowed type '"@ + types[n - 1]
                            + "' in simulation context"@,
                    ),
                )
            },
        }
    }
}

proof fn lemma_isolation_error(
    names: Seq<Seq<char>>,
    types: Seq<Seq<char>>,
    allowed: Seq<Seq<char>>,
    k: nat,
    n: nat,
)
    requires
        1 <= k <= n <= names.len(),
        n <= types.len(),
        isolation_verdict(names, types, allowed, k) is Err,
    ensures
        isolation_verdict(names, types, allowed, n) == isolation_verdict(names, types, allowed, k),
    decreases n - k,
{
    if k < n {
        lemma_isolation_error(names, types, allowed, k, (n - 1) as nat);
    }
}

/// Checks that a simulation context holds only values of allowed types.
pub struct SimulationIsolation;

impl SimulationIsolation {
    /// Verify that every variable of the context has a type that holds
    /// one of the allowed substrings.
    pub fn verify_isolation(context_vars: &OrderedMap<String>, allowed_types: &[&str]) -> (r:
        ThreatResult<()>)
        ensures
            verdict(r) == isolation_verdict(
                context_vars.keys(),
                strings_view(context_vars.values()),
                strs_view(allowed_types@),
                context_vars.keys().len(),
            ),
    {
        let n = context_vars.len();
        let ghost names = context_vars.keys();
        let ghost types = strings_view(context_vars.values());
        let ghost allowed = strs_view(allowed_types@);
        let mut i: usize = 0;
        while i < n
            invariant
                i <= n,
                n == names.len(),
                n == types.len(),
                names == context_vars.keys(),
                types == strings_view(context_vars.values()),
                allowed == strs_view(allowed_types@),
                isolation_verdict(names, types, allowed, i as nat) == Ok::<(), ThreatErrorView>(
                    (),
                ),
            decreases n - i,
        {
            let name = context_vars.key_at(i);
            let type_str = context_vars.value_at(i);
            let t = to_chars(type_str.as_str());
            let mut is_allowed = false;
            let mut j: usize = 0;
            while j < allowed_types.len() && !is_allowed
                invariant
                    j <= allowed_types.len(),
                    t@ == type_str@,
                    allowed == strs_view(allowed_types@),
                    is_allowed ==> type_allowed(type_str@, allowed),
                    !is_allowed ==> forall|k: int|
                        0 <= k < j ==> !contains_seq(type_str@, #[trigger] allowed[k]),
                decreases allowed_types.len() - j,
            {
                let a = to_chars(allowed_types[j]);
                if contains_chars(t.as_slice(), a.as_slice()) {
                    assert(allowed[j as int] == allowed_types@[j as int]@);
                    is_allowed = true;
                }
                j += 1;
            }
            proof {
                assert(types[i as int] == type_str@);
            }
            if !is_allowed {
                let mut m = join3("variable '", name.as_str(), "' has disallowed type '");
                m.append(type_str.as_str());
                m.append("' in simulation context");
                proof {
                    lemma_isolation_error(names, types, allowed, (i + 1) as nat, n as nat);
                }
                return Err(ThreatModelError::IsolationViolationDetected(m));
            }
            i += 1;
        }
        Ok(())
    }
}

} // verus!
