//! Code generation: the assertions that instrument a program with its
//! invariants, and the checks that a list of invariant texts names.

use crate::error::InvarError;
use crate::model::{render, GenerationOutput, Invariant, InvariantView, ProgramModel};
use crate::text::{
    count_matches, count_occurrences, decimal, from_chars, lines_of, push_decimal, split_lines,
    split_on, split_spans, strings_view, to_chars, to_uppercase, trim_matches_of,
    trim_matches_span, trim_of, trim_span, uppercase,
};
use crate::threat_model::{tamper_hash, TamperDetector};
use vstd::prelude::*;
use vstd::string::*;

verus! {

/// The views of a list of invariants.
pub open spec fn invariants_view(v: Seq<Invariant>) -> Seq<InvariantView> {
    Seq::new(v.len(), |i: int| v[i]@)
}

/// Generates instrumented code with invariant checks.
pub trait CodeGenerator {
    /// Generate the instrumentation of `program` with `invariants`.
    fn generate(&self, program: &ProgramModel, invariants: &[Invariant]) -> Result<
        GenerationOutput,
        InvarError,
    >;

    /// Chain identifier.
    fn chain(&self) -> &str;
}

/// The chains that code is generated for.
#[derive(Debug, Clone, Copy, PartialEq, Eq, Structural)]
pub enum Dialect {
    /// Solidity, for EVM chains.
    Evm,
    /// Move.
    Move,
    /// Rust, for Solana.
    Solana,
}

/// The assertion that enforces an invariant in a dialect.
pub open spec fn assertion_text(dialect: Dialect, inv: InvariantView) -> Seq<char> {
    match dialect {
        Dialect::Evm => "require("@ + render(inv.expression) + ", \"Invariant: "@ + inv.name
            + "\");"@,
        Dialect::Move => "assert!("@ + render(inv.expression) + ", E_INVARIANT_"@ + uppercase(
            inv.name,
        ) + ");"@,
        Dialect::Solana => "assert!("@ + render(inv.expression) + ", \"Invariant "@ + inv.name
            + " violated\");"@,
    }
}

/// The assertions for the first `n` invariants, in order.
pub open spec fn assertion_texts(dialect: Dialect, invs: Seq<InvariantView>, n: nat) -> Seq<
    Seq<char>,
>
    decreases n,
{
    if n == 0 || n > invs.len() {
        Seq::<Seq<char>>::empty()
    } else {
        assertion_texts(dialect, invs, (n - 1) as nat).push(assertion_text(dialect, invs[n - 1]))
    }
}

/// The header that generated code begins with.
pub open spec fn header_text(dialect: Dialect, program_name: Seq<char>, count: nat) -> Seq<char> {
    match dialect {
        Dialect::Evm => "// Generated Solidity invariant checks for "@ + program_name + "\n// "@
            + decimal(count) + " checks\n"@,
        Dialect::Move => "// Generated Move invariant checks for "@ + program_name + "\n// "@
            + decimal(count) + " assertions\n"@,
        Dialect::Solana => "// Generated invariant checks for "@ + program_name + "\n// "@
            + decimal(count) + " invariants injected\n"@,
    }
}

/// The coverage that a dialect reports: for Solana the number of
/// assertions, taken modulo 256 and capped at 100, unless the program has
/// no function; nothing for the others.
pub open spec fn coverage_of(dialect: Dialect, has_functions: bool, count: nat) -> u8 {
    if dialect == Dialect::Solana && has_functions {
        if count % 256 > 100 {
            100
        } else {
            (count % 256) as u8
        }
    } else {
        0
    }
}

fn write_assertion(dialect: Dialect, inv: &Invariant) -> (s: String)
    ensures
        s@ == assertion_text(dialect, inv@),
{
    let mut s = String::new();
    match dialect {
        Dialect::Evm => {
            s.append("require(");
            inv.expression.write_to(&mut s);
            s.append(", \"Invariant: ");
            s.append(inv.name.as_str());
            s.append("\");");
        },
        Dialect::Move => {
            s.append("assert!(");
            inv.expression.write_to(&mut s);
            s.append(", E_INVARIANT_");
            let upper = to_uppercase(inv.name.as_str());
            s.append(upper.as_str());
            s.append(");");
        },
        Dialect::Solana => {
            s.append("assert!(");
            inv.expression.write_to(&mut s);
            s.append(", \"Invariant ");
            s.append(inv.name.as_str());
            s.append(" violated\");");
        },
    }
    assert(s@ =~= assertion_text(dialect, inv@));
    s
}

fn write_header(dialect: Dialect, program_name: &str, count: usize) -> (s: String)
    ensures
        s@ == header_text(dialect, program_name@, count as nat),
{
    let mut s = String::new();
    match dialect {
        Dialect::Evm => {
            s.append("// Generated Solidity invariant checks for ");
            s.append(program_name);
            s.append("\n// ");
            push_decimal(&mut s, count as u128);
            s.append(" checks\n");
        },
        Dialect::Move => {
            s.append("// Generated Move invariant checks for ");
            s.append(program_name);
            s.append("\n// ");
            push_decimal(&mut s, count as u128);
            s.append(" assertions\n");
        },
        Dialect::Solana => {
            s.append("// Generated invariant checks for ");
            s.append(program_name);
            s.append("\n// ");
            push_decimal(&mut s, count as u128);
            s.append(" invariants injected\n");
        },
    }
    assert(s@ =~= header_text(dialect, program_name@, count as nat));
    s
}

/// What generation owes: the header, one assertion for each invariant in
/// order, no tests, and the dialect's coverage.
pub open spec fn generated(
    dialect: Dialect,
    program: ProgramModel,
    invs: Seq<InvariantView>,
    out: GenerationOutput,
) -> bool {
    &&& out.code@ == header_text(dialect, program.name@, invs.len())
    &&& strings_view(out.assertions@) == assertion_texts(dialect, invs, invs.len())
    &&& out.tests is None
    &&& out.coverage_percent == coverage_of(
        dialect,
        program.functions.keys().len() > 0,
        invs.len(),
    )
}

/// Generate the instrumentation of a program in a dialect.
pub fn generate_for(dialect: Dialect, program: &ProgramModel, invariants: &[Invariant]) -> (out:
    GenerationOutput)
    ensures
        generated(dialect, *program, invariants_view(invariants@), out),
{
    let ghost invs = invariants_view(invariants@);
    let mut assertions: Vec<String> = Vec::new();
    let mut i: usize = 0;
    proof {
        assert(strings_view(assertions@) =~= assertion_texts(dialect, invs, 0));
    }
    while i < invariants.len()
        invariant
            i <= invariants.len(),
            invs == invariants_view(invariants@),
            assertions.len() == i,
            strings_view(assertions@) == assertion_texts(dialect, invs, i as nat),
        decreases invariants.len() - i,
    {
        let a = write_assertion(dialect, &invariants[i]);
        proof {
            assert(invs[i as int] == invariants@[i as int]@);
            assert(strings_view(assertions@.push(a)) =~= strings_view(assertions@).push(a@));
        }
        assertions.push(a);
        i += 1;
    }
    let code = write_header(dialect, program.name.as_str(), assertions.len());
    let coverage_percent: u8 = match dialect {
        Dialect::Solana => {
            if program.functions.is_empty() {
                0
            } else {
                let low: usize = assertions.len() % 256;
                if low > 100 {
                    100
                } else {
                    low as u8
                }
            }
        },
        _ => 0,
    };
    GenerationOutput { code, assertions, tests: None, coverage_percent }
}

/// Code generator for EVM (Solidity) contracts.
pub struct EvmGenerator;

impl CodeGenerator for EvmGenerator {
    fn generate(&self, program: &ProgramModel, invariants: &[Invariant]) -> (r: Result<
        GenerationOutput,
        InvarError,
    >)
        ensures
            r matches Ok(out) && generated(
                Dialect::Evm,
                *program,
                invariants_view(invariants@),
                out,
            ),
    {
        Ok(generate_for(Dialect::Evm, program, invariants))
    }

    fn chain(&self) -> (s: &str)
        ensures
            s@ == "evm"@,
    {
        "evm"
    }
}

/// Code generator for Move programs.
pub struct MoveGenerator;

impl CodeGenerator for MoveGenerator {
    fn generate(&self, program: &ProgramModel, invariants: &[Invariant]) -> (r: Result<
        GenerationOutput,
        InvarError,
    >)
        ensures
            r matches Ok(out) && generated(
                Dialect::Move,
                *program,
                invariants_view(invariants@),
                out,
            ),
    {
        Ok(generate_for(Dialect::Move, program, invariants))
    }

    fn chain(&self) -> (s: &str)
        ensures
            s@ == "move"@,
    {
        "move"
    }
}

/// Code generator for Solana Rust programs.
pub struct SolanaGenerator;

impl CodeGenerator for SolanaGenerator {
    fn generate(&self, program: &ProgramModel, invariants: &[Invariant]) -> (r: Result<
        GenerationOutput,
        InvarError,
    >)
        ensures
            r matches Ok(out) && generated(
                Dialect::Solana,
                *program,
                invariants_view(invariants@),
                out,
            ),
    {
        Ok(generate_for(Dialect::Solana, program, invariants))
    }

    fn chain(&self) -> (s: &str)
        ensures
            s@ == "solana"@,
    {
        "solana"
    }
}

/// Compute the hash that instrumentation carries for its checks. It is
/// the tamper hash of the checks, whatever their order.
pub fn compute_check_hash(checks: &[String]) -> (h: String)
    ensures
        h@ == tamper_hash(strings_view(checks@)),
{
    TamperDetector::compute_hash(checks)
}

/// What a piece of a list of checks stands for: the piece without white
/// space around it, then without double quotes around that, then without
/// single quotes around that.
pub open spec fn check_of(piece: Seq<char>) -> Seq<char> {
    trim_matches_of(trim_matches_of(trim_of(piece), '"'), '\'')
}

/// Among the first `n` pieces, the checks that are not empty, in order.
pub open spec fn checks_of(pieces: Seq<Seq<char>>, n: nat) -> Seq<Seq<char>>
    decreases n,
{
    if n == 0 || n > pieces.len() {
        Seq::<Seq<char>>::empty()
    } else if check_of(pieces[n - 1]).len() > 0 {
        checks_of(pieces, (n - 1) as nat).push(check_of(pieces[n - 1]))
    } else {
        checks_of(pieces, (n - 1) as nat)
    }
}

/// Parse a list of checks separated by commas, each possibly in quotes.
pub fn parse_invariant_checks(args: &str) -> (checks: Vec<String>)
    ensures
        strings_view(checks@) == checks_of(split_on(args@, ','), split_on(args@, ',').len()),
{
    let chars = to_chars(args);
    let s = chars.as_slice();
    let spans = split_spans(s, ',');
    let ghost pieces = split_on(args@, ',');
    let mut checks: Vec<String> = Vec::new();
    let mut i: usize = 0;
    proof {
        assert(strings_view(checks@) =~= checks_of(pieces, 0));
    }
    while i < spans.len()
        invariant
            i <= spans.len(),
            s@ == args@,
            pieces == split_on(args@, ','),
            spans.len() == pieces.len(),
            forall|k: int|
                0 <= k < spans.len() ==> (#[trigger] spans@[k]).0 <= spans@[k].1 <= s.len()
                    && s@.subrange(spans@[k].0 as int, spans@[k].1 as int) == pieces[k],
            strings_view(checks@) == checks_of(pieces, i as nat),
        decreases spans.len() - i,
    {
        let (from, to) = spans[i];
        proof {
            assert(spans@[i as int].0 == from);
        }
        let (a, b) = trim_span(s, from, to);
        let (c, d) = trim_matches_span(s, a, b, '"');
        let (e, f) = trim_matches_span(s, c, d, '\'');
        if f > e {
            let check = from_chars(s, e, f);
            proof {
                assert(strings_view(checks@.push(check)) =~= strings_view(checks@).push(check@));
            }
            checks.push(check);
        }
        i += 1;
    }
    checks
}

/// The word that counts as a check in the source of a dialect.
pub open spec fn check_word(dialect: Dialect) -> Seq<char> {
    match dialect {
        Dialect::Evm => "require"@,
        Dialect::Move => "assert"@,
        Dialect::Solana => "assert"@,
    }
}

/// The number of checks that a source is taken to hold: the occurrences
/// of the dialect's check word, and at least one.
pub open spec fn detected_checks(dialect: Dialect, content: Seq<char>) -> nat {
    let found = count_occurrences(content, check_word(dialect));
    if found == 0 {
        1
    } else {
        found
    }
}

/// The checks file that is generated for a source of `lines` lines and
/// `bytes` bytes in which `checks` checks were detected.
pub open spec fn checks_file(dialect: Dialect, lines: nat, bytes: nat, checks: nat) -> Seq<char> {
    match dialect {
        Dialect::Solana => "//! Generated Solana invariant checks\n//! Source analysis: "@
            + decimal(lines) + " lines, "@ + decimal(bytes) + " bytes\n//! Detected checks: "@
            + decimal(checks)
            + "\n\n/// Verify Solana invariants\npub fn verify_invariants() -> ProgramResult {\n// "@
            + decimal(checks) + " invariant checks compiled\nOk(())\n}\n"@,
        Dialect::Evm => "// Generated EVM invariant checks\n// Source analysis: "@ + decimal(lines)
            + " lines, "@ + decimal(bytes) + " bytes\n// Detected checks: "@ + decimal(checks)
            + "\n\n/// Enforce state invariants\nmodifier invariantState() {\n_;\n// "@ + decimal(
            checks,
        ) + " invariant checks enforced\n}\n"@,
        Dialect::Move => "/// Generated Move invariant checks\n/// Source analysis: "@ + decimal(
            lines,
        ) + " lines, "@ + decimal(bytes) + " bytes\n/// Detected checks: "@ + decimal(checks)
            + "\n\n/// Verify Move invariants\npublic fun verify_invariants() {\n// "@ + decimal(
            checks,
        ) + " invariant checks compiled\n}\n"@,
    }
}

/// Generate the checks file for a source in a dialect.
pub fn generate_checks(dialect: Dialect, content: &str) -> (s: String)
    ensures
        s@ == checks_file(
            dialect,
            lines_of(content@).len(),
            content.spec_bytes().len(),
            detected_checks(dialect, content@),
        ),
{
    let text = to_chars(content);
    let word = match dialect {
        Dialect::Evm => to_chars("require"),
        _ => to_chars("assert"),
    };
    proof {
        reveal_strlit("require");
        reveal_strlit("assert");
    }
    let found = count_matches(text.as_slice(), word.as_slice());
    let checks: usize = if found == 0 {
        1
    } else {
        found
    };
    let lines = split_lines(text.as_slice()).len();
    let bytes = content.as_bytes().len();
    let mut s = String::new();
    match dialect {
        Dialect::Solana => {
            s.append("//! Generated Solana invariant checks\n//! Source analysis: ");
            push_decimal(&mut s, lines as u128);
            s.append(" lines, ");
            push_decimal(&mut s, bytes as u128);
            s.append(" bytes\n//! Detected checks: ");
            push_decimal(&mut s, checks as u128);
            s.append(
                "\n\n/// Verify Solana invariants\npub fn verify_invariants() -> ProgramResult {\n// ",
            );
            push_decimal(&mut s, checks as u128);
            s.append(" invariant checks compiled\nOk(())\n}\n");
        },
        Dialect::Evm => {
            s.append("// Generated EVM invariant checks\n// Source analysis: ");
            push_decimal(&mut s, lines as u128);
            s.append(" lines, ");
            push_decimal(&mut s, bytes as u128);
            s.append(" bytes\n// Detected checks: ");
            push_decimal(&mut s, checks as u128);
            s.append("\n\n/// Enforce state invariants\nmodifier invariantState() {\n_;\n// ");
            push_decimal(&mut s, checks as u128);
            s.append(" invariant checks enforced\n}\n");
        },
        Dialect::Move => {
            s.append("/// Generated Move invariant checks\n/// Source analysis: ");
            push_decimal(&mut s, lines as u128);
            s.append(" lines, ");
            push_decimal(&mut s, bytes as u128);
            s.append(" bytes\n/// Detected checks: ");
            push_decimal(&mut s, checks as u128);
            s.append("\n\n/// Verify Move invariants\npublic fun verify_invariants() {\n// ");
            push_decimal(&mut s, checks as u128);
            s.append(" invariant checks compiled\n}\n");
        },
    }
    proof {
        assert(lines == lines_of(content@).len());
        assert(s@ =~= checks_file(
            dialect,
            lines as nat,
            bytes as nat,
            checks as nat,
        ));
    }
    s
}

/// Generate Solana invariant checks.
pub fn generate_solana_checks(content: &str) -> (s: String)
    ensures
        s@ == checks_file(
            Dialect::Solana,
            lines_of(content@).len(),
            content.spec_bytes().len(),
            detected_checks(Dialect::Solana, content@),
        ),
{
    generate_checks(Dialect::Solana, content)
}

/// Generate EVM invariant checks.
pub fn generate_evm_checks(content: &str) -> (s: String)
    ensures
        s@ == checks_file(
            Dialect::Evm,
            lines_of(content@).len(),
            content.spec_bytes().len(),
            detected_checks(Dialect::Evm, content@),
        ),
{
    generate_checks(Dialect::Evm, content)
}

/// Generate Move invariant checks.
pub fn generate_move_checks(content: &str) -> (s: String)
    ensures
        s@ == checks_file(
            Dialect::Move,
            lines_of(content@).len(),
            content.spec_bytes().len(),
            detected_checks(Dialect::Move, content@),
        ),
{
    generate_checks(Dialect::Move, content)
}

/// A parameter of a handler, as far as instrumentation reads it.
#[derive(Debug, Clone)]
pub enum Parameter {
    /// The receiver: `self` in any form.
    Receiver,
    /// A parameter bound to a name.
    Named {
        /// The name.
        name: String,
        /// Whether the binding is mutable.
        mutable: bool,
    },
    /// A parameter bound to any other pattern.
    Pattern,
}

/// Among the first `n` parameters, in order, the names of those that are
/// bound mutably.
pub open spec fn state_names(params: Seq<Parameter>, n: nat) -> Seq<Seq<char>>
    decreases n,
{
    if n == 0 || n > params.len() {
        Seq::<Seq<char>>::empty()
    } else {
        match params[n - 1] {
            Parameter::Named { name, mutable } => if mutable {
                state_names(params, (n - 1) as nat).push(name@)
            } else {
                state_names(params, (n - 1) as nat)
            },
            _ => state_names(params, (n - 1) as nat),
        }
    }
}

/// Whether a receiver stands among the parameters.
pub open spec fn has_receiver(params: Seq<Parameter>) -> bool {
    exists|i: int| 0 <= i < params.len() && #[trigger] params[i] is Receiver
}

/// Validate that a handler's parameters suit instrumentation: there must
/// be no receiver and at least one mutably bound name. Gives the mutably
/// bound names, in order.
pub fn validate_function_signature(params: &[Parameter]) -> (r: Result<Vec<String>, String>)
    ensures
        match r {
            Ok(names) => !has_receiver(params@) && names.len() > 0 && strings_view(names@)
                == state_names(params@, params.len() as nat),
            Err(m) => if has_receiver(params@) {
                m@ == "Invariant-enforced functions cannot have &self/&mut self"@
            } else {
                state_names(params@, params.len() as nat).len() == 0 && m@
                    == "Function must have at least one &mut parameter for state"@
            },
        },
{
    let mut state_vars: Vec<String> = Vec::new();
    let mut i: usize = 0;
    proof {
        assert(strings_view(state_vars@) =~= state_names(params@, 0));
    }
    while i < params.len()
        invariant
            i <= params.len(),
            forall|k: int| 0 <= k < i ==> !(#[trigger] params@[k] is Receiver),
            strings_view(state_vars@) == state_names(params@, i as nat),
        decreases params.len() - i,
    {
        match &params[i] {
            Parameter::Receiver => {
                return Err(
                    String::from_str("Invariant-enforced functions cannot have &self/&mut self"),
                );
            },
            Parameter::Named { name, mutable } => {
                if *mutable {
                    let n = name.clone();
                    proof {
                        assert(strings_view(state_vars@.push(n)) =~= strings_view(
                            state_vars@,
                        ).push(n@));
                    }
                    state_vars.push(n);
                }
            },
            Parameter::Pattern => {},
        }
        i += 1;
    }
    if state_vars.len() == 0 {
        return Err(String::from_str("Function must have at least one &mut parameter for state"));
    }
    Ok(state_vars)
}

/// Put the checks in place of the last statement of a body; into an empty
/// body, just put the checks.
pub fn inject_checks<T>(body: Vec<T>, checks: Vec<T>) -> (r: Vec<T>)
    ensures
        r@ == (if body.len() > 0 {
            body@.drop_last() + checks@
        } else {
            checks@
        }),
{
    let mut out = body;
    let mut rest = checks;
    if out.len() > 0 {
        out.pop();
    }
    out.append(&mut rest);
    out
}

} // verus!
