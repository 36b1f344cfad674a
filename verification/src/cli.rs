//! What the command line decides: which chains and formats it knows, what
//! a report says, and which invariants it lists.

use crate::text::{count_matches, count_occurrences, decimal, push_decimal, str_eq, to_chars};
use vstd::prelude::*;
use vstd::string::*;

verus! {

/// Whether `chain` is one that the tool supports.
pub open spec fn supported_chain(chain: Seq<char>) -> bool {
    chain == "solana"@ || chain == "evm"@ || chain == "move"@
}

/// The message for a chain that the tool does not support.
pub open spec fn unknown_chain_message(chain: Seq<char>) -> Seq<char> {
    "Unknown chain: "@ + chain + ". Supported: solana, evm, move"@
}

/// Whether `chain` is supported; the message for it if it is not.
pub fn check_chain(chain: &str) -> (r: Result<(), String>)
    ensures
        match r {
            Ok(_) => supported_chain(chain@),
            Err(m) => !supported_chain(chain@) && m@ == unknown_chain_message(chain@),
        },
{
    if str_eq(chain, "solana") || str_eq(chain, "evm") || str_eq(chain, "move") {
        Ok(())
    } else {
        let mut m = String::from_str("Unknown chain: ");
        m.append(chain);
        m.append(". Supported: solana, evm, move");
        Err(m)
    }
}

/// The formats that a report can be written in.
#[derive(Debug, Clone, Copy, PartialEq, Eq, Structural)]
pub enum ReportFormat {
    /// A JSON object.
    Json,
    /// A Markdown list.
    Markdown,
    /// Plain lines.
    Cli,
}

/// The format that a name stands for.
pub open spec fn format_named(name: Seq<char>) -> Option<ReportFormat> {
    if name == "json"@ {
        Some(ReportFormat::Json)
    } else if name == "markdown"@ {
        Some(ReportFormat::Markdown)
    } else if name == "cli"@ {
        Some(ReportFormat::Cli)
    } else {
        None
    }
}

/// The message for a format that the tool does not know.
pub open spec fn unknown_format_message(name: Seq<char>) -> Seq<char> {
    "Unknown format: "@ + name + ". Supported: json, markdown, cli"@
}

/// The format that `name` stands for; the message for it if it stands
/// for none.
pub fn parse_format(name: &str) -> (r: Result<ReportFormat, String>)
    ensures
        match r {
            Ok(f) => format_named(name@) == Some(f),
            Err(m) => format_named(name@) is None && m@ == unknown_format_message(name@),
        },
{
    if str_eq(name, "json") {
        Ok(ReportFormat::Json)
    } else if str_eq(name, "markdown") {
        Ok(ReportFormat::Markdown)
    } else if str_eq(name, "cli") {
        Ok(ReportFormat::Cli)
    } else {
        let mut m = String::from_str("Unknown format: ");
        m.append(name);
        m.append(". Supported: json, markdown, cli");
        Err(m)
    }
}

/// The number of invariants that an input is taken to speak of: the
/// occurrences of the word `invariant`, and at least one.
pub open spec fn invariants_in(input: Seq<char>) -> nat {
    let found = count_occurrences(input, "invariant"@);
    if found == 0 {
        1
    } else {
        found
    }
}

/// The number of violations that an input speaks of: the occurrences of
/// the word `violation`.
pub open spec fn violations_in(input: Seq<char>) -> nat {
    count_occurrences(input, "violation"@)
}

/// A report on `invariants` invariants of which `violations` are
/// violated.
pub open spec fn report_text(format: ReportFormat, invariants: nat, violations: nat) -> Seq<char> {
    let protected = (invariants - violations) as nat;
    match format {
        ReportFormat::Json => "{\"invariants\": "@ + decimal(invariants) + ", \"protected\": "@
            + decimal(protected) + ", \"violations\": "@ + decimal(violations)
            + ", \"coverage\": 100}"@,
        ReportFormat::Markdown => "# Invariant Report\n\n- **Invariants**: "@ + decimal(invariants)
            + "\n- **Protected**: "@ + decimal(protected) + "\n- **Violations**: "@ + decimal(
            violations,
        ) + "\n- **Coverage**: 100%\n"@,
        ReportFormat::Cli => "Invariants: "@ + decimal(invariants) + "\nProtected: "@ + decimal(
            protected,
        ) + "\nViolations: "@ + decimal(violations) + "\nCoverage: 100%"@,
    }
}

/// Write a report on given counts.
pub fn write_report(format: ReportFormat, invariants: usize, violations: usize) -> (s: String)
    requires
        violations <= invariants,
    ensures
        s@ == report_text(format, invariants as nat, violations as nat),
{
    let protected: usize = invariants - violations;
    let mut s = String::new();
    match format {
        ReportFormat::Json => {
            s.append("{\"invariants\": ");
            push_decimal(&mut s, invariants as u128);
            s.append(", \"protected\": ");
            push_decimal(&mut s, protected as u128);
            s.append(", \"violations\": ");
            push_decimal(&mut s, violations as u128);
            s.append(", \"coverage\": 100}");
        },
        ReportFormat::Markdown => {
            s.append("# Invariant Report\n\n- **Invariants**: ");
            push_decimal(&mut s, invariants as u128);
            s.append("\n- **Protected**: ");
            push_decimal(&mut s, protected as u128);
            s.append("\n- **Violations**: ");
            push_decimal(&mut s, violations as u128);
            s.append("\n- **Coverage**: 100%\n");
        },
        ReportFormat::Cli => {
            s.append("Invariants: ");
            push_decimal(&mut s, invariants as u128);
            s.append("\nProtected: ");
            push_decimal(&mut s, protected as u128);
            s.append("\nViolations: ");
            push_decimal(&mut s, violations as u128);
            s.append("\nCoverage: 100%");
        },
    }
    assert(s@ =~= report_text(format, invariants as nat, violations as nat));
    s
}

/// The report on an input, where the input does not speak of more
/// violations than of invariants; nothing where it does.
pub fn report_on_input(format: ReportFormat, input: &str) -> (r: Option<String>)
    ensures
        match r {
            Some(s) => violations_in(input@) <= invariants_in(input@) && s@ == report_text(
                format,
                invariants_in(input@),
                violations_in(input@),
            ),
            None => violations_in(input@) > invariants_in(input@),
        },
{
    let text = to_chars(input);
    let invariant_word = to_chars("invariant");
    let violation_word = to_chars("violation");
    proof {
        reveal_strlit("invariant");
        reveal_strlit("violation");
    }
    let found = count_matches(text.as_slice(), invariant_word.as_slice());
    let invariants: usize = if found == 0 {
        1
    } else {
        found
    };
    let violations = count_matches(text.as_slice(), violation_word.as_slice());
    if violations > invariants {
        None
    } else {
        Some(write_report(format, invariants, violations))
    }
}

/// An invariant that the tool knows by name.
#[derive(Debug, Clone, Copy)]
pub struct KnownInvariant {
    /// The invariant's name.
    pub name: &'static str,
    /// Its category.
    pub category: &'static str,
    /// What it says.
    pub description: &'static str,
}

/// The invariants that the tool knows by name.
pub open spec fn known_invariants() -> Seq<(Seq<char>, Seq<char>, Seq<char>)> {
    seq![
        ("balance_conservation"@, "deFi"@, "Sum of balances equals total supply"@),
        ("no_negative_balance"@, "deFi"@, "No account can have negative balance"@),
        ("access_control"@, "security"@, "Only authorized users can perform actions"@),
        ("state_consistency"@, "general"@, "State variables remain internally consistent"@),
    ]
}

/// What is said of a known invariant.
pub open spec fn known_view(k: KnownInvariant) -> (Seq<char>, Seq<char>, Seq<char>) {
    (k.name@, k.category@, k.description@)
}

/// The views of a list of known invariants.
pub open spec fn known_views(v: Seq<KnownInvariant>) -> Seq<(Seq<char>, Seq<char>, Seq<char>)> {
    Seq::new(v.len(), |i: int| known_view(v[i]))
}

/// Among the first `n` known invariants, in order, those of the category
/// asked for, or all if none is asked for.
pub open spec fn listed(category: Option<Seq<char>>, n: nat) -> Seq<
    (Seq<char>, Seq<char>, Seq<char>),
>
    decreases n,
{
    if n == 0 || n > known_invariants().len() {
        Seq::empty()
    } else {
        let k = known_invariants()[n - 1];
        if category is None || category == Some(k.1) {
            listed(category, (n - 1) as nat).push(k)
        } else {
            listed(category, (n - 1) as nat)
        }
    }
}

fn known(i: usize) -> (k: KnownInvariant)
    requires
        i < 4,
    ensures
        known_view(k) == known_invariants()[i as int],
{
    if i == 0 {
        KnownInvariant {
            name: "balance_conservation",
            category: "deFi",
            description: "Sum of balances equals total supply",
        }
    } else if i == 1 {
        KnownInvariant {
            name: "no_negative_balance",
            category: "deFi",
            description: "No account can have negative balance",
        }
    } else if i == 2 {
        KnownInvariant {
            name: "access_control",
            category: "security",
            description: "Only authorized users can perform actions",
        }
    } else {
        KnownInvariant {
            name: "state_consistency",
            category: "general",
            description: "State variables remain internally consistent",
        }
    }
}

/// The known invariants of a category, or all of them.
pub fn list_known(category: Option<&str>) -> (r: Vec<KnownInvariant>)
    ensures
        known_views(r@) == listed(
            match category {
                Some(c) => Some(c@),
                None => None,
            },
            4,
        ),
{
    let ghost wanted: Option<Seq<char>> = match category {
        Some(c) => Some(c@),
        None => None,
    };
    let mut out: Vec<KnownInvariant> = Vec::new();
    let mut i: usize = 0;
    proof {
        assert(known_views(out@) =~= listed(wanted, 0));
    }
    while i < 4
        invariant
            i <= 4,
            wanted == (match category {
                Some(c) => Some(c@),
                None => None,
            }),
            known_views(out@) == listed(wanted, i as nat),
        decreases 4 - i,
    {
        let k = known(i);
        let keep = match category {
            Some(c) => str_eq(k.category, c),
            None => true,
        };
        if keep {
            proof {
                assert(known_views(out@.push(k)) =~= known_views(out@).push(known_view(k)));
            }
            out.push(k);
        }
        i += 1;
    }
    out
}

} // verus!
