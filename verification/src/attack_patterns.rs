//! Known attack patterns and the invariants that defend against them.

use crate::ordmap::OrderedMap;
use crate::text::{contains_chars, contains_seq, strings_view, to_chars};
use vstd::prelude::*;
use vstd::string::*;

verus! {

/// A known attack pattern with defensive invariants.
#[derive(Debug, Clone)]
pub struct AttackPattern {
    /// Unique identifier for the attack.
    pub id: String,
    /// Attack name.
    pub name: String,
    /// Description of how the attack works.
    pub description: String,
    /// Year the attack was discovered or first exploited.
    pub year: u32,
    /// Notable incidents where this attack occurred.
    pub incidents: Vec<String>,
    /// Substrings of code that indicate vulnerability.
    pub vulnerable_patterns: Vec<String>,
    /// Defensive invariants to prevent the attack.
    pub defensive_invariants: Vec<String>,
    /// Affected chains: "solana", "evm", "move".
    pub affected_chains: Vec<String>,
    /// CVSS severity score in tenths: 98 stands for 9.8. At most 100.
    pub cvss_tenths: u32,
}

/// An attack pattern with its texts as sequences of characters.
pub struct PatternView {
    pub id: Seq<char>,
    pub name: Seq<char>,
    pub description: Seq<char>,
    pub year: u32,
    pub incidents: Seq<Seq<char>>,
    pub vulnerable_patterns: Seq<Seq<char>>,
    pub defensive_invariants: Seq<Seq<char>>,
    pub affected_chains: Seq<Seq<char>>,
    pub cvss_tenths: u32,
}

impl View for AttackPattern {
    type V = PatternView;

    open spec fn view(&self) -> PatternView {
        PatternView {
            id: self.id@,
            name: self.name@,
            description: self.description@,
            year: self.year,
            incidents: strings_view(self.incidents@),
            vulnerable_patterns: strings_view(self.vulnerable_patterns@),
            defensive_invariants: strings_view(self.defensive_invariants@),
            affected_chains: strings_view(self.affected_chains@),
            cvss_tenths: self.cvss_tenths,
        }
    }
}

/// The entries of the catalogue, in the order in which they are entered.
pub open spec fn catalogue_entry(i: int) -> PatternView {
    if i == 0 {
        PatternView {
            id: "reentrancy"@,
            name: "Reentrancy"@,
            description: "Attacker calls back into contract during execution, modifying state before previous execution completes"@,
            year: 2016,
            incidents: seq![
                "The DAO (2016) - $50M loss"@,
            ],
            vulnerable_patterns: seq![
                "transfer_funds(); /* state update after */"@,
                "transfer(amount)"@,
                "delegatecall"@,
                "state update AFTER external call"@,
                "payable(msg.sender).transfer"@,
                "call.value()() without checking re-entry"@,
                "state_change_after_external_call"@,
            ],
            defensive_invariants: seq![
                "state_update_before_external_call"@,
                "mutex_lock_during_transfer"@,
                "checks_effects_interactions_order"@,
                "balance_matches_sum_before_and_after"@,
            ],
            affected_chains: seq![
                "evm"@,
            ],
            cvss_tenths: 98,
        }
    } else if i == 1 {
        PatternView {
            id: "integer_overflow"@,
            name: "Integer Overflow/Underflow"@,
            description: "Arithmetic operations exceed max/min bounds, wrapping to opposite extreme"@,
            year: 2018,
            incidents: seq![
                "BEC Token (2018) - $7.6M frozen"@,
                "BeautyChain (2018) - batch transfer bug"@,
            ],
            vulnerable_patterns: seq![
                "unchecked_addition"@,
                "unchecked_subtraction"@,
                "balance + amount without overflow check"@,
            ],
            defensive_invariants: seq![
                "addition_with_overflow_check"@,
                "subtraction_with_underflow_check"@,
                "total_supply_constant"@,
                "balance_never_negative"@,
            ],
            affected_chains: seq![
                "evm"@,
                "move"@,
            ],
            cvss_tenths: 85,
        }
    } else if i == 2 {
        PatternView {
            id: "access_control_bypass"@,
            name: "Access Control Bypass"@,
            description: "Attacker circumvents permission checks to perform privileged operations"@,
            year: 2017,
            incidents: seq![
                "Parity Wallet (2017) - $30M frozen"@,
            ],
            vulnerable_patterns: seq![
                "missing_require(is_owner())"@,
                "tx.origin != msg.sender"@,
                "no_signature_validation"@,
                "public_function_without_auth"@,
            ],
            defensive_invariants: seq![
                "only_owner_can_transfer"@,
                "multisig_required_for_critical_ops"@,
                "all_privileged_ops_checked"@,
                "authorization_before_state_change"@,
            ],
            affected_chains: seq![
                "evm"@,
                "solana"@,
                "move"@,
            ],
            cvss_tenths: 99,
        }
    } else if i == 3 {
        PatternView {
            id: "flash_loan"@,
            name: "Flash Loan Attack"@,
            description: "Attacker borrows large amount in single transaction to manipulate price"@,
            year: 2020,
            incidents: seq![
                "bZx (2020) - $350K + $600K losses"@,
                "Harvest Finance (2020) - $34M loss"@,
            ],
            vulnerable_patterns: seq![
                "price_oracle_single_source"@,
                "no_price_validation"@,
                "lending_without_collateral_check"@,
            ],
            defensive_invariants: seq![
                "price_from_multiple_sources"@,
                "collateral_check_before_lending"@,
                "price_deviation_limits"@,
                "no_same_block_operations"@,
            ],
            affected_chains: seq![
                "evm"@,
            ],
            cvss_tenths: 87,
        }
    } else if i == 4 {
        PatternView {
            id: "frontrunning"@,
            name: "Frontrunning / MEV Extraction"@,
            description: "Attacker observes pending transaction and places own transaction first"@,
            year: 2018,
            incidents: seq![
                "General vulnerability since Ethereum inception"@,
            ],
            vulnerable_patterns: seq![
                "price_depends_on_order"@,
                "state_visible_in_mempool"@,
                "no_slippage_protection"@,
            ],
            defensive_invariants: seq![
                "slippage_limits_enforced"@,
                "atomic_swap_no_intermediate_states"@,
                "timestamp_deadline_checks"@,
                "sorted_by_priority_not_order"@,
            ],
            affected_chains: seq![
                "evm"@,
            ],
            cvss_tenths: 75,
        }
    } else if i == 5 {
        PatternView {
            id: "type_confusion"@,
            name: "Type Confusion / Implicit Conversion"@,
            description: "Implicit type conversions cause incorrect comparisons or operations"@,
            year: 2019,
            incidents: seq![
                "Multiplier Finance (2021) - $1M loss"@,
            ],
            vulnerable_patterns: seq![
                "implicit_type_conversion"@,
                "comparison_different_types"@,
                "address_to_uint_conversion"@,
            ],
            defensive_invariants: seq![
                "no_implicit_conversions"@,
                "explicit_type_matching_required"@,
                "type_checked_before_comparison"@,
            ],
            affected_chains: seq![
                "evm"@,
            ],
            cvss_tenths: 72,
        }
    } else if i == 6 {
        PatternView {
            id: "delegatecall_misuse"@,
            name: "Delegatecall to Untrusted Code"@,
            description: "Contract delegatecalls to address that can be controlled by attacker"@,
            year: 2016,
            incidents: seq![
                "King of the Ether (2016) - theft of contract funds"@,
            ],
            vulnerable_patterns: seq![
                "delegatecall(attacker_address)"@,
                "delegatecall_to_user_input"@,
                "no_validation_before_delegatecall"@,
            ],
            defensive_invariants: seq![
                "delegatecall_target_hardcoded"@,
                "delegatecall_target_audited"@,
                "no_delegatecall_to_untrusted"@,
                "delegatecall_results_validated"@,
            ],
            affected_chains: seq![
                "evm"@,
            ],
            cvss_tenths: 98,
        }
    } else {
        PatternView {
            id: "timestamp_dependence"@,
            name: "Timestamp Dependence"@,
            description: "Miner/validator can manipulate block timestamp for advantage"@,
            year: 2015,
            incidents: seq![
                "Various lottery and randomness exploits"@,
            ],
            vulnerable_patterns: seq![
                "random_number = block.timestamp"@,
                "critical_logic_depends_on_block.timestamp"@,
                "no_time_bounds_checking"@,
            ],
            defensive_invariants: seq![
                "no_randomness_from_timestamp"@,
                "randomness_from_external_oracle"@,
                "time_bounds_enforced"@,
                "timestamp_within_reasonable_bounds"@,
            ],
            affected_chains: seq![
                "evm"@,
            ],
            cvss_tenths: 65,
        }
    }
}

/// The catalogue after its first `n` entries have been entered, each
/// under its id.
pub open spec fn catalogue(n: nat) -> Map<Seq<char>, PatternView>
    decreases n,
{
    if n == 0 {
        Map::empty()
    } else {
        catalogue((n - 1) as nat).insert(
            catalogue_entry(n - 1).id,
            catalogue_entry(n - 1),
        )
    }
}

/// The ids of the catalogue's entries differ from one another.
pub proof fn lemma_catalogue_ids_differ(i: int, j: int)
    requires
        0 <= i < 8,
        0 <= j < 8,
        i != j,
    ensures
        catalogue_entry(i).id != catalogue_entry(j).id,
{
    reveal_strlit("reentrancy");
    reveal_strlit("integer_overflow");
    reveal_strlit("access_control_bypass");
    reveal_strlit("flash_loan");
    reveal_strlit("frontrunning");
    reveal_strlit("type_confusion");
    reveal_strlit("delegatecall_misuse");
    reveal_strlit("timestamp_dependence");
    if catalogue_entry(i).id.len() == catalogue_entry(j).id.len() {
        assert("reentrancy"@[0] != "flash_loan"@[0]);
    }
}

/// The catalogue holds one entry for each id: after `n` entries it has
/// `n` keys, each the id of one of them.
pub proof fn lemma_catalogue_size(n: nat)
    requires
        n <= 8,
    ensures
        catalogue(n).dom().finite(),
        catalogue(n).dom().len() == n,
        forall|k: Seq<char>| #[trigger]
            catalogue(n).contains_key(k) ==> exists|j: int|
                0 <= j < n && catalogue_entry(j).id == k,
    decreases n,
{
    if n > 0 {
        lemma_catalogue_size((n - 1) as nat);
        let id = catalogue_entry(n - 1).id;
        if catalogue((n - 1) as nat).contains_key(id) {
            let j = choose|j: int| 0 <= j < n - 1 && catalogue_entry(j).id == id;
            lemma_catalogue_ids_differ(j, n - 1);
        }
        assert(catalogue(n).dom() =~= catalogue((n - 1) as nat).dom().insert(id));
    }
}

/// The views of a list of string slices.
pub open spec fn literal_views(v: Seq<&'static str>) -> Seq<Seq<char>> {
    Seq::new(v.len(), |i: int| v[i]@)
}

fn owned(items: Vec<&'static str>) -> (v: Vec<String>)
    ensures
        strings_view(v@) == literal_views(items@),
{
    let mut v: Vec<String> = Vec::new();
    let mut i: usize = 0;
    while i < items.len()
        invariant
            i <= items.len(),
            v.len() == i,
            forall|j: int| 0 <= j < i ==> v@[j]@ == items@[j]@,
        decreases items.len() - i,
    {
        v.push(String::from_str(items[i]));
        i += 1;
    }
    assert(strings_view(v@) =~= literal_views(items@));
    v
}

fn entry(i: usize) -> (p: AttackPattern)
    requires
        i < 8,
    ensures
        p@ == catalogue_entry(i as int),
{
    let p = if i == 0 {
        AttackPattern {
            id: String::from_str("reentrancy"),
            name: String::from_str("Reentrancy"),
            description: String::from_str("Attacker calls back into contract during execution, modifying state before previous execution completes"),
            year: 2016,
            incidents: owned(
                vec![
                    "The DAO (2016) - $50M loss",
                ],
            ),
            vulnerable_patterns: owned(
                vec![
                    "transfer_funds(); /* state update after */",
                    "transfer(amount)",
                    "delegatecall",
                    "state update AFTER external call",
                    "payable(msg.sender).transfer",
                    "call.value()() without checking re-entry",
                    "state_change_after_external_call",
                ],
            ),
            defensive_invariants: owned(
                vec![
                    "state_update_before_external_call",
                    "mutex_lock_during_transfer",
                    "checks_effects_interactions_order",
                    "balance_matches_sum_before_and_after",
                ],
            ),
            affected_chains: owned(
                vec![
                    "evm",
                ],
            ),
            cvss_tenths: 98,
        }
    } else if i == 1 {
        AttackPattern {
            id: String::from_str("integer_overflow"),
            name: String::from_str("Integer Overflow/Underflow"),
            description: String::from_str("Arithmetic operations exceed max/min bounds, wrapping to opposite extreme"),
            year: 2018,
            incidents: owned(
                vec![
                    "BEC Token (2018) - $7.6M frozen",
                    "BeautyChain (2018) - batch transfer bug",
                ],
            ),
            vulnerable_patterns: owned(
                vec![
                    "unchecked_addition",
                    "unchecked_subtraction",
                    "balance + amount without overflow check",
                ],
            ),
            defensive_invariants: owned(
                vec![
                    "addition_with_overflow_check",
                    "subtraction_with_underflow_check",
                    "total_supply_constant",
                    "balance_never_negative",
                ],
            ),
            affected_chains: owned(
                vec![
                    "evm",
                    "move",
                ],
            ),
            cvss_tenths: 85,
        }
    } else if i == 2 {
        AttackPattern {
            id: String::from_str("access_control_bypass"),
            name: String::from_str("Access Control Bypass"),
            description: String::from_str("Attacker circumvents permission checks to perform privileged operations"),
            year: 2017,
            incidents: owned(
                vec![
                    "Parity Wallet (2017) - $30M frozen",
                ],
            ),
            vulnerable_patterns: owned(
                vec![
                    "missing_require(is_owner())",
                    "tx.origin != msg.sender",
                    "no_signature_validation",
                    "public_function_without_auth",
                ],
            ),
            defensive_invariants: owned(
                vec![
                    "only_owner_can_transfer",
                    "multisig_required_for_critical_ops",
                    "all_privileged_ops_checked",
                    "authorization_before_state_change",
                ],
            ),
            affected_chains: owned(
                vec![
                    "evm",
                    "solana",
                    "move",
                ],
            ),
            cvss_tenths: 99,
        }
    } else if i == 3 {
        AttackPattern {
            id: String::from_str("flash_loan"),
            name: String::from_str("Flash Loan Attack"),
            description: String::from_str("Attacker borrows large amount in single transaction to manipulate price"),
            year: 2020,
            incidents: owned(
                vec![
                    "bZx (2020) - $350K + $600K losses",
                    "Harvest Finance (2020) - $34M loss",
                ],
            ),
            vulnerable_patterns: owned(
                vec![
                    "price_oracle_single_source",
                    "no_price_validation",
                    "lending_without_collateral_check",
                ],
            ),
            defensive_invariants: owned(
                vec![
                    "price_from_multiple_sources",
                    "collateral_check_before_lending",
                    "price_deviation_limits",
                    "no_same_block_operations",
                ],
            ),
            affected_chains: owned(
                vec![
                    "evm",
                ],
            ),
            cvss_tenths: 87,
        }
    } else if i == 4 {
        AttackPattern {
            id: String::from_str("frontrunning"),
            name: String::from_str("Frontrunning / MEV Extraction"),
            description: String::from_str("Attacker observes pending transaction and places own transaction first"),
            year: 2018,
            incidents: owned(
                vec![
                    "General vulnerability since Ethereum inception",
                ],
            ),
            vulnerable_patterns: owned(
                vec![
                    "price_depends_on_order",
                    "state_visible_in_mempool",
                    "no_slippage_protection",
                ],
            ),
            defensive_invariants: owned(
                vec![
                    "slippage_limits_enforced",
                    "atomic_swap_no_intermediate_states",
                    "timestamp_deadline_checks",
                    "sorted_by_priority_not_order",
                ],
            ),
            affected_chains: owned(
                vec![
                    "evm",
                ],
            ),
            cvss_tenths: 75,
        }
    } else if i == 5 {
        AttackPattern {
            id: String::from_str("type_confusion"),
            name: String::from_str("Type Confusion / Implicit Conversion"),
            description: String::from_str("Implicit type conversions cause incorrect comparisons or operations"),
            year: 2019,
            incidents: owned(
                vec![
                    "Multiplier Finance (2021) - $1M loss",
                ],
            ),
            vulnerable_patterns: owned(
                vec![
                    "implicit_type_conversion",
                    "comparison_different_types",
                    "address_to_uint_conversion",
                ],
            ),
            defensive_invariants: owned(
                vec![
                    "no_implicit_conversions",
                    "explicit_type_matching_required",
                    "type_checked_before_comparison",
                ],
            ),
            affected_chains: owned(
                vec![
                    "evm",
                ],
            ),
            cvss_tenths: 72,
        }
    } else if i == 6 {
        AttackPattern {
            id: String::from_str("delegatecall_misuse"),
            name: String::from_str("Delegatecall to Untrusted Code"),
            description: String::from_str("Contract delegatecalls to address that can be controlled by attacker"),
            year: 2016,
            incidents: owned(
                vec![
                    "King of the Ether (2016) - theft of contract funds",
                ],
            ),
            vulnerable_patterns: owned(
                vec![
                    "delegatecall(attacker_address)",
                    "delegatecall_to_user_input",
                    "no_validation_before_delegatecall",
                ],
            ),
            defensive_invariants: owned(
                vec![
                    "delegatecall_target_hardcoded",
                    "delegatecall_target_audited",
                    "no_delegatecall_to_untrusted",
                    "delegatecall_results_validated",
                ],
            ),
            affected_chains: owned(
                vec![
                    "evm",
                ],
            ),
            cvss_tenths: 98,
        }
    } else {
        AttackPattern {
            id: String::from_str("timestamp_dependence"),
            name: String::from_str("Timestamp Dependence"),
            description: String::from_str("Miner/validator can manipulate block timestamp for advantage"),
            year: 2015,
            incidents: owned(
                vec![
                    "Various lottery and randomness exploits",
                ],
            ),
            vulnerable_patterns: owned(
                vec![
                    "random_number = block.timestamp",
                    "critical_logic_depends_on_block.timestamp",
                    "no_time_bounds_checking",
                ],
            ),
            defensive_invariants: owned(
                vec![
                    "no_randomness_from_timestamp",
                    "randomness_from_external_oracle",
                    "time_bounds_enforced",
                    "timestamp_within_reasonable_bounds",
                ],
            ),
            affected_chains: owned(
                vec![
                    "evm",
                ],
            ),
            cvss_tenths: 65,
        }
    };
    proof {
        assert(p@.incidents =~= catalogue_entry(i as int).incidents);
        assert(p@.vulnerable_patterns =~= catalogue_entry(i as int).vulnerable_patterns);
        assert(p@.defensive_invariants =~= catalogue_entry(i as int).defensive_invariants);
        assert(p@.affected_chains =~= catalogue_entry(i as int).affected_chains);
    }
    p
}

/// The views of the patterns of a map.
pub open spec fn patterns_view(m: Map<Seq<char>, AttackPattern>) -> Map<Seq<char>, PatternView> {
    Map::new(|k: Seq<char>| m.contains_key(k), |k: Seq<char>| m[k]@)
}

/// The views of a list of patterns.
pub open spec fn pattern_views(v: Seq<AttackPattern>) -> Seq<PatternView> {
    Seq::new(v.len(), |i: int| v[i]@)
}

/// The views of a list of borrowed patterns.
pub open spec fn borrowed_views(v: Seq<&AttackPattern>) -> Seq<PatternView> {
    Seq::new(v.len(), |i: int| v[i]@)
}

/// Among the first `n` of `patterns`, those that affect `chain`, in
/// order.
pub open spec fn affecting(patterns: Seq<PatternView>, chain: Seq<char>, n: nat) -> Seq<
    PatternView,
>
    decreases n,
{
    if n == 0 || n > patterns.len() {
        Seq::<PatternView>::empty()
    } else if patterns[n - 1].affected_chains.contains(chain) {
        affecting(patterns, chain, (n - 1) as nat).push(patterns[n - 1])
    } else {
        affecting(patterns, chain, (n - 1) as nat)
    }
}

/// Among the first `n` vulnerable patterns of `pattern`, in order, those
/// that occur in `code`.
pub open spec fn findings(code: Seq<char>, pattern: PatternView, n: nat) -> Seq<Seq<char>>
    decreases n,
{
    if n == 0 || n > pattern.vulnerable_patterns.len() {
        Seq::<Seq<char>>::empty()
    } else if contains_seq(code, pattern.vulnerable_patterns[n - 1]) {
        findings(code, pattern, (n - 1) as nat).push(pattern.vulnerable_patterns[n - 1])
    } else {
        findings(code, pattern, (n - 1) as nat)
    }
}

/// Whether `item` stands in `list`.
pub fn list_contains(list: &Vec<String>, item: &str) -> (r: bool)
    ensures
        r == strings_view(list@).contains(item@),
{
    let mut i: usize = 0;
    while i < list.len()
        invariant
            i <= list.len(),
            forall|j: int| 0 <= j < i ==> strings_view(list@)[j] != item@,
        decreases list.len() - i,
    {
        if crate::text::str_eq(list[i].as_str(), item) {
            assert(strings_view(list@)[i as int] == item@);
            return true;
        }
        i += 1;
    }
    false
}

/// Attack pattern database. Its patterns are walked in the order of
/// their ids.
pub struct AttackPatternDB {
    patterns: OrderedMap<AttackPattern>,
}

impl AttackPatternDB {
    /// The patterns of the database, each under its key.
    pub closed spec fn by_id(self) -> Map<Seq<char>, PatternView> {
        patterns_view(self.patterns@)
    }

    /// The keys of the database, in increasing order.
    pub closed spec fn ids(self) -> Seq<Seq<char>> {
        self.patterns.keys()
    }

    /// The patterns of the database, in the order of their keys.
    pub closed spec fn in_order(self) -> Seq<PatternView> {
        pattern_views(self.patterns.values())
    }

    /// Create a new attack pattern database with the known patterns.
    pub fn new() -> (db: Self)
        ensures
            db.by_id() == catalogue(8),
            db.ids().len() == 8,
    {
        let mut patterns: OrderedMap<AttackPattern> = OrderedMap::new();
        let mut i: usize = 0;
        proof {
            assert(patterns_view(patterns@) =~= catalogue(0));
        }
        while i < 8
            invariant
                i <= 8,
                patterns_view(patterns@) == catalogue(i as nat),
                patterns.keys().len() == patterns@.len(),
            decreases 8 - i,
        {
            let p = entry(i);
            let key = p.id.clone();
            let ghost before = patterns@;
            patterns.insert(key, p);
            proof {
                assert(patterns_view(patterns@) =~= patterns_view(before).insert(p.id@, p@));
            }
            i += 1;
        }
        proof {
            lemma_catalogue_size(8);
            assert(patterns@.dom() =~= patterns_view(patterns@).dom());
        }
        AttackPatternDB { patterns }
    }

    /// Get all attack patterns, in the order of their ids.
    pub fn all_patterns(&self) -> (r: Vec<&AttackPattern>)
        ensures
            borrowed_views(r@) == self.in_order(),
            r.len() == self.ids().len(),
            crate::text::strictly_sorted(self.ids()),
            self.by_id().dom() == self.ids().to_set(),
            forall|i: int|
                0 <= i < r.len() ==> self.by_id().contains_key(#[trigger] self.ids()[i])
                    && self.by_id()[self.ids()[i]] == r@[i]@,
    {
        let n = self.patterns.len();
        let mut out: Vec<&AttackPattern> = Vec::new();
        let mut i: usize = 0;
        while i < n
            invariant
                i <= n,
                n == self.patterns.keys().len(),
                n == self.patterns.values().len(),
                out.len() == i,
                forall|j: int| 0 <= j < i ==> *out@[j] == self.patterns.values()[j],
            decreases n - i,
        {
            out.push(self.patterns.value_at(i));
            i += 1;
        }
        assert(borrowed_views(out@) =~= self.in_order());
        assert(self.by_id().dom() =~= self.patterns@.dom());
        out
    }

    /// Get the patterns that affect a chain, in the order of their ids.
    pub fn patterns_for_chain(&self, chain: &str) -> (r: Vec<&AttackPattern>)
        ensures
            borrowed_views(r@) == affecting(self.in_order(), chain@, self.in_order().len()),
    {
        let n = self.patterns.len();
        let ghost all = self.in_order();
        let mut out: Vec<&AttackPattern> = Vec::new();
        let mut i: usize = 0;
        proof {
            assert(borrowed_views(out@) =~= affecting(all, chain@, 0));
        }
        while i < n
            invariant
                i <= n,
                n == self.patterns.keys().len(),
                n == all.len(),
                all == self.in_order(),
                borrowed_views(out@) == affecting(all, chain@, i as nat),
            decreases n - i,
        {
            let p = self.patterns.value_at(i);
            proof {
                assert(all[i as int] == p@);
            }
            if list_contains(&p.affected_chains, chain) {
                proof {
                    assert(borrowed_views(out@.push(p)) =~= borrowed_views(out@).push(p@));
                }
                out.push(p);
            }
            i += 1;
        }
        out
    }

    /// Get pattern by ID.
    pub fn get_pattern(&self, id: &str) -> (r: Option<&AttackPattern>)
        ensures
            match r {
                Some(p) => self.by_id().contains_key(id@) && p@ == self.by_id()[id@],
                None => !self.by_id().contains_key(id@),
            },
    {
        self.patterns.get(id)
    }

    /// The vulnerable patterns of an attack that occur in `code`, in the
    /// order of the attack's list. Nothing for an attack that the
    /// database does not know.
    pub fn check_code(&self, code: &str, attack_id: &str) -> (issues: Vec<String>)
        ensures
            strings_view(issues@) == (if self.by_id().contains_key(attack_id@) {
                let pattern = self.by_id()[attack_id@];
                findings(code@, pattern, pattern.vulnerable_patterns.len())
            } else {
                Seq::<Seq<char>>::empty()
            }),
    {
        let mut issues: Vec<String> = Vec::new();
        proof {
            assert(strings_view(issues@) =~= Seq::<Seq<char>>::empty());
        }
        match self.get_pattern(attack_id) {
            Some(pattern) => {
                let text = to_chars(code);
                let mut i: usize = 0;
                while i < pattern.vulnerable_patterns.len()
                    invariant
                        i <= pattern.vulnerable_patterns.len(),
                        text@ == code@,
                        strings_view(issues@) == findings(code@, pattern@, i as nat),
                    decreases pattern.vulnerable_patterns.len() - i,
                {
                    let vulnerable = &pattern.vulnerable_patterns[i];
                    let wanted = to_chars(vulnerable.as_str());
                    proof {
                        assert(pattern@.vulnerable_patterns[i as int] == vulnerable@);
                    }
                    if contains_chars(text.as_slice(), wanted.as_slice()) {
                        let found = vulnerable.clone();
                        proof {
                            assert(strings_view(issues@.push(found)) =~= strings_view(
                                issues@,
                            ).push(found@));
                        }
                        issues.push(found);
                    }
                    i += 1;
                }
            },
            None => {},
        }
        issues
    }
}

impl Default for AttackPatternDB {
    fn default() -> (db: Self)
        ensures
            db.by_id() == catalogue(8),
            db.ids().len() == 8,
    {
        Self::new()
    }
}

} // verus!
