//! Account abstraction: the phases and layers of a user operation, and
//! the state that cross-layer invariants are evaluated against.

use crate::ordmap::OrderedMap;
use crate::text::str_eq;
use vstd::prelude::*;
use vstd::string::*;

verus! {

/// Execution phases in the lifecycle of a user operation.
#[derive(Debug, Clone, Copy, PartialEq, Eq, Hash, PartialOrd, Ord, Structural)]
pub enum ExecutionPhase {
    /// Validation phase: signature checks, paymaster verification.
    Validation,
    /// Execution phase: account code runs, state mutations.
    Execution,
    /// Settlement phase: bundled with other operations, balances
    /// transferred.
    Settlement,
}

impl ExecutionPhase {
    /// The name of the phase.
    pub open spec fn label(self) -> Seq<char> {
        match self {
            ExecutionPhase::Validation => "validation"@,
            ExecutionPhase::Execution => "execution"@,
            ExecutionPhase::Settlement => "settlement"@,
        }
    }

    /// The phase that a name stands for, if it is the name of one.
    pub open spec fn named(s: Seq<char>) -> Option<ExecutionPhase> {
        if s == "validation"@ {
            Some(ExecutionPhase::Validation)
        } else if s == "execution"@ {
            Some(ExecutionPhase::Execution)
        } else if s == "settlement"@ {
            Some(ExecutionPhase::Settlement)
        } else {
            None
        }
    }

    /// Get string representation.
    pub fn as_str(&self) -> (s: &'static str)
        ensures
            s@ == self.label(),
    {
        match self {
            ExecutionPhase::Validation => "validation",
            ExecutionPhase::Execution => "execution",
            ExecutionPhase::Settlement => "settlement",
        }
    }

    /// The name of the phase, as an owned string.
    pub fn to_string(&self) -> (s: String)
        ensures
            s@ == self.label(),
    {
        String::from_str(self.as_str())
    }

    /// The phase that `s` names, if it names one.
    pub fn parse(s: &str) -> (r: Option<ExecutionPhase>)
        ensures
            r == Self::named(s@),
    {
        if str_eq(s, "validation") {
            Some(ExecutionPhase::Validation)
        } else if str_eq(s, "execution") {
            Some(ExecutionPhase::Execution)
        } else if str_eq(s, "settlement") {
            Some(ExecutionPhase::Settlement)
        } else {
            None
        }
    }
}

impl core::str::FromStr for ExecutionPhase {
    type Err = ();

    fn from_str(s: &str) -> (r: Result<Self, ()>)
        ensures
            r == (match ExecutionPhase::named(s@) {
                Some(p) => Ok::<ExecutionPhase, ()>(p),
                None => Err::<ExecutionPhase, ()>(()),
            }),
    {
        match ExecutionPhase::parse(s) {
            Some(p) => Ok(p),
            None => Err(()),
        }
    }
}

/// The layers of account abstraction execution.
#[derive(Debug, Clone, Copy, PartialEq, Eq, Hash, PartialOrd, Ord, Structural)]
pub enum AALayer {
    /// Bundler mempool and aggregation layer.
    Bundler,
    /// Account smart contract execution layer.
    Account,
    /// Optional paymaster sponsorship layer.
    Paymaster,
    /// Protocol layer.
    Protocol,
    /// EntryPoint contract layer.
    EntryPoint,
}

impl AALayer {
    /// The name of the layer.
    pub open spec fn label(self) -> Seq<char> {
        match self {
            AALayer::Bundler => "bundler"@,
            AALayer::Account => "account"@,
            AALayer::Paymaster => "paymaster"@,
            AALayer::Protocol => "protocol"@,
            AALayer::EntryPoint => "entrypoint"@,
        }
    }

    /// The layer that a name stands for, if it is the name of one.
    pub open spec fn named(s: Seq<char>) -> Option<AALayer> {
        if s == "bundler"@ {
            Some(AALayer::Bundler)
        } else if s == "account"@ {
            Some(AALayer::Account)
        } else if s == "paymaster"@ {
            Some(AALayer::Paymaster)
        } else if s == "protocol"@ {
            Some(AALayer::Protocol)
        } else if s == "entrypoint"@ {
            Some(AALayer::EntryPoint)
        } else {
            None
        }
    }

    /// Get string representation.
    pub fn as_str(&self) -> (s: &'static str)
        ensures
            s@ == self.label(),
    {
        match self {
            AALayer::Bundler => "bundler",
            AALayer::Account => "account",
            AALayer::Paymaster => "paymaster",
            AALayer::Protocol => "protocol",
            AALayer::EntryPoint => "entrypoint",
        }
    }

    /// The name of the layer, as an owned string.
    pub fn to_string(&self) -> (s: String)
        ensures
            s@ == self.label(),
    {
        String::from_str(self.as_str())
    }

    /// The layer that `s` names, if it names one.
    pub fn parse(s: &str) -> (r: Option<AALayer>)
        ensures
            r == Self::named(s@),
    {
        if str_eq(s, "bundler") {
            Some(AALayer::Bundler)
        } else if str_eq(s, "account") {
            Some(AALayer::Account)
        } else if str_eq(s, "paymaster") {
            Some(AALayer::Paymaster)
        } else if str_eq(s, "protocol") {
            Some(AALayer::Protocol)
        } else if str_eq(s, "entrypoint") {
            Some(AALayer::EntryPoint)
        } else {
            None
        }
    }
}

impl core::str::FromStr for AALayer {
    type Err = ();

    fn from_str(s: &str) -> (r: Result<Self, ()>)
        ensures
            r == (match AALayer::named(s@) {
                Some(l) => Ok::<AALayer, ()>(l),
                None => Err::<AALayer, ()>(()),
            }),
    {
        match AALayer::parse(s) {
            Some(l) => Ok(l),
            None => Err(()),
        }
    }
}

/// UserOperation data from bundler layer.
#[derive(Debug, Clone)]
pub struct UserOpData {
    /// Account address.
    pub sender: String,
    /// Operation nonce.
    pub nonce: u128,
    /// Init code if deploying new account.
    pub init_code: Vec<u8>,
    /// Call data.
    pub call_data: Vec<u8>,
    /// Call gas limit.
    pub call_gas_limit: u128,
    /// Verification gas limit.
    pub verification_gas_limit: u128,
    /// Pre-operation gas.
    pub pre_op_gas: u128,
    /// Maximum gas price account will accept.
    pub max_gas_price: u128,
    /// Maximum priority gas price.
    pub max_priority_fee_per_gas: u128,
    /// Paymaster address (if applicable).
    pub paymaster_and_data: Vec<u8>,
    /// Signature data.
    pub signature: Vec<u8>,
}

/// Account smart contract state.
#[derive(Debug, Clone)]
pub struct AccountState {
    /// Account nonce value.
    pub nonce: u128,
    /// Account balance.
    pub balance: u128,
    /// Expected signer address.
    pub expected_signer: String,
    /// Whether signature is valid.
    pub signature_valid: bool,
    /// Reentrancy guard state.
    pub reentrancy_locked: bool,
    /// Execution failed flag.
    pub execution_failed: bool,
    /// State hash before execution.
    pub state_hash_before: String,
    /// State hash after execution.
    pub state_hash_after: String,
}

/// Paymaster contract state (optional).
#[derive(Debug, Clone)]
pub struct PaymasterState {
    /// Paymaster address.
    pub address: String,
    /// Deposit amount.
    pub deposit: u128,
    /// Paymaster nonce.
    pub nonce: u128,
    /// Verification status.
    pub status: String,
}

/// EntryPoint contract state.
#[derive(Debug, Clone)]
pub struct EntryPointState {
    /// EntryPoint address.
    pub address: String,
    /// Current block number.
    pub block_number: u128,
    /// Current block timestamp.
    pub block_timestamp: u128,
    /// Authenticated caller.
    pub authenticated_caller: String,
}

/// Cross-layer invariant check result. `V` is the type of the values of
/// variables.
#[derive(Debug, Clone)]
pub struct CrossLayerCheckResult<V> {
    /// Invariant name.
    pub invariant_name: String,
    /// Layers involved in this check.
    pub layers_involved: Vec<String>,
    /// Whether the invariant holds.
    pub holds: bool,
    /// Detailed reason if invariant fails.
    pub failure_reason: Option<String>,
    /// Variables used in evaluation.
    pub variables_used: OrderedMap<V>,
}

/// The value of a layer's variable, if the layer has it.
pub open spec fn layer_var<V>(
    state: Map<Seq<char>, OrderedMap<V>>,
    layer: Seq<char>,
    var: Seq<char>,
) -> Option<V> {
    if state.contains_key(layer) && state[layer]@.contains_key(var) {
        Some(state[layer]@[var])
    } else {
        None
    }
}

/// Whether `copy` has the variables of `original`, each with a clone of
/// its value.
pub open spec fn layer_copied<V: Clone>(original: OrderedMap<V>, copy: OrderedMap<V>) -> bool {
    &&& copy.keys() == original.keys()
    &&& copy.values().len() == original.values().len()
    &&& forall|i: int|
        0 <= i < original.values().len() ==> cloned(
            #[trigger] original.values()[i],
            copy.values()[i],
        )
}

/// Whether `copy` has the layers of `original`, each with its variables
/// and a clone of each value.
pub open spec fn state_copied<V: Clone>(
    original: OrderedMap<OrderedMap<V>>,
    copy: OrderedMap<OrderedMap<V>>,
) -> bool {
    &&& copy.keys() == original.keys()
    &&& copy.values().len() == original.values().len()
    &&& forall|i: int|
        0 <= i < original.values().len() ==> layer_copied(
            #[trigger] original.values()[i],
            copy.values()[i],
        )
}

/// Whether `copy` binds the variables of `original`, each to a clone of
/// its value.
pub open spec fn layer_mirrors<V: Clone>(
    original: Map<Seq<char>, V>,
    copy: Map<Seq<char>, V>,
) -> bool {
    &&& copy.dom() == original.dom()
    &&& forall|var: Seq<char>|
        original.contains_key(var) ==> cloned(#[trigger] original[var], copy[var])
}

/// Whether `copy` binds the layers of `original`, and under each layer
/// the layer's variables, each to a clone of its value.
pub open spec fn state_mirrors<V: Clone>(
    original: Map<Seq<char>, OrderedMap<V>>,
    copy: Map<Seq<char>, OrderedMap<V>>,
) -> bool {
    &&& copy.dom() == original.dom()
    &&& forall|layer: Seq<char>|
        original.contains_key(layer) ==> layer_mirrors(#[trigger] original[layer]@, copy[layer]@)
}

fn copy_layer<V: Clone>(m: &OrderedMap<V>) -> (r: OrderedMap<V>)
    ensures
        layer_copied(*m, r),
        layer_mirrors(m@, r@),
{
    m.clone()
}

fn copy_state<V: Clone>(m: &OrderedMap<OrderedMap<V>>) -> (r: OrderedMap<OrderedMap<V>>)
    ensures
        state_copied(*m, r),
        state_mirrors(m@, r@),
{
    let n = m.len();
    let mut out: OrderedMap<OrderedMap<V>> = OrderedMap::new();
    let mut i: usize = 0;
    while i < n
        invariant
            i <= n,
            n == m.keys().len(),
            n == m.values().len(),
            out.ordered(),
            m.ordered(),
            out.keys() == m.keys().take(i as int),
            out.values().len() == i,
            forall|j: int| 0 <= j < i ==> layer_copied(#[trigger] m.values()[j], out.values()[j]),
            forall|j: int|
                0 <= j < i ==> layer_mirrors((#[trigger] m.values()[j])@, out.values()[j]@),
        decreases n - i,
    {
        let k = m.key_at(i).clone();
        let v = copy_layer(m.value_at(i));
        out.push_last(k, v);
        i += 1;
    }
    proof {
        assert(m.keys().take(n as int) =~= m.keys());
        assert(out@.dom() =~= m@.dom());
        assert forall|layer: Seq<char>| m@.contains_key(layer) implies layer_mirrors(
            #[trigger] m@[layer]@,
            out@[layer]@,
        ) by {
            let j = m.keys().index_of(layer);
            assert(m@[layer] == m.values()[j]);
            assert(out@[layer] == out.values()[j]);
        }
    }
    out
}

/// Cross-layer context for account abstraction analysis. `V` is the type
/// of the values of variables.
#[derive(Debug, Clone)]
pub struct AAContext<V> {
    /// Current execution phase.
    pub current_phase: Option<ExecutionPhase>,
    /// Layer-specific state variables: layer, then variable, then value.
    pub layer_state: OrderedMap<OrderedMap<V>>,
    /// The layer state as it was when each phase was snapshotted.
    pub phase_snapshots: OrderedMap<OrderedMap<OrderedMap<V>>>,
    /// UserOperation data from bundler layer.
    pub user_op: Option<UserOpData>,
    /// Account state from account layer.
    pub account_state: Option<AccountState>,
    /// Paymaster state from paymaster layer (if applicable).
    pub paymaster_state: Option<PaymasterState>,
    /// EntryPoint state from protocol layer.
    pub entry_point_state: Option<EntryPointState>,
}

impl<V: Clone> AAContext<V> {
    /// Set the current execution phase.
    pub fn set_phase(&mut self, phase: ExecutionPhase)
        ensures
            final(self).current_phase == Some(phase),
            final(self).layer_state == old(self).layer_state,
            final(self).phase_snapshots == old(self).phase_snapshots,
    {
        self.current_phase = Some(phase);
    }

    /// Get the current execution phase.
    pub fn get_phase(&self) -> (p: Option<ExecutionPhase>)
        ensures
            p == self.current_phase,
    {
        self.current_phase
    }

    /// Check if currently in a specific phase.
    pub fn in_phase(&self, phase: ExecutionPhase) -> (b: bool)
        ensures
            b == (self.current_phase == Some(phase)),
    {
        match self.current_phase {
            Some(p) => p == phase,
            None => false,
        }
    }

    /// Record the live state under a phase, in place of an earlier record
    /// of that phase. The record is a copy: what is done to the live
    /// state afterwards does not show in it.
    pub fn snapshot_phase(&mut self, phase: ExecutionPhase)
        ensures
            final(self).phase_snapshots@.dom() == old(self).phase_snapshots@.dom().insert(
                phase.label(),
            ),
            state_copied(old(self).layer_state, final(self).phase_snapshots@[phase.label()]),
            state_mirrors(old(self).layer_state@, final(self).phase_snapshots@[phase.label()]@),
            forall|p: Seq<char>|
                p != phase.label() && old(self).phase_snapshots@.contains_key(p)
                    ==> final(self).phase_snapshots@[p] == old(self).phase_snapshots@[p],
            final(self).layer_state == old(self).layer_state,
            final(self).current_phase == old(self).current_phase,
    {
        let copy = copy_state(&self.layer_state);
        self.phase_snapshots.insert(phase.to_string(), copy);
        assert(self.phase_snapshots@.dom() =~= old(self).phase_snapshots@.dom().insert(
            phase.label(),
        ));
    }

    /// Get the snapshot of a phase, if one was taken.
    pub fn get_phase_snapshot(&self, phase: ExecutionPhase) -> (r: Option<
        &OrderedMap<OrderedMap<V>>,
    >)
        ensures
            r == (if self.phase_snapshots@.contains_key(phase.label()) {
                Some(&self.phase_snapshots@[phase.label()])
            } else {
                None
            }),
    {
        self.phase_snapshots.get(phase.as_str())
    }

    /// Get variable value from a specific layer.
    pub fn get_layer_var(&self, layer: &str, var: &str) -> (r: Option<&V>)
        ensures
            match r {
                Some(v) => layer_var(self.layer_state@, layer@, var@) == Some(*v),
                None => layer_var(self.layer_state@, layer@, var@) is None,
            },
    {
        match self.layer_state.get(layer) {
            Some(vars) => vars.get(var),
            None => None,
        }
    }

    /// Set variable value in a specific layer. A layer that was not there
    /// is made.
    pub fn set_layer_var(&mut self, layer: String, var: String, value: V)
        ensures
            final(self).layer_state@.dom() == old(self).layer_state@.dom().insert(layer@),
            final(self).layer_state@[layer@]@ == (if old(self).layer_state@.contains_key(layer@) {
                old(self).layer_state@[layer@]@
            } else {
                Map::empty()
            }).insert(var@, value),
            forall|l: Seq<char>|
                l != layer@ && old(self).layer_state@.contains_key(l)
                    ==> final(self).layer_state@[l] == old(self).layer_state@[l],
            final(self).phase_snapshots == old(self).phase_snapshots,
            final(self).current_phase == old(self).current_phase,
    {
        let mut vars = match self.layer_state.remove(layer.as_str()) {
            Some(m) => m,
            None => OrderedMap::new(),
        };
        vars.insert(var, value);
        self.layer_state.insert(layer, vars);
        assert(self.layer_state@.dom() =~= old(self).layer_state@.dom().insert(layer@));
    }

    /// Get variable value from a specific layer as it was when a phase
    /// was snapshotted.
    pub fn get_layer_var_at_phase(&self, phase: ExecutionPhase, layer: &str, var: &str) -> (r:
        Option<&V>)
        ensures
            match r {
                Some(v) => self.phase_snapshots@.contains_key(phase.label()) && layer_var(
                    self.phase_snapshots@[phase.label()]@,
                    layer@,
                    var@,
                ) == Some(*v),
                None => !self.phase_snapshots@.contains_key(phase.label()) || layer_var(
                    self.phase_snapshots@[phase.label()]@,
                    layer@,
                    var@,
                ) is None,
            },
    {
        match self.phase_snapshots.get(phase.as_str()) {
            Some(state) => match state.get(layer) {
                Some(vars) => vars.get(var),
                None => None,
            },
            None => None,
        }
    }
}

impl<V> Default for AAContext<V> {
    fn default() -> (c: Self)
        ensures
            c.current_phase is None,
            c.layer_state@ == Map::<Seq<char>, OrderedMap<V>>::empty(),
            c.phase_snapshots@ == Map::<Seq<char>, OrderedMap<OrderedMap<V>>>::empty(),
            c.user_op is None,
            c.account_state is None,
            c.paymaster_state is None,
            c.entry_point_state is None,
    {
        AAContext {
            current_phase: None,
            layer_state: OrderedMap::new(),
            phase_snapshots: OrderedMap::new(),
            user_op: None,
            account_state: None,
            paymaster_state: None,
            entry_point_state: None,
        }
    }
}

} // verus!
