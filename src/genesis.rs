use vstd::prelude::*;

use crate::digest::digest_eq;
use crate::parcel::{Epoch, NodeIndex};
use crate::rewards::{RewardParams, Supply};
use crate::state::{view_wf, AppState, AppView, CommitteeRecord, NodeRecord, ServiceRecord};

verus! {

/// The initial state of the network.
pub struct Genesis {
    pub chain_id: u32,
    pub epoch: Epoch,
    pub committee_size: u64,
    pub min_stake: u128,
    pub node_info: Vec<NodeRecord>,
    /// Indices of the first committee's members.
    pub committee: Vec<NodeIndex>,
    pub reward_params: RewardParams,
    /// The token supply at genesis (18 decimals).
    pub supply_at_genesis: u128,
    pub services: Vec<ServiceRecord>,
}

/// Why a genesis cannot be applied.
#[derive(PartialEq, Eq, Structural, Clone, Copy, Debug)]
pub enum GenesisError {
    /// More nodes than a `NodeIndex` can number.
    TooManyNodes,
    /// Two nodes with one public key.
    DuplicateNode,
    /// No epochs in a year, or a stake boost below one.
    InvalidParameters,
}

/// Whether the genesis can be applied: its nodes can be numbered and their
/// keys are unique.
pub open spec fn genesis_valid(g: Genesis) -> bool {
    &&& g.reward_params.epochs_per_year > 0
    &&& g.reward_params.max_boost >= 1
    &&& g.node_info@.len() <= u32::MAX
    &&& forall|i: int, j: int|
        0 <= i < g.node_info@.len() && 0 <= j < g.node_info@.len() && #[trigger] g.node_info@[i].public_key@
            == #[trigger] g.node_info@[j].public_key@ ==> i == j
}

/// The state that a genesis describes.
pub open spec fn genesis_view(g: Genesis) -> AppView {
    AppView {
        chain_id: g.chain_id,
        block_number: 0,
        epoch: g.epoch,
        nodes: g.node_info@,
        accounts: seq![],
        executed_txs: seq![],
        last_epoch_hash: seq![0u8, 0u8, 0u8, 0u8, 0u8, 0u8, 0u8, 0u8, 0u8, 0u8, 0u8, 0u8, 0u8, 0u8, 0u8, 0u8, 0u8, 0u8, 0u8, 0u8, 0u8, 0u8, 0u8, 0u8, 0u8, 0u8, 0u8, 0u8, 0u8, 0u8, 0u8, 0u8],
        committee_epoch: g.epoch,
        members: g.committee@,
        ready: seq![],
        past: seq![],
        beacon_phase: None,
        commits: seq![],
        reveals: seq![],
        timeouts: seq![],
        min_stake: g.min_stake,
        committee_size: g.committee_size,
        reward_params: g.reward_params,
        supply: Supply { total_supply: g.supply_at_genesis, supply_at_year_start: g.supply_at_genesis },
        services: g.services@,
        acks: seq![],
        protocol_stables: 0,
        protocol_flk: 0,
    }
}

/// The view of the application, which holds no state before genesis.
pub open spec fn app_view(app: Option<AppState>) -> Option<AppView> {
    match app {
        Some(s) => Some(s@),
        None => None,
    }
}

/// Applying a genesis: a state is created only where there is none yet.
pub open spec fn apply_genesis_spec(app: Option<AppView>, g: Genesis) -> Option<AppView> {
    match app {
        Some(_) => app,
        None => if genesis_valid(g) {
            Some(genesis_view(g))
        } else {
            None
        },
    }
}

/// Applying a genesis twice is applying it once.
pub proof fn lemma_genesis_idempotent(app: Option<AppView>, g: Genesis)
    ensures
        apply_genesis_spec(apply_genesis_spec(app, g), g) == apply_genesis_spec(app, g),
{
}

/// Checks that the genesis can be applied.
pub fn check_genesis(g: &Genesis) -> (r: Result<(), GenesisError>)
    ensures
        r is Ok <==> genesis_valid(*g),
        r == Err::<(), GenesisError>(GenesisError::InvalidParameters) <==> (
        g.reward_params.epochs_per_year == 0 || g.reward_params.max_boost == 0),
        r == Err::<(), GenesisError>(GenesisError::TooManyNodes) <==> (g.reward_params.epochs_per_year
            > 0 && g.reward_params.max_boost >= 1 && g.node_info@.len() > u32::MAX),
{
    if g.reward_params.epochs_per_year == 0 || g.reward_params.max_boost == 0 {
        return Err(GenesisError::InvalidParameters);
    }
    let n = g.node_info.len();
    if n > u32::MAX as usize {
        return Err(GenesisError::TooManyNodes);
    }
    let mut i: usize = 0;
    while i < n
        invariant
            0 <= i <= n,
            n == g.node_info@.len(),
            n <= u32::MAX,
            g.reward_params.epochs_per_year > 0,
            g.reward_params.max_boost >= 1,
            forall|a: int, b: int|
                0 <= a < i && 0 <= b < n && #[trigger] g.node_info@[a].public_key@
                    == #[trigger] g.node_info@[b].public_key@ ==> a == b,
        decreases n - i,
    {
        let mut j: usize = 0;
        while j < n
            invariant
                0 <= i < n,
                0 <= j <= n,
                n == g.node_info@.len(),
                n <= u32::MAX,
                g.reward_params.epochs_per_year > 0,
                g.reward_params.max_boost >= 1,
                forall|b: int| 0 <= b < j && b != i ==> g.node_info@[i as int].public_key@ != #[trigger] g.node_info@[b].public_key@,
            decreases n - j,
        {
            if j != i && digest_eq(&g.node_info[i].public_key, &g.node_info[j].public_key) {
                return Err(GenesisError::DuplicateNode);
            }
            j = j + 1;
        }
        assert forall|a: int, b: int|
            0 <= a < i + 1 && 0 <= b < n && #[trigger] g.node_info@[a].public_key@
                == #[trigger] g.node_info@[b].public_key@ implies a == b by {
            if a == i && b != i {
                assert(g.node_info@[i as int].public_key@ != g.node_info@[b].public_key@);
            }
        }
        i = i + 1;
    }
    assert forall|a: int, b: int|
        0 <= a < n && 0 <= b < n && #[trigger] g.node_info@[a].public_key@
            == #[trigger] g.node_info@[b].public_key@ implies a == b by {
    }
    Ok(())
}

/// Applies a genesis to an application that holds no state yet; an
/// application that holds one is left as it is.
pub fn apply_genesis(app: &mut Option<AppState>, g: &Genesis) -> (r: Result<(), GenesisError>)
    ensures
        app_view(*final(app)) == apply_genesis_spec(app_view(*old(app)), *g),
        (*old(app)) is Some ==> *final(app) == *old(app) && r is Ok,
        (*old(app)) is None ==> (r is Ok <==> genesis_valid(*g)),
        (*old(app)) is None && r is Ok ==> view_wf(genesis_view(*g)),
{
    if let Some(_) = app {
        return Ok(());
    }
    match check_genesis(g) {
        Ok(()) => {},
        Err(e) => {
            return Err(e);
        },
    }
    let mut nodes: Vec<NodeRecord> = Vec::new();
    let mut i: usize = 0;
    while i < g.node_info.len()
        invariant
            0 <= i <= g.node_info@.len(),
            nodes@ == g.node_info@.subrange(0, i as int),
        decreases g.node_info@.len() - i,
    {
        nodes.push(g.node_info[i]);
        assert(nodes@ =~= g.node_info@.subrange(0, i + 1));
        i = i + 1;
    }
    assert(g.node_info@.subrange(0, g.node_info@.len() as int) =~= g.node_info@);
    let mut members: Vec<NodeIndex> = Vec::new();
    let mut k: usize = 0;
    while k < g.committee.len()
        invariant
            0 <= k <= g.committee@.len(),
            members@ == g.committee@.subrange(0, k as int),
        decreases g.committee@.len() - k,
    {
        members.push(g.committee[k]);
        assert(members@ =~= g.committee@.subrange(0, k + 1));
        k = k + 1;
    }
    assert(g.committee@.subrange(0, g.committee@.len() as int) =~= g.committee@);
    let mut services: Vec<ServiceRecord> = Vec::new();
    let mut k: usize = 0;
    while k < g.services.len()
        invariant
            0 <= k <= g.services@.len(),
            services@ == g.services@.subrange(0, k as int),
        decreases g.services@.len() - k,
    {
        services.push(g.services[k]);
        assert(services@ =~= g.services@.subrange(0, k + 1));
        k = k + 1;
    }
    assert(g.services@.subrange(0, g.services@.len() as int) =~= g.services@);
    let state = AppState {
        chain_id: g.chain_id,
        block_number: 0,
        epoch: g.epoch,
        nodes,
        accounts: Vec::new(),
        executed_digests: Vec::new(),
        last_epoch_hash: [0u8; 32],
        committee: CommitteeRecord { epoch: g.epoch, members, ready_to_change: Vec::new() },
        past_committees: Vec::new(),
        beacon_phase: None,
        beacon_commits: Vec::new(),
        beacon_reveals: Vec::new(),
        beacon_timeouts: Vec::new(),
        min_stake: g.min_stake,
        committee_size: g.committee_size,
        reward_params: g.reward_params,
        supply: Supply { total_supply: g.supply_at_genesis, supply_at_year_start: g.supply_at_genesis },
        services,
        delivery_acks: Vec::new(),
        protocol_stables: 0,
        protocol_flk: 0,
    };
    assert(state@.past =~= genesis_view(*g).past);
    assert(state@.executed_txs =~= genesis_view(*g).executed_txs);
    assert(state@.last_epoch_hash =~= genesis_view(*g).last_epoch_hash);
    assert(state@ =~= genesis_view(*g));
    *app = Some(state);
    Ok(())
}

} // verus!
