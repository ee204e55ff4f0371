use vstd::prelude::*;

use crate::codec::read_u64_be;
use crate::digest::{blake3_of, Digest};
use crate::parcel::{quorum, Epoch, NodeIndex};
use crate::rewards::{
    boost_of,
    distribution_fits,
    emissions_of,
    node_revenue,
    percent,
    service_revenue,
    split,
    supply_after,
    supply_fits,
    total_revenue,
    total_weight,
    weight,
    DeliveryAck,
    RewardParams,
    Supply,
};

verus! {

/// Whether a node takes part in consensus. `OptedIn` becomes `True`, and
/// `OptedOut` becomes `False`, at the next epoch boundary.
#[derive(PartialEq, Eq, Structural, Clone, Copy, Debug)]
pub enum Participation {
    True,
    False,
    OptedIn,
    OptedOut,
}

/// A node's stake, in the smallest unit of the staking token.
#[derive(PartialEq, Eq, Structural, Clone, Copy, Debug)]
pub struct Stake {
    pub staked: u128,
    pub locked: u128,
    pub locked_until: u64,
    pub stake_locked_until: u64,
}

/// A registered node. Its index is its position in the node table.
#[derive(Clone, Copy, Debug)]
pub struct NodeRecord {
    pub public_key: Digest,
    pub owner: Digest,
    pub stake: Stake,
    pub participation: Participation,
    pub nonce: u64,
    /// The secondary nonce of the node's last transaction.
    pub secondary_nonce: u128,
    /// Rewards received, in stablecoins (6 decimals) and tokens (18 decimals).
    pub stables_balance: u128,
    pub flk_balance: u128,
}

/// A registered service: its owner, the price of one unit of its commodity in
/// stablecoins (6 decimals), and the rewards its owner received.
#[derive(Clone, Copy, Debug)]
pub struct ServiceRecord {
    pub owner: Digest,
    pub commodity_price: u128,
    pub stables_balance: u128,
    pub flk_balance: u128,
}

/// The committee of one epoch.
pub struct CommitteeRecord {
    pub epoch: Epoch,
    /// Indices of the members, in the order they were chosen.
    pub members: Vec<NodeIndex>,
    /// Members that signaled the end of the epoch, in increasing order.
    pub ready_to_change: Vec<NodeIndex>,
}

/// Who signed a transaction: a node, by public key, or an account.
#[derive(Clone, Copy)]
pub enum TransactionSender {
    Node(Digest),
    Account(Digest),
}

/// What a transaction asks for.
#[derive(Clone, Copy)]
pub enum UpdateMethod {
    ChangeEpoch { epoch: Epoch },
    OptIn,
    OptOut,
    /// Commits to a beacon secret by its hash.
    CommitteeSelectionBeaconCommit { commit: Digest },
    /// Reveals the secret committed to.
    CommitteeSelectionBeaconReveal { reveal: Digest },
    CommitteeSelectionBeaconCommitPhaseTimeout,
    CommitteeSelectionBeaconRevealPhaseTimeout,
    /// Deliveries of `commodity` units of service `service_id` by the sender.
    SubmitDeliveryAcknowledgmentAggregation { commodity: u128, service_id: u32 },
}

/// A transaction: sender, method, the sender's next nonce, a secondary nonce
/// that tells otherwise equal transactions apart, and the chain it is meant for.
/// Its signature is checked before it reaches the state.
#[derive(Clone, Copy)]
pub struct UpdateRequest {
    pub sender: TransactionSender,
    pub method: UpdateMethod,
    pub nonce: u64,
    pub secondary_nonce: u128,
    pub chain_id: u32,
}

/// Why a transaction was reverted.
#[derive(PartialEq, Eq, Structural, Clone, Copy, Debug)]
pub enum ExecutionError {
    OnlyNode,
    OnlyAccountOwner,
    NodeDoesNotExist,
    InsufficientStake,
    NotCommitteeMember,
    NodeNotParticipating,
    EpochAlreadyChanged,
    EpochHasNotStarted,
    AlreadySignaled,
    InvalidNonce,
    InvalidSignature,
    InvalidProof,
    Unimplemented,
    CommitteeSelectionBeaconNotCommitPhase,
    CommitteeSelectionBeaconNotRevealPhase,
    CommitteeSelectionBeaconAlreadyCommitted,
    CommitteeSelectionBeaconNotCommitted,
    CommitteeSelectionBeaconAlreadyRevealed,
    CommitteeSelectionBeaconInvalidReveal,
    InvalidChainId,
}

/// What a transaction did.
#[derive(PartialEq, Eq, Structural, Clone, Copy, Debug)]
pub enum TransactionResponse {
    Success,
    Revert(ExecutionError),
}

/// The receipt of a block: its number, whether it ended the epoch, and the
/// receipt of each of its transactions.
pub struct BlockReceipt {
    pub block_number: u64,
    pub change_epoch: bool,
    pub txn_receipts: Vec<TransactionReceipt>,
}

/// The receipt of one transaction.
#[derive(PartialEq, Eq, Structural, Clone, Copy, Debug)]
pub struct TransactionReceipt {
    pub response: TransactionResponse,
    pub change_epoch: bool,
}

/// The phase of the committee-selection beacon: `(epoch, round)`.
#[derive(PartialEq, Eq, Structural, Clone, Copy, Debug)]
pub enum CommitteeSelectionBeaconPhase {
    Commit(Epoch, u64),
    Reveal(Epoch, u64),
}

/// The replicated application state that transactions act on.
pub struct AppState {
    pub chain_id: u32,
    /// How many blocks were executed.
    pub block_number: u64,
    pub epoch: Epoch,
    pub nodes: Vec<NodeRecord>,
    /// Nonces of accounts that have sent transactions.
    pub accounts: Vec<(Digest, u64)>,
    /// Hashes of the transactions executed, against replays.
    pub executed_digests: Vec<Digest>,
    /// The hash that sums up the last epoch that ended.
    pub last_epoch_hash: Digest,
    /// The committee of the current epoch.
    pub committee: CommitteeRecord,
    /// The committees of the epochs that ended, oldest first.
    pub past_committees: Vec<CommitteeRecord>,
    pub beacon_phase: Option<CommitteeSelectionBeaconPhase>,
    /// Beacon commitments of the current round, in order of arrival.
    pub beacon_commits: Vec<(NodeIndex, Digest)>,
    /// Beacon reveals of the current round, in order of arrival.
    pub beacon_reveals: Vec<(NodeIndex, Digest)>,
    /// Members that declared the current beacon phase timed out.
    pub beacon_timeouts: Vec<NodeIndex>,
    pub min_stake: u128,
    /// How many nodes the beacon chooses for the next committee.
    pub committee_size: u64,
    pub reward_params: RewardParams,
    pub supply: Supply,
    pub services: Vec<ServiceRecord>,
    /// Deliveries acknowledged in the current epoch.
    pub delivery_acks: Vec<DeliveryAck>,
    /// Rewards the protocol received, in stablecoins and tokens.
    pub protocol_stables: u128,
    pub protocol_flk: u128,
}

/// The state as the transaction rules see it.
pub struct AppView {
    pub chain_id: u32,
    pub block_number: u64,
    pub epoch: Epoch,
    pub nodes: Seq<NodeRecord>,
    pub accounts: Seq<(Digest, u64)>,
    pub executed_txs: Seq<Seq<u8>>,
    pub last_epoch_hash: Seq<u8>,
    pub committee_epoch: Epoch,
    pub members: Seq<NodeIndex>,
    pub ready: Seq<NodeIndex>,
    /// The committees of the epochs that ended: epoch, members, ready set.
    pub past: Seq<(Epoch, Seq<NodeIndex>, Seq<NodeIndex>)>,
    pub beacon_phase: Option<CommitteeSelectionBeaconPhase>,
    pub commits: Seq<(NodeIndex, Digest)>,
    pub reveals: Seq<(NodeIndex, Digest)>,
    pub timeouts: Seq<NodeIndex>,
    pub min_stake: u128,
    pub committee_size: u64,
    pub reward_params: RewardParams,
    pub supply: Supply,
    pub services: Seq<ServiceRecord>,
    pub acks: Seq<DeliveryAck>,
    pub protocol_stables: u128,
    pub protocol_flk: u128,
}

impl View for AppState {
    type V = AppView;

    open spec fn view(&self) -> AppView {
        AppView {
            chain_id: self.chain_id,
            block_number: self.block_number,
            epoch: self.epoch,
            nodes: self.nodes@,
            accounts: self.accounts@,
            executed_txs: Seq::new(self.executed_digests@.len(), |i: int| self.executed_digests@[i]@),
            last_epoch_hash: self.last_epoch_hash@,
            committee_epoch: self.committee.epoch,
            members: self.committee.members@,
            ready: self.committee.ready_to_change@,
            past: Seq::new(
                self.past_committees@.len(),
                |i: int|
                    (
                        self.past_committees@[i].epoch,
                        self.past_committees@[i].members@,
                        self.past_committees@[i].ready_to_change@,
                    ),
            ),
            beacon_phase: self.beacon_phase,
            commits: self.beacon_commits@,
            reveals: self.beacon_reveals@,
            timeouts: self.beacon_timeouts@,
            min_stake: self.min_stake,
            committee_size: self.committee_size,
            reward_params: self.reward_params,
            supply: self.supply,
            services: self.services@,
            acks: self.delivery_acks@,
            protocol_stables: self.protocol_stables,
            protocol_flk: self.protocol_flk,
        }
    }
}

/// Strictly increasing.
pub open spec fn sorted(s: Seq<NodeIndex>) -> bool {
    forall|i: int, j: int| 0 <= i < j < s.len() ==> s[i] < s[j]
}

/// `x` inserted into the increasing list `s` at its place.
pub open spec fn insert_sorted_spec(s: Seq<NodeIndex>, x: NodeIndex) -> Seq<NodeIndex>
    decreases s.len(),
{
    if s.len() == 0 {
        seq![x]
    } else if x < s[0] {
        seq![x] + s
    } else {
        seq![s[0]] + insert_sorted_spec(s.drop_first(), x)
    }
}

/// Well-formed state: node indices fit in a `NodeIndex`, node keys are unique,
/// and `ready` is an increasing list of committee members.
pub open spec fn view_wf(v: AppView) -> bool {
    &&& v.nodes.len() <= u32::MAX
    &&& forall|i: int, j: int|
        0 <= i < v.nodes.len() && 0 <= j < v.nodes.len() && #[trigger] v.nodes[i].public_key@
            == #[trigger] v.nodes[j].public_key@ ==> i == j
    &&& v.committee_epoch == v.epoch
    &&& sorted(v.ready)
    &&& forall|i: int| 0 <= i < v.ready.len() ==> v.members.contains(#[trigger] v.ready[i])
    &&& reveals_match(v)
    &&& v.reward_params.epochs_per_year > 0
    &&& v.reward_params.max_boost >= 1
}

/// Every recorded reveal hashes to its node's commitment, and there are
/// reveals only in the reveal phase.
pub open spec fn reveals_match(v: AppView) -> bool {
    &&& forall|k: int|
        0 <= k < v.reveals.len() ==> match committed_hash(v.commits, (#[trigger] v.reveals[k]).0) {
            Some(h) => blake3_of(v.reveals[k].1@) == h@,
            None => false,
        }
    &&& !(v.beacon_phase matches Some(CommitteeSelectionBeaconPhase::Reveal(_, _))) ==> v.reveals.len() == 0
}

/// The index of the node with public key `key`.
pub open spec fn node_index_of(nodes: Seq<NodeRecord>, key: Seq<u8>) -> Option<int> {
    if exists|i: int| 0 <= i < nodes.len() && #[trigger] nodes[i].public_key@ == key {
        Some(choose|i: int| 0 <= i < nodes.len() && #[trigger] nodes[i].public_key@ == key)
    } else {
        None
    }
}

/// The nonce of account `a`: that of its last record, or zero.
pub open spec fn account_nonce(accounts: Seq<(Digest, u64)>, a: Seq<u8>) -> int
    decreases accounts.len(),
{
    if accounts.len() == 0 {
        0
    } else if accounts.last().0@ == a {
        accounts.last().1 as int
    } else {
        account_nonce(accounts.drop_last(), a)
    }
}

/// Counts toward the end of the epoch: participates now, and holds the
/// minimum stake without counting locked stake.
pub open spec fn eligible_to_signal(node: NodeRecord, min_stake: u128) -> bool {
    node.participation == Participation::True && node.stake.staked >= min_stake
}

/// Participates in the current epoch (an opt-out takes effect at its end).
pub open spec fn participating(p: Participation) -> bool {
    p == Participation::True || p == Participation::OptedOut
}

/// Holds the minimum stake, locked stake included.
pub open spec fn has_sufficient_stake(node: NodeRecord, min_stake: u128) -> bool {
    node.stake.staked + node.stake.locked >= min_stake
}

/// Participation after an opt-in.
pub open spec fn opted_in(p: Participation) -> Participation {
    match p {
        Participation::False => Participation::OptedIn,
        Participation::OptedOut => Participation::True,
        _ => p,
    }
}

/// Participation after an opt-out.
pub open spec fn opted_out(p: Participation) -> Participation {
    match p {
        Participation::True => Participation::OptedOut,
        Participation::OptedIn => Participation::False,
        _ => p,
    }
}

/// Participation in the next epoch.
pub open spec fn next_participation(p: Participation) -> Participation {
    match p {
        Participation::OptedIn => Participation::True,
        Participation::OptedOut => Participation::False,
        _ => p,
    }
}

/// The outcome of `ChangeEpoch { epoch }` sent by node `i`: the error it
/// reverts with, or whether the signal counts toward the end of the epoch.
pub open spec fn change_epoch_outcome(v: AppView, i: int, epoch: Epoch) -> Result<bool, ExecutionError> {
    let n = v.nodes[i];
    if !has_sufficient_stake(n, v.min_stake) {
        Err(ExecutionError::InsufficientStake)
    } else if !participating(n.participation) {
        Err(ExecutionError::NodeNotParticipating)
    } else if epoch < v.epoch {
        Err(ExecutionError::EpochAlreadyChanged)
    } else if epoch > v.epoch {
        Err(ExecutionError::EpochHasNotStarted)
    } else if !v.members.contains(i as NodeIndex) {
        Err(ExecutionError::NotCommitteeMember)
    } else if v.ready.contains(i as NodeIndex) {
        Err(ExecutionError::AlreadySignaled)
    } else {
        Ok(eligible_to_signal(n, v.min_stake))
    }
}

/// The state after node `i` signaled: once a quorum of the committee has, the
/// beacon enters its commit phase.
pub open spec fn after_signal(v: AppView, i: int) -> AppView {
    let ready = insert_sorted_spec(v.ready, i as NodeIndex);
    AppView {
        ready,
        beacon_phase: if v.beacon_phase is None && ready.len() >= quorum(v.members.len() as int) {
            Some(CommitteeSelectionBeaconPhase::Commit(v.epoch, 0))
        } else {
            v.beacon_phase
        },
        ..v
    }
}

/// The commitment of node `i` in this round, if any.
pub open spec fn committed_hash(commits: Seq<(NodeIndex, Digest)>, i: NodeIndex) -> Option<Digest>
    decreases commits.len(),
{
    if commits.len() == 0 {
        None
    } else if commits.last().0 == i {
        Some(commits.last().1)
    } else {
        committed_hash(commits.drop_last(), i)
    }
}

/// Whether node `i` revealed in this round.
pub open spec fn has_revealed(reveals: Seq<(NodeIndex, Digest)>, i: NodeIndex) -> bool {
    exists|k: int| 0 <= k < reveals.len() && #[trigger] reveals[k].0 == i
}

/// The round after `r`.
pub open spec fn next_round(r: u64) -> u64 {
    if r == u64::MAX {
        0
    } else {
        (r + 1) as u64
    }
}

/// The beacon restarts in a new round of the commit phase.
pub open spec fn restart_round(v: AppView, e: Epoch, r: u64) -> AppView {
    AppView {
        beacon_phase: Some(CommitteeSelectionBeaconPhase::Commit(e, next_round(r))),
        commits: seq![],
        reveals: seq![],
        timeouts: seq![],
        ..v
    }
}

/// The reveals, one after the other.
pub open spec fn reveal_seed(reveals: Seq<(NodeIndex, Digest)>) -> Seq<u8>
    decreases reveals.len(),
{
    if reveals.len() == 0 {
        seq![]
    } else {
        reveal_seed(reveals.drop_last()) + reveals.last().1@
    }
}

/// The little-endian bytes of a node index.
pub open spec fn index_bytes(j: NodeIndex) -> Seq<u8> {
    crate::codec::u32_bytes(j)
}

/// A 32-byte hash as four 64-bit big-endian words, most significant first:
/// scores compare, word by word, as the hashes' bytes do.
pub type Score = (u64, u64, u64, u64);

/// The words of a 32-byte hash.
pub open spec fn hash_words(h: Seq<u8>) -> Score {
    (
        read_u64_be(h.subrange(0, 8)),
        read_u64_be(h.subrange(8, 16)),
        read_u64_be(h.subrange(16, 24)),
        read_u64_be(h.subrange(24, 32)),
    )
}

/// The score of node `j` under `seed`: the blake3 hash of the seed followed by
/// the node's index.
pub open spec fn score(seed: Seq<u8>, j: NodeIndex) -> Score {
    hash_words(blake3_of(seed + index_bytes(j)))
}

/// Whether score `a` is below score `b`.
pub open spec fn score_lt(a: Score, b: Score) -> bool {
    a.0 < b.0 || (a.0 == b.0 && (a.1 < b.1 || (a.1 == b.1 && (a.2 < b.2 || (a.2 == b.2 && a.3 < b.3)))))
}

/// Whether node `n` may be chosen for the next committee.
pub open spec fn selectable(n: NodeRecord, min_stake: u128) -> bool {
    next_participation(n.participation) == Participation::True && n.stake.staked >= min_stake
}

/// The nodes among the first `count` that may be chosen, with their scores.
pub open spec fn candidates(nodes: Seq<NodeRecord>, min_stake: u128, seed: Seq<u8>, count: nat) -> Seq<(Score, NodeIndex)>
    decreases count,
{
    if count == 0 {
        seq![]
    } else {
        let j = (count - 1) as int;
        let rest = candidates(nodes, min_stake, seed, (count - 1) as nat);
        if selectable(nodes[j], min_stake) {
            rest.push((score(seed, j as NodeIndex), j as NodeIndex))
        } else {
            rest
        }
    }
}

/// The order of candidates: by score, then by index.
pub open spec fn before(a: (Score, NodeIndex), b: (Score, NodeIndex)) -> bool {
    score_lt(a.0, b.0) || (a.0 == b.0 && a.1 < b.1)
}

/// The position of the first candidate of least order.
pub open spec fn min_index(c: Seq<(Score, NodeIndex)>) -> int
    decreases c.len(),
{
    if c.len() <= 1 {
        0
    } else {
        let m = min_index(c.drop_last());
        if before(c.last(), c[m]) {
            c.len() - 1
        } else {
            m
        }
    }
}

/// The indices of the first `k` candidates in order.
pub open spec fn select(c: Seq<(Score, NodeIndex)>, k: nat) -> Seq<NodeIndex>
    decreases k,
{
    if k == 0 || c.len() == 0 {
        seq![]
    } else {
        let m = min_index(c);
        seq![c[m].1] + select(c.remove(m), (k - 1) as nat)
    }
}

/// The next committee, chosen by the beacon from the reveals of the round.
pub open spec fn next_committee(v: AppView) -> Seq<NodeIndex> {
    select(
        candidates(v.nodes, v.min_stake, reveal_seed(v.reveals), v.nodes.len()),
        v.committee_size as nat,
    )
}

/// The epoch after `e`.
pub open spec fn next_epoch(e: Epoch) -> Epoch {
    if e == u64::MAX {
        e
    } else {
        (e + 1) as u64
    }
}

/// `a + b`, or the largest `u128` where the sum exceeds it.
pub open spec fn credit(a: u128, b: int) -> u128 {
    if a + b > u128::MAX {
        u128::MAX
    } else {
        (a + b) as u128
    }
}

/// For how many more epochs a node's stake stays locked.
pub open spec fn locked_for(n: NodeRecord, epoch: Epoch) -> u64 {
    if n.stake.stake_locked_until > epoch {
        (n.stake.stake_locked_until - epoch) as u64
    } else {
        0
    }
}

/// The prices of the services, by service id.
pub open spec fn prices_of(v: AppView) -> Seq<u128> {
    Seq::new(v.services.len(), |s: int| v.services[s].commodity_price)
}

/// The nodes' stake boosts.
pub open spec fn boosts_of(v: AppView) -> Seq<u128> {
    Seq::new(v.nodes.len(), |j: int| boost_of(v.reward_params, locked_for(v.nodes[j], v.epoch)) as u128)
}

/// The tokens emitted at the end of the epoch: none where the supply would
/// outgrow a `u128`.
pub open spec fn epoch_emissions(v: AppView) -> u128 {
    if supply_fits(v.reward_params, v.supply) {
        emissions_of(v.reward_params, v.supply) as u128
    } else {
        0
    }
}

/// The supply after the epoch.
pub open spec fn next_supply(v: AppView) -> Supply {
    if supply_fits(v.reward_params, v.supply) {
        supply_after(v.reward_params, v.supply, v.epoch % v.reward_params.epochs_per_year)
    } else {
        v.supply
    }
}

/// Whether the epoch's rewards are paid: every amount fits in a `u128`.
pub open spec fn rewards_paid(v: AppView) -> bool {
    distribution_fits(v.reward_params, epoch_emissions(v), prices_of(v), v.acks, boosts_of(v))
}

/// Node `j` at the start of the next epoch: its opt-in or opt-out taken up and
/// its rewards credited.
pub open spec fn next_node(v: AppView, j: int) -> NodeRecord {
    let n = v.nodes[j];
    let p = v.reward_params;
    let acks = v.acks;
    let prices = prices_of(v);
    let boosts = boosts_of(v);
    NodeRecord {
        participation: next_participation(n.participation),
        stables_balance: if rewards_paid(v) {
            credit(n.stables_balance, percent(node_revenue(acks, prices, j), p.node_share))
        } else {
            n.stables_balance
        },
        flk_balance: if rewards_paid(v) {
            credit(
                n.flk_balance,
                split(
                    percent(epoch_emissions(v) as int, p.node_share),
                    weight(acks, prices, boosts, j),
                    total_weight(acks, prices, boosts, boosts.len() as int),
                ),
            )
        } else {
            n.flk_balance
        },
        ..n
    }
}

/// Service `s` at the start of the next epoch, its owner's rewards credited.
pub open spec fn next_service(v: AppView, s: int) -> ServiceRecord {
    let r = v.services[s];
    let p = v.reward_params;
    let prices = prices_of(v);
    ServiceRecord {
        stables_balance: if rewards_paid(v) {
            credit(r.stables_balance, percent(service_revenue(v.acks, prices, s), p.service_builder_share))
        } else {
            r.stables_balance
        },
        flk_balance: if rewards_paid(v) {
            credit(
                r.flk_balance,
                split(
                    percent(epoch_emissions(v) as int, p.service_builder_share),
                    service_revenue(v.acks, prices, s),
                    total_revenue(v.acks, prices),
                ),
            )
        } else {
            r.flk_balance
        },
        ..r
    }
}

/// The indices, each as four little-endian bytes, one after the other.
pub open spec fn indices_bytes(s: Seq<NodeIndex>) -> Seq<u8>
    decreases s.len(),
{
    if s.len() == 0 {
        seq![]
    } else {
        indices_bytes(s.drop_last()) + index_bytes(s.last())
    }
}

/// What sums up an ending epoch: the next committee, the reveals that chose
/// it, the epoch's emissions and the supply after them.
pub open spec fn epoch_summary(v: AppView) -> Seq<u8> {
    indices_bytes(next_committee(v)) + reveal_seed(v.reveals) + crate::codec::u128_le(
        epoch_emissions(v),
    ) + crate::codec::u128_le(next_supply(v).total_supply)
}

/// The state at the start of the next epoch: the finished epoch's committee
/// kept on record and summed up by a hash, the new one chosen, nobody ready to
/// change, the beacon idle, opt-ins and opt-outs taken up, the
/// epoch's tokens emitted and its rewards paid.
pub open spec fn advance(v: AppView) -> AppView {
    let paid = rewards_paid(v);
    let p = v.reward_params;
    AppView {
        epoch: next_epoch(v.epoch),
        nodes: Seq::new(v.nodes.len(), |j: int| next_node(v, j)),
        committee_epoch: next_epoch(v.epoch),
        members: next_committee(v),
        ready: seq![],
        past: v.past.push((v.epoch, v.members, v.ready)),
        last_epoch_hash: blake3_of(epoch_summary(v)),
        beacon_phase: None,
        commits: seq![],
        reveals: seq![],
        timeouts: seq![],
        supply: next_supply(v),
        services: Seq::new(v.services.len(), |s: int| next_service(v, s)),
        acks: seq![],
        protocol_stables: if paid {
            credit(v.protocol_stables, percent(total_revenue(v.acks, prices_of(v)), p.protocol_share))
        } else {
            v.protocol_stables
        },
        protocol_flk: if paid {
            credit(v.protocol_flk, percent(epoch_emissions(v) as int, p.protocol_share))
        } else {
            v.protocol_flk
        },
        ..v
    }
}

/// A beacon transaction from node `i` in the phase it needs: the error, or the
/// state after it and whether the epoch changed.
pub open spec fn beacon_step(v: AppView, i: int, m: UpdateMethod) -> Result<(AppView, bool), ExecutionError> {
    let me = i as NodeIndex;
    match m {
        UpdateMethod::CommitteeSelectionBeaconCommit { commit } => match v.beacon_phase {
            Some(CommitteeSelectionBeaconPhase::Commit(e, r)) => if !v.members.contains(me) {
                Err(ExecutionError::NotCommitteeMember)
            } else if committed_hash(v.commits, me) is Some {
                Err(ExecutionError::CommitteeSelectionBeaconAlreadyCommitted)
            } else {
                let commits = v.commits.push((me, commit));
                if commits.len() >= quorum(v.members.len() as int) {
                    Ok((AppView { commits, timeouts: seq![], beacon_phase: Some(CommitteeSelectionBeaconPhase::Reveal(e, r)), ..v }, false))
                } else {
                    Ok((AppView { commits, ..v }, false))
                }
            },
            _ => Err(ExecutionError::CommitteeSelectionBeaconNotCommitPhase),
        },
        UpdateMethod::CommitteeSelectionBeaconReveal { reveal } => match v.beacon_phase {
            Some(CommitteeSelectionBeaconPhase::Reveal(e, r)) => match committed_hash(v.commits, me) {
                None => Err(ExecutionError::CommitteeSelectionBeaconNotCommitted),
                Some(h) => if has_revealed(v.reveals, me) {
                    Err(ExecutionError::CommitteeSelectionBeaconAlreadyRevealed)
                } else if blake3_of(reveal@) != h@ {
                    Err(ExecutionError::CommitteeSelectionBeaconInvalidReveal)
                } else {
                    let w = AppView { reveals: v.reveals.push((me, reveal)), ..v };
                    if w.reveals.len() >= v.commits.len() {
                        Ok((advance(w), true))
                    } else {
                        Ok((w, false))
                    }
                },
            },
            _ => Err(ExecutionError::CommitteeSelectionBeaconNotRevealPhase),
        },
        UpdateMethod::CommitteeSelectionBeaconCommitPhaseTimeout => match v.beacon_phase {
            Some(CommitteeSelectionBeaconPhase::Commit(e, r)) => timeout_step(v, me, e, r, true),
            _ => Err(ExecutionError::CommitteeSelectionBeaconNotCommitPhase),
        },
        UpdateMethod::CommitteeSelectionBeaconRevealPhaseTimeout => match v.beacon_phase {
            Some(CommitteeSelectionBeaconPhase::Reveal(e, r)) => timeout_step(v, me, e, r, false),
            _ => Err(ExecutionError::CommitteeSelectionBeaconNotRevealPhase),
        },
        _ => Err(ExecutionError::Unimplemented),
    }
}

/// A member declares the phase of round `r` timed out. A quorum of such
/// declarations ends the commit phase, with the commitments made so far, or,
/// in the reveal phase, restarts the commit phase in the next round.
pub open spec fn timeout_step(v: AppView, me: NodeIndex, e: Epoch, r: u64, commit_phase: bool) -> Result<(AppView, bool), ExecutionError> {
    if !v.members.contains(me) {
        Err(ExecutionError::NotCommitteeMember)
    } else if v.timeouts.contains(me) {
        Err(ExecutionError::AlreadySignaled)
    } else {
        let timeouts = v.timeouts.push(me);
        if timeouts.len() >= quorum(v.members.len() as int) {
            if commit_phase {
                Ok(
                    (
                        AppView {
                            timeouts: seq![],
                            beacon_phase: Some(CommitteeSelectionBeaconPhase::Reveal(e, r)),
                            ..v
                        },
                        false,
                    ),
                )
            } else {
                Ok((restart_round(v, e, r), false))
            }
        } else {
            Ok((AppView { timeouts, ..v }, false))
        }
    }
}

/// Method `m` of node `i`, whose nonce was checked: the error, or the state
/// after it and whether the epoch changed.
pub open spec fn method_step(v: AppView, i: int, m: UpdateMethod) -> Result<(AppView, bool), ExecutionError> {
    match m {
        UpdateMethod::ChangeEpoch { epoch } => match change_epoch_outcome(v, i, epoch) {
            Err(e) => Err(e),
            Ok(true) => Ok((after_signal(v, i), false)),
            Ok(false) => Ok((v, false)),
        },
        UpdateMethod::OptIn => if has_sufficient_stake(v.nodes[i], v.min_stake) {
            Ok((set_participation(v, i, opted_in(v.nodes[i].participation)), false))
        } else {
            Err(ExecutionError::InsufficientStake)
        },
        UpdateMethod::OptOut => Ok((set_participation(v, i, opted_out(v.nodes[i].participation)), false)),
        UpdateMethod::SubmitDeliveryAcknowledgmentAggregation { commodity, service_id } => Ok(
            (
                AppView {
                    acks: v.acks.push(DeliveryAck { node: i as NodeIndex, service_id, commodity }),
                    ..v
                },
                false,
            ),
        ),
        _ => beacon_step(v, i, m),
    }
}

pub open spec fn set_participation(v: AppView, i: int, p: Participation) -> AppView {
    AppView { nodes: v.nodes.update(i, NodeRecord { participation: p, ..v.nodes[i] }), ..v }
}

pub open spec fn bump_nonce(v: AppView, i: int, secondary_nonce: u128) -> AppView {
    AppView {
        nodes: v.nodes.update(
            i,
            NodeRecord { nonce: (v.nodes[i].nonce + 1) as u64, secondary_nonce, ..v.nodes[i] },
        ),
        ..v
    }
}

/// One transaction: the state after it, its response and whether it ended the
/// epoch. The transaction must be meant for this chain; only registered nodes
/// may send these methods, with their nonce plus one and a secondary nonce above
/// their last. A reverted transaction leaves the state as it was; a successful
/// one raises the sender's nonce by one and records its secondary nonce.
pub open spec fn step(v: AppView, tx: UpdateRequest) -> (AppView, TransactionResponse, bool) {
    if tx.chain_id != v.chain_id {
        (v, TransactionResponse::Revert(ExecutionError::InvalidChainId), false)
    } else {
        sender_step(v, tx)
    }
}

/// `step` for a transaction meant for this chain.
pub open spec fn sender_step(v: AppView, tx: UpdateRequest) -> (AppView, TransactionResponse, bool) {
    match tx.sender {
        TransactionSender::Node(key) => match node_index_of(v.nodes, key@) {
            None => (v, TransactionResponse::Revert(ExecutionError::NodeDoesNotExist), false),
            Some(i) => if tx.nonce != v.nodes[i].nonce + 1 || tx.secondary_nonce
                <= v.nodes[i].secondary_nonce {
                (v, TransactionResponse::Revert(ExecutionError::InvalidNonce), false)
            } else {
                match method_step(v, i, tx.method) {
                    Ok((w, changed)) => (
                        bump_nonce(w, i, tx.secondary_nonce),
                        TransactionResponse::Success,
                        changed,
                    ),
                    Err(e) => (v, TransactionResponse::Revert(e), false),
                }
            },
        },
        TransactionSender::Account(a) => if tx.nonce != account_nonce(v.accounts, a@) + 1 {
            (v, TransactionResponse::Revert(ExecutionError::InvalidNonce), false)
        } else {
            (v, TransactionResponse::Revert(ExecutionError::OnlyNode), false)
        },
    }
}

/// A block of transactions, one after the other: the final state and each
/// transaction's response and epoch change.
pub open spec fn run(v: AppView, txs: Seq<UpdateRequest>) -> (AppView, Seq<(TransactionResponse, bool)>)
    decreases txs.len(),
{
    if txs.len() == 0 {
        (v, seq![])
    } else {
        let (w, resp, changed) = step(v, txs[0]);
        let rest = run(w, txs.drop_first());
        (rest.0, seq![(resp, changed)] + rest.1)
    }
}

/// Whether a transaction of the block ended the epoch.
pub open spec fn any_change(rs: Seq<(TransactionResponse, bool)>) -> bool {
    exists|k: int| 0 <= k < rs.len() && #[trigger] rs[k].1
}

/// The block number after `n`, which stays at its largest value.
pub open spec fn next_block_number(n: u64) -> u64 {
    if n == u64::MAX {
        n
    } else {
        (n + 1) as u64
    }
}

/// A block executed: the state after its transactions, with the block counted.
pub open spec fn run_block(v: AppView, txs: Seq<UpdateRequest>) -> AppView {
    let w = run(v, txs).0;
    AppView { block_number: next_block_number(w.block_number), ..w }
}

/// How many transactions of `txs` node `j` signed and saw succeed.
pub open spec fn signed_successes(v: AppView, txs: Seq<UpdateRequest>, j: int) -> int
    decreases txs.len(),
{
    if txs.len() == 0 {
        0
    } else {
        let (w, resp, _) = step(v, txs[0]);
        (if resp == TransactionResponse::Success && signer_index(v, txs[0]) == Some(j) {
            1int
        } else {
            0int
        }) + signed_successes(w, txs.drop_first(), j)
    }
}

/// The node that signed `tx`, where it is a registered node.
pub open spec fn signer_index(v: AppView, tx: UpdateRequest) -> Option<int> {
    match tx.sender {
        TransactionSender::Node(key) => node_index_of(v.nodes, key@),
        TransactionSender::Account(_) => None,
    }
}

} // verus!
