use lightning_core::codec::encode_transaction;
use lightning_core::digest::Digest;
use lightning_core::rewards::{RewardParams, Supply};
use lightning_core::state::{
    AppState,
    CommitteeRecord,
    CommitteeSelectionBeaconPhase,
    ExecutionError,
    NodeRecord,
    Participation,
    ServiceRecord,
    Stake,
    TransactionResponse,
    TransactionSender,
    UpdateMethod,
    UpdateRequest,
};

const CHAIN: u32 = 59330;
const FLK: u128 = 1_000_000_000_000_000_000;
const STABLE: u128 = 1_000_000;

fn key(i: u8) -> [u8; 32] {
    [i + 1; 32]
}

fn node(i: u8, staked: u128, locked: u128) -> NodeRecord {
    NodeRecord {
        public_key: key(i),
        owner: [100 + i; 32],
        stake: Stake { staked, locked, locked_until: 0, stake_locked_until: 0 },
        participation: Participation::True,
        nonce: 0,
        secondary_nonce: 0,
        stables_balance: 0,
        flk_balance: 0,
    }
}

/// `n` nodes holding the minimum stake; the first `committee` of them form the committee.
fn network(n: u8, committee: u32) -> AppState {
    AppState {
        chain_id: CHAIN,
        block_number: 0,
        epoch: 0,
        nodes: (0..n).map(|i| node(i, 1000, 0)).collect(),
        accounts: Vec::new(),
        executed_digests: Vec::new(),
        last_epoch_hash: [0; 32],
        committee: CommitteeRecord {
            epoch: 0,
            members: (0..committee).collect(),
            ready_to_change: Vec::new(),
        },
        past_committees: Vec::new(),
        beacon_phase: None,
        beacon_commits: Vec::new(),
        beacon_reveals: Vec::new(),
        beacon_timeouts: Vec::new(),
        min_stake: 1000,
        committee_size: committee as u64,
        reward_params: RewardParams {
            max_inflation: 10,
            node_share: 80,
            protocol_share: 10,
            service_builder_share: 10,
            epochs_per_year: 1460,
            max_boost: 4,
        },
        supply: Supply { total_supply: 1_000_000 * FLK, supply_at_year_start: 1_000_000 * FLK },
        services: vec![
            ServiceRecord { owner: [200; 32], commodity_price: STABLE / 10, stables_balance: 0, flk_balance: 0 },
            ServiceRecord { owner: [201; 32], commodity_price: STABLE / 5, stables_balance: 0, flk_balance: 0 },
        ],
        delivery_acks: Vec::new(),
        protocol_stables: 0,
        protocol_flk: 0,
    }
}

fn from_node(i: u8, method: UpdateMethod, nonce: u64) -> UpdateRequest {
    UpdateRequest {
        sender: TransactionSender::Node(key(i)),
        method,
        nonce,
        secondary_nonce: nonce as u128,
        chain_id: CHAIN,
    }
}

#[test]
fn test_epoch_change_with_all_committee_nodes() {
    let mut state = network(4, 4);
    let epoch = state.epoch;
    for i in 0..2u8 {
        let r = state.execute_transaction(from_node(i, UpdateMethod::ChangeEpoch { epoch }, 1));
        assert_eq!(r.response, TransactionResponse::Success);
        assert!(!r.change_epoch);
    }
    assert_eq!(state.epoch, epoch);
    assert_eq!(state.committee.ready_to_change, vec![0, 1]);
    assert_eq!(state.beacon_phase, None);
    let r = state.execute_transaction(from_node(2, UpdateMethod::ChangeEpoch { epoch }, 1));
    assert_eq!(r.response, TransactionResponse::Success);
    assert_eq!(state.beacon_phase, Some(CommitteeSelectionBeaconPhase::Commit(0, 0)));
    assert_eq!(state.committee.ready_to_change, vec![0, 1, 2]);
    assert_eq!(state.epoch, epoch);
}

#[test]
fn test_epoch_change_with_some_non_committee_nodes() {
    let mut state = network(6, 4);
    let epoch = state.epoch;
    for i in 0..2u8 {
        state.execute_transaction(from_node(i, UpdateMethod::ChangeEpoch { epoch }, 1));
    }
    assert_eq!(state.committee.ready_to_change, vec![0, 1]);
    for i in 4..6u8 {
        let r = state.execute_transaction(from_node(i, UpdateMethod::ChangeEpoch { epoch }, 1));
        assert_eq!(r.response, TransactionResponse::Revert(ExecutionError::NotCommitteeMember));
        assert_eq!(state.nodes[i as usize].nonce, 0);
    }
    assert_eq!(state.committee.ready_to_change, vec![0, 1]);
    assert_eq!(state.beacon_phase, None);
}

#[test]
fn test_change_epoch_with_only_locked_stake() {
    let mut state = network(2, 2);
    state.nodes[0].stake.staked = 0;
    state.nodes[0].stake.locked = 1000;
    state.nodes[1].stake.staked = 1000;
    state.nodes[1].stake.locked = 0;
    let epoch = state.epoch;
    let resp = state.execute_block(&vec![from_node(0, UpdateMethod::ChangeEpoch { epoch }, 1)]);
    assert_eq!(resp.block_number, 1);
    assert!(!resp.change_epoch);
    assert_eq!(resp.txn_receipts[0].response, TransactionResponse::Success);
    assert!(state.committee.ready_to_change.is_empty());
    assert_eq!(state.beacon_phase, None);
    let resp = state.execute_block(&vec![from_node(1, UpdateMethod::ChangeEpoch { epoch }, 1)]);
    assert_eq!(resp.block_number, 2);
    assert!(!resp.change_epoch);
    assert_eq!(resp.txn_receipts[0].response, TransactionResponse::Success);
    assert_eq!(state.committee.ready_to_change, vec![1]);
    assert_eq!(state.beacon_phase, None);
}

#[test]
fn test_change_epoch_if_node_opted_out() {
    let mut state = network(2, 2);
    let epoch = state.epoch;
    let resp = state.execute_block(&vec![from_node(0, UpdateMethod::OptOut, 1)]);
    assert_eq!(resp.block_number, 1);
    assert_eq!(state.nodes[0].participation, Participation::OptedOut);
    let resp = state.execute_block(&vec![from_node(0, UpdateMethod::ChangeEpoch { epoch }, 2)]);
    assert_eq!(resp.block_number, 2);
    assert!(!resp.change_epoch);
    assert_eq!(resp.txn_receipts[0].response, TransactionResponse::Success);
    assert!(!state.committee.ready_to_change.contains(&0));
}

#[test]
fn test_change_epoch_reverts_account_key() {
    let mut state = network(4, 4);
    let tx = UpdateRequest {
        sender: TransactionSender::Account([7; 32]),
        method: UpdateMethod::ChangeEpoch { epoch: 0 },
        nonce: 1,
        secondary_nonce: 1,
        chain_id: CHAIN,
    };
    let r = state.execute_transaction(tx);
    assert_eq!(r.response, TransactionResponse::Revert(ExecutionError::OnlyNode));
}

#[test]
fn test_change_epoch_reverts_node_does_not_exist() {
    let mut state = network(4, 4);
    let r = state.execute_transaction(from_node(9, UpdateMethod::ChangeEpoch { epoch: 0 }, 1));
    assert_eq!(r.response, TransactionResponse::Revert(ExecutionError::NodeDoesNotExist));
}

#[test]
fn test_change_epoch_reverts_insufficient_stake() {
    let mut state = network(5, 4);
    state.nodes[4].stake.staked = state.min_stake / 2;
    let r = state.execute_transaction(from_node(4, UpdateMethod::ChangeEpoch { epoch: 0 }, 1));
    assert_eq!(r.response, TransactionResponse::Revert(ExecutionError::InsufficientStake));
    assert_eq!(state.nodes[4].nonce, 0);
}

#[test]
fn test_epoch_change_reverts_epoch_already_changed() {
    let mut state = network(4, 4);
    state.epoch = 1;
    state.committee.epoch = 1;
    let r = state.execute_transaction(from_node(0, UpdateMethod::ChangeEpoch { epoch: 0 }, 1));
    assert_eq!(r.response, TransactionResponse::Revert(ExecutionError::EpochAlreadyChanged));
}

#[test]
fn test_epoch_change_reverts_epoch_has_not_started() {
    let mut state = network(4, 4);
    let r = state.execute_transaction(from_node(0, UpdateMethod::ChangeEpoch { epoch: 1 }, 1));
    assert_eq!(r.response, TransactionResponse::Revert(ExecutionError::EpochHasNotStarted));
}

#[test]
fn test_epoch_change_reverts_not_participating() {
    let mut state = network(5, 4);
    state.nodes[4].participation = Participation::False;
    let r = state.execute_transaction(from_node(4, UpdateMethod::OptIn, 1));
    assert_eq!(r.response, TransactionResponse::Success);
    assert_eq!(state.nodes[4].participation, Participation::OptedIn);
    let r = state.execute_transaction(from_node(4, UpdateMethod::ChangeEpoch { epoch: 0 }, 2));
    assert_eq!(r.response, TransactionResponse::Revert(ExecutionError::NodeNotParticipating));
}

#[test]
fn test_epoch_change_reverts_already_signaled() {
    let mut state = network(4, 4);
    let r = state.execute_transaction(from_node(0, UpdateMethod::ChangeEpoch { epoch: 0 }, 1));
    assert_eq!(r.response, TransactionResponse::Success);
    let r = state.execute_transaction(from_node(0, UpdateMethod::ChangeEpoch { epoch: 0 }, 2));
    assert_eq!(r.response, TransactionResponse::Revert(ExecutionError::AlreadySignaled));
}

#[test]
fn nonce_moves_only_on_success() {
    let mut state = network(4, 4);
    let r = state.execute_transaction(from_node(0, UpdateMethod::OptOut, 2));
    assert_eq!(r.response, TransactionResponse::Revert(ExecutionError::InvalidNonce));
    assert_eq!(state.nodes[0].nonce, 0);
    let r = state.execute_transaction(from_node(0, UpdateMethod::OptOut, 1));
    assert_eq!(r.response, TransactionResponse::Success);
    assert_eq!(state.nodes[0].nonce, 1);
    let r = state.execute_transaction(from_node(0, UpdateMethod::ChangeEpoch { epoch: 5 }, 2));
    assert_eq!(r.response, TransactionResponse::Revert(ExecutionError::EpochHasNotStarted));
    assert_eq!(state.nodes[0].nonce, 1);
    assert_eq!(state.nodes[1].nonce, 0);
}

#[test]
fn ready_to_change_stays_sorted() {
    let mut state = network(4, 4);
    for i in [3u8, 0, 2] {
        state.execute_transaction(from_node(i, UpdateMethod::ChangeEpoch { epoch: 0 }, 1));
    }
    assert_eq!(state.committee.ready_to_change, vec![0, 2, 3]);
    assert_eq!(state.beacon_phase, Some(CommitteeSelectionBeaconPhase::Commit(0, 0)));
}

fn hash(bytes: &[u8]) -> Digest {
    fleek_blake3::hash(bytes).into()
}

/// Signals from a quorum, so that the beacon is in its commit phase.
fn in_commit_phase() -> AppState {
    let mut state = network(4, 4);
    for i in 0..3u8 {
        state.execute_transaction(from_node(i, UpdateMethod::ChangeEpoch { epoch: 0 }, 1));
    }
    assert_eq!(state.beacon_phase, Some(CommitteeSelectionBeaconPhase::Commit(0, 0)));
    state
}

#[test]
fn beacon_round_chooses_next_committee() {
    let mut state = in_commit_phase();
    state.nodes[3].participation = Participation::OptedOut;
    state.committee_size = 2;
    let secrets: Vec<Digest> = (0..3u8).map(|i| [50 + i; 32]).collect();
    for i in 0..3u8 {
        let commit = hash(&secrets[i as usize]);
        let r = state.execute_transaction(from_node(
            i,
            UpdateMethod::CommitteeSelectionBeaconCommit { commit },
            2,
        ));
        assert_eq!(r.response, TransactionResponse::Success);
    }
    assert_eq!(state.beacon_phase, Some(CommitteeSelectionBeaconPhase::Reveal(0, 0)));
    // A wrong secret is refused.
    let r = state.execute_transaction(from_node(
        0,
        UpdateMethod::CommitteeSelectionBeaconReveal { reveal: [0; 32] },
        3,
    ));
    assert_eq!(r.response, TransactionResponse::Revert(ExecutionError::CommitteeSelectionBeaconInvalidReveal));
    // A node that did not commit cannot reveal.
    let r = state.execute_transaction(from_node(
        3,
        UpdateMethod::CommitteeSelectionBeaconReveal { reveal: [0; 32] },
        1,
    ));
    assert_eq!(r.response, TransactionResponse::Revert(ExecutionError::CommitteeSelectionBeaconNotCommitted));
    for i in 0..2u8 {
        let r = state.execute_transaction(from_node(
            i,
            UpdateMethod::CommitteeSelectionBeaconReveal { reveal: secrets[i as usize] },
            3,
        ));
        assert_eq!(r.response, TransactionResponse::Success);
        assert!(!r.change_epoch);
    }
    let r = state.execute_transaction(from_node(
        2,
        UpdateMethod::CommitteeSelectionBeaconReveal { reveal: secrets[2] },
        3,
    ));
    assert_eq!(r.response, TransactionResponse::Success);
    assert!(r.change_epoch);
    assert_eq!(state.epoch, 1);
    assert_eq!(state.committee.epoch, 1);
    assert!(state.committee.ready_to_change.is_empty());
    // The finished epoch's committee stays on record.
    assert_eq!(state.past_committees.len(), 1);
    assert_eq!(state.past_committees[0].epoch, 0);
    assert_eq!(state.past_committees[0].members, vec![0, 1, 2, 3]);
    assert_eq!(state.past_committees[0].ready_to_change, vec![0, 1, 2]);
    assert_eq!(state.beacon_phase, None);
    assert_eq!(state.nodes[3].participation, Participation::False);
    // The committee: the two of nodes 0..3 with the least score.
    let mut seed = Vec::new();
    for s in &secrets {
        seed.extend_from_slice(s);
    }
    // Ordered by the whole hash, then by index.
    let mut scored: Vec<(Digest, u32)> = (0..3u32)
        .map(|j| {
            let mut b = seed.clone();
            b.extend_from_slice(&j.to_le_bytes());
            (hash(&b), j)
        })
        .collect();
    scored.sort();
    assert_eq!(state.committee.members, vec![scored[0].1, scored[1].1]);
    // The last epoch's hash sums up the committee, the reveals, the emissions
    // and the supply after them.
    let mut summary = Vec::new();
    for m in &state.committee.members {
        summary.extend_from_slice(&m.to_le_bytes());
    }
    summary.extend_from_slice(&seed);
    let emitted = 1_000_000 * FLK * 10 / 100 / 1460;
    summary.extend_from_slice(&emitted.to_le_bytes());
    summary.extend_from_slice(&state.supply.total_supply.to_le_bytes());
    assert_eq!(state.supply.total_supply, 1_000_000 * FLK + emitted);
    assert_eq!(state.last_epoch_hash, hash(&summary));
}

#[test]
fn beacon_timeouts_restart_the_round() {
    let mut state = in_commit_phase();
    let commit = hash(&[1; 32]);
    state.execute_transaction(from_node(0, UpdateMethod::CommitteeSelectionBeaconCommit { commit }, 2));
    let r = state.execute_transaction(from_node(0, UpdateMethod::CommitteeSelectionBeaconCommit { commit }, 3));
    assert_eq!(r.response, TransactionResponse::Revert(ExecutionError::CommitteeSelectionBeaconAlreadyCommitted));
    let r = state.execute_transaction(from_node(1, UpdateMethod::CommitteeSelectionBeaconRevealPhaseTimeout, 2));
    assert_eq!(r.response, TransactionResponse::Revert(ExecutionError::CommitteeSelectionBeaconNotRevealPhase));
    for i in 1..3u8 {
        let r = state.execute_transaction(from_node(i, UpdateMethod::CommitteeSelectionBeaconCommitPhaseTimeout, 2));
        assert_eq!(r.response, TransactionResponse::Success);
    }
    let r = state.execute_transaction(from_node(1, UpdateMethod::CommitteeSelectionBeaconCommitPhaseTimeout, 3));
    assert_eq!(r.response, TransactionResponse::Revert(ExecutionError::AlreadySignaled));
    // A quorum of commit-phase timeouts ends the commit phase.
    let r = state.execute_transaction(from_node(3, UpdateMethod::CommitteeSelectionBeaconCommitPhaseTimeout, 1));
    assert_eq!(r.response, TransactionResponse::Success);
    assert_eq!(state.beacon_phase, Some(CommitteeSelectionBeaconPhase::Reveal(0, 0)));
    assert_eq!(state.beacon_commits.len(), 1);
    // A quorum of reveal-phase timeouts restarts the round.
    for (i, nonce) in [(1u8, 3u64), (2, 3), (3, 2)] {
        let r = state.execute_transaction(from_node(i, UpdateMethod::CommitteeSelectionBeaconRevealPhaseTimeout, nonce));
        assert_eq!(r.response, TransactionResponse::Success);
    }
    assert_eq!(state.beacon_phase, Some(CommitteeSelectionBeaconPhase::Commit(0, 1)));
    assert!(state.beacon_commits.is_empty());
    assert_eq!(state.epoch, 0);
}

#[test]
fn commit_timeout_then_reveal_ends_epoch() {
    let mut state = in_commit_phase();
    let commit = hash(&[1; 32]);
    state.execute_transaction(from_node(0, UpdateMethod::CommitteeSelectionBeaconCommit { commit }, 2));
    for i in 1..4u8 {
        state.execute_transaction(from_node(i, UpdateMethod::CommitteeSelectionBeaconCommitPhaseTimeout, if i == 3 { 1 } else { 2 }));
    }
    assert_eq!(state.beacon_phase, Some(CommitteeSelectionBeaconPhase::Reveal(0, 0)));
    let r = state.execute_transaction(from_node(0, UpdateMethod::CommitteeSelectionBeaconReveal { reveal: [1; 32] }, 3));
    assert_eq!(r.response, TransactionResponse::Success);
    assert!(r.change_epoch);
    assert_eq!(state.epoch, 1);
}

/// Runs the beacon of the current epoch to its end with every member of a
/// committee of four; nonces continue from `nonce`.
fn complete_epoch(state: &mut AppState, nonce: u64) {
    let epoch = state.epoch;
    for i in 0..4u8 {
        state.execute_transaction(from_node(i, UpdateMethod::ChangeEpoch { epoch }, nonce));
    }
    for i in 0..4u8 {
        let commit = hash(&[i; 32]);
        state.execute_transaction(from_node(
            i,
            UpdateMethod::CommitteeSelectionBeaconCommit { commit },
            nonce + 1,
        ));
    }
    for i in 0..3u8 {
        let r = state.execute_transaction(from_node(
            i,
            UpdateMethod::CommitteeSelectionBeaconReveal { reveal: [i; 32] },
            nonce + 2,
        ));
        assert_eq!(r.response, TransactionResponse::Success);
    }
}

#[test]
fn test_distribute_rewards_through_epoch() {
    let mut state = network(4, 4);
    // Node 1's stake is locked for a year: its boost is the largest, 4.
    state.nodes[1].stake.stake_locked_until = 1460;
    let acks = [(0u8, 12800u128, 0u32), (0, 3600, 1), (1, 5000, 1)];
    let mut nonces = [0u64; 4];
    for (node, commodity, service_id) in acks {
        nonces[node as usize] += 1;
        let r = state.execute_transaction(from_node(
            node,
            UpdateMethod::SubmitDeliveryAcknowledgmentAggregation { commodity, service_id },
            nonces[node as usize],
        ));
        assert_eq!(r.response, TransactionResponse::Success);
    }
    // Bring every node to the same nonce.
    for i in 2..4u8 {
        state.execute_transaction(from_node(i, UpdateMethod::OptIn, 1));
        state.execute_transaction(from_node(i, UpdateMethod::OptIn, 2));
    }
    state.execute_transaction(from_node(1, UpdateMethod::OptIn, 2));
    assert!(state.nodes.iter().all(|n| n.nonce == 2));
    let emissions = 1_000_000 * FLK * 10 / 100 / 1460;
    complete_epoch(&mut state, 3);
    assert_eq!(state.epoch, 1);
    assert_eq!(state.nodes[0].stables_balance, 1600 * STABLE);
    assert_eq!(state.nodes[1].stables_balance, 800 * STABLE);
    assert_eq!(state.protocol_stables, 300 * STABLE);
    assert_eq!(state.protocol_flk, emissions * 10 / 100);
    assert_eq!(state.services[0].stables_balance, 128 * STABLE);
    assert_eq!(state.services[1].stables_balance, 172 * STABLE);
    // Token shares of the nodes in the ratio 2000 * 1 : 1000 * 4.
    let node_pool = emissions * 80 / 100;
    assert_eq!(state.nodes[0].flk_balance, node_pool * 2000 / 6000);
    assert_eq!(state.nodes[1].flk_balance, node_pool * 4000 / 6000);
    assert_eq!(state.nodes[2].flk_balance, 0);
    let service_pool = emissions * 10 / 100;
    assert_eq!(state.services[0].flk_balance, service_pool * 1280 / 3000);
    assert_eq!(state.services[1].flk_balance, service_pool * 1720 / 3000);
    assert_eq!(state.supply.total_supply, 1_000_000 * FLK + emissions);
    assert!(state.delivery_acks.is_empty());
}

#[test]
fn test_supply_across_epoch_boundary() {
    let mut state = network(4, 4);
    state.reward_params.epochs_per_year = 2;
    let start = state.supply.total_supply;
    let per_epoch = start * 10 / 100 / 2;
    complete_epoch(&mut state, 1);
    assert_eq!(state.supply.total_supply, start + per_epoch);
    assert_eq!(state.supply.supply_at_year_start, start);
    complete_epoch(&mut state, 4);
    assert_eq!(state.epoch, 2);
    assert_eq!(state.supply.total_supply, start + 2 * per_epoch);
    assert_eq!(state.supply.supply_at_year_start, start + 2 * per_epoch);
}

#[test]
fn envelope_is_checked() {
    let mut state = network(4, 4);
    let mut tx = from_node(0, UpdateMethod::OptOut, 1);
    tx.chain_id = CHAIN + 1;
    let r = state.execute_transaction(tx);
    assert_eq!(r.response, TransactionResponse::Revert(ExecutionError::InvalidChainId));
    let r = state.execute_transaction(from_node(0, UpdateMethod::OptOut, 1));
    assert_eq!(r.response, TransactionResponse::Success);
    assert_eq!(state.nodes[0].secondary_nonce, 1);
    // The secondary nonce must rise.
    let mut tx = from_node(0, UpdateMethod::OptIn, 2);
    tx.secondary_nonce = 1;
    let r = state.execute_transaction(tx);
    assert_eq!(r.response, TransactionResponse::Revert(ExecutionError::InvalidNonce));
    assert_eq!(state.nodes[0].nonce, 1);
}

#[test]
fn block_reports_epoch_change() {
    let mut state = network(4, 4);
    let mut block = Vec::new();
    for i in 0..4u8 {
        block.push(from_node(i, UpdateMethod::ChangeEpoch { epoch: 0 }, 1));
    }
    for i in 0..4u8 {
        block.push(from_node(i, UpdateMethod::CommitteeSelectionBeaconCommit { commit: hash(&[i; 32]) }, 2));
    }
    let resp = state.execute_block(&block);
    assert_eq!(resp.block_number, 1);
    assert!(!resp.change_epoch);
    let reveals: Vec<UpdateRequest> = (0..3u8)
        .map(|i| from_node(i, UpdateMethod::CommitteeSelectionBeaconReveal { reveal: [i; 32] }, 3))
        .collect();
    let resp = state.execute_block(&reveals);
    assert_eq!(resp.block_number, 2);
    assert!(resp.change_epoch);
    assert!(resp.txn_receipts[2].change_epoch);
    assert!(!resp.txn_receipts[0].change_epoch);
    assert_eq!(state.epoch, 1);
}

#[test]
fn state_queries() {
    let mut state = network(5, 3);
    state.committee.members.push(42);
    assert_eq!(state.get_staking_amount(), 1000);
    assert_eq!(state.get_committee_members(), vec![key(0), key(1), key(2)]);
    let info = state.get_epoch_info();
    assert_eq!(info.epoch, 0);
    assert_eq!(info.committee.len(), 3);
    assert_eq!(info.committee[1].public_key, key(1));
    assert_eq!(state.get_node_info(&key(4)).map(|n| n.public_key), Some(key(4)));
    assert!(state.get_node_info(&[0; 32]).is_none());
    assert_eq!(state.get_reputation(&key(0)), None);
    assert!(state.get_node_registry().is_none());
    assert_eq!(state.get_epoch_randomness_seed(), None);
}

#[test]
fn executed_transactions_are_not_replayed() {
    let mut state = network(4, 4);
    let tx = encode_transaction(&from_node(0, UpdateMethod::OptOut, 1));
    let payload = vec![tx.clone(), vec![1, 2, 3]];
    let r = state.execute_payload(&payload);
    assert_eq!(r.block_number, 1);
    assert_eq!(r.txn_receipts.len(), 1);
    assert_eq!(r.txn_receipts[0].response, TransactionResponse::Success);
    assert!(state.has_executed_digest(&hash(&tx)));
    // The same transaction again is skipped, not executed (nor reverted).
    let r = state.execute_payload(&vec![tx]);
    assert_eq!(r.block_number, 2);
    assert!(r.txn_receipts.is_empty());
    assert_eq!(state.nodes[0].nonce, 1);
}
