use lightning_core::genesis::{apply_genesis, Genesis, GenesisError};
use lightning_core::rewards::RewardParams;
use lightning_core::state::{AppState, NodeRecord, Participation, Stake};

fn record(k: u8) -> NodeRecord {
    NodeRecord {
        public_key: [k; 32],
        owner: [0; 32],
        stake: Stake { staked: 1000, locked: 0, locked_until: 0, stake_locked_until: 0 },
        participation: Participation::True,
        nonce: 0,
        secondary_nonce: 0,
        stables_balance: 0,
        flk_balance: 0,
    }
}

fn genesis(keys: &[u8]) -> Genesis {
    Genesis {
        chain_id: 1,
        epoch: 3,
        committee_size: 2,
        min_stake: 1000,
        node_info: keys.iter().map(|k| record(*k)).collect(),
        committee: vec![0, 1],
        reward_params: RewardParams {
            max_inflation: 10,
            node_share: 80,
            protocol_share: 10,
            service_builder_share: 10,
            epochs_per_year: 365,
            max_boost: 4,
        },
        supply_at_genesis: 1000,
        services: Vec::new(),
    }
}

#[test]
fn genesis_applies_once() {
    let mut app: Option<AppState> = None;
    assert_eq!(apply_genesis(&mut app, &genesis(&[1, 2, 3])), Ok(()));
    let state = app.as_ref().unwrap();
    assert_eq!(state.epoch, 3);
    assert_eq!(state.committee.epoch, 3);
    assert_eq!(state.nodes.len(), 3);
    assert_eq!(state.committee.members, vec![0, 1]);
    assert_eq!(state.supply.total_supply, 1000);
    // A second genesis is a no-op.
    assert_eq!(apply_genesis(&mut app, &genesis(&[9])), Ok(()));
    let state = app.as_ref().unwrap();
    assert_eq!(state.nodes.len(), 3);
    assert_eq!(state.epoch, 3);
}

#[test]
fn genesis_with_duplicate_keys_is_refused() {
    let mut app: Option<AppState> = None;
    assert_eq!(apply_genesis(&mut app, &genesis(&[1, 2, 1])), Err(GenesisError::DuplicateNode));
    assert!(app.is_none());
}

#[test]
fn genesis_without_epochs_is_refused() {
    let mut app: Option<AppState> = None;
    let mut g = genesis(&[1]);
    g.reward_params.epochs_per_year = 0;
    assert_eq!(apply_genesis(&mut app, &g), Err(GenesisError::InvalidParameters));
    assert!(app.is_none());
}
