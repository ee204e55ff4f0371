use lightning_core::rewards::{
    advance_supply,
    distribute_rewards,
    emissions,
    mul_div,
    stake_boost,
    DeliveryAck,
    RewardParams,
    Supply,
};

const FLK: u128 = 1_000_000_000_000_000_000;
const STABLE: u128 = 1_000_000;

fn params() -> RewardParams {
    RewardParams {
        max_inflation: 10,
        node_share: 80,
        protocol_share: 10,
        service_builder_share: 10,
        epochs_per_year: 1460,
        max_boost: 4,
    }
}

#[test]
fn test_distribute_rewards() {
    let p = params();
    let supply = Supply { total_supply: 1_000_000 * FLK, supply_at_year_start: 1_000_000 * FLK };
    let emitted = emissions(&p, &supply).unwrap();
    assert_eq!(emitted, 1_000_000 * FLK * 10 / 100 / 1460);
    // Prices: service 0 at 0.1, service 1 at 0.2.
    let prices = vec![STABLE / 10, STABLE / 5];
    let acks = vec![
        DeliveryAck { node: 0, service_id: 0, commodity: 12800 },
        DeliveryAck { node: 0, service_id: 1, commodity: 3600 },
        DeliveryAck { node: 1, service_id: 1, commodity: 5000 },
    ];
    // Node 1's stake is locked for a year: its boost is the largest, 4.
    let boosts = vec![stake_boost(&p, 0), stake_boost(&p, 1460), stake_boost(&p, 0), stake_boost(&p, 0)];
    assert_eq!(boosts[1], 4 * boosts[0]);
    let r = distribute_rewards(&p, emitted, &prices, &acks, &boosts).unwrap();
    assert_eq!(r.node_stables[0], 1600 * STABLE);
    assert_eq!(r.node_stables[1], 800 * STABLE);
    assert_eq!(r.node_stables[2], 0);
    assert_eq!(r.protocol_stables, 300 * STABLE);
    assert_eq!(r.protocol_flk, emitted * 10 / 100);
    assert_eq!(r.service_stables, vec![128 * STABLE, 172 * STABLE]);
    let service_pool = emitted * 10 / 100;
    assert_eq!(r.service_flk[0], service_pool * 1280 / 3000);
    assert_eq!(r.service_flk[1], service_pool * 1720 / 3000);
    let node_pool = emitted * 80 / 100;
    // Token shares in the ratio 2000 * 1 : 1000 * 4.
    assert_eq!(r.node_flk[0], node_pool * 2000 / 6000);
    assert_eq!(r.node_flk[1], node_pool * 4000 / 6000);
    assert_eq!(r.node_flk[3], 0);
}

#[test]
fn stake_boost_grows_with_lock_and_caps() {
    let p = params();
    assert_eq!(stake_boost(&p, 0), 1460);
    // Locked for a year: 1 + 1 * (4 - 1) = 4, the cap.
    assert_eq!(stake_boost(&p, 1460), 4 * 1460);
    assert_eq!(stake_boost(&p, 730), 1460 + 730 * 3);
    assert_eq!(stake_boost(&p, 100_000), 4 * 1460);
}

#[test]
fn boosted_nodes_get_more_tokens() {
    let p = params();
    let prices = vec![STABLE];
    let acks = vec![
        DeliveryAck { node: 0, service_id: 0, commodity: 10 },
        DeliveryAck { node: 1, service_id: 0, commodity: 10 },
    ];
    let boosts = vec![stake_boost(&p, 0), stake_boost(&p, 1460)];
    let r = distribute_rewards(&p, 1000, &prices, &acks, &boosts).unwrap();
    // Weights 1 : 4 of a pool of 800.
    assert_eq!(r.node_flk, vec![160, 640]);
}

#[test]
fn no_revenue_no_split() {
    let p = params();
    let r = distribute_rewards(&p, 1000, &vec![STABLE], &vec![], &vec![1460, 1460]).unwrap();
    assert_eq!(r.node_flk, vec![0, 0]);
    assert_eq!(r.service_flk, vec![0]);
    assert_eq!(r.protocol_flk, 100);
}

#[test]
fn overflowing_revenue_is_refused() {
    let p = params();
    let acks = vec![DeliveryAck { node: 0, service_id: 0, commodity: u128::MAX }];
    assert!(distribute_rewards(&p, 0, &vec![2], &acks, &vec![1]).is_none());
}

#[test]
fn test_supply_across_epoch() {
    let p = RewardParams { epochs_per_year: 4, ..params() };
    let mut s = Supply { total_supply: 1_000_000 * FLK, supply_at_year_start: 1_000_000 * FLK };
    let per_epoch = 1_000_000 * FLK * 10 / 100 / 4;
    for epoch in 0..3u64 {
        assert_eq!(advance_supply(&mut s, &p, epoch), Some(per_epoch));
        assert_eq!(s.supply_at_year_start, 1_000_000 * FLK);
    }
    assert_eq!(advance_supply(&mut s, &p, 3), Some(per_epoch));
    assert_eq!(s.total_supply, 1_000_000 * FLK + 4 * per_epoch);
    assert_eq!(s.supply_at_year_start, s.total_supply);
    // The next year inflates the larger supply.
    let next = s.supply_at_year_start * 10 / 100 / 4;
    assert_eq!(advance_supply(&mut s, &p, 0), Some(next));
}

#[test]
fn mul_div_is_exact() {
    assert_eq!(mul_div(u128::MAX, 3, 4), Some(u128::MAX / 4 * 3 + (u128::MAX % 4) * 3 / 4));
    assert_eq!(mul_div(10, 1, 3), Some(3));
    assert_eq!(mul_div(7, 0, 5), Some(0));
    assert_eq!(mul_div(u128::MAX - 1, u128::MAX - 2, u128::MAX), None);
}
