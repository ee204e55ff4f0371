use lightning_core::codec::{decode, encode, PubSubMsg};
use lightning_core::digest::Digest;
use lightning_core::edge::{EdgeState, Storage};
use lightning_core::parcel::{
    is_valid_message,
    quorum_threshold,
    AuthenticStampedParcel,
    CommitteeAttestation,
};
use lightning_core::store::{NotExecuted, TransactionStore};
use lightning_core::timeout::ParcelTimeoutData;

fn parcel(txs: &[&[u8]], last_executed: Digest, epoch: u64, sub_dag_index: u64) -> AuthenticStampedParcel {
    AuthenticStampedParcel {
        transactions: txs.iter().map(|t| t.to_vec()).collect(),
        last_executed,
        epoch,
        sub_dag_index,
    }
}

#[test]
fn test_is_valid_message() {
    // msg is from a committee member, msg epoch is the current epoch => valid
    assert!(is_valid_message(true, 2, 2));
    // msg is from a committee member, msg epoch is from the next epoch => valid
    assert!(is_valid_message(true, 4, 3));
    // msg is from a committee member, msg epoch is from the current epoch + 2 => invalid
    assert!(!is_valid_message(true, 7, 5));
    // msg is from a committee member, msg epoch is from the last epoch => invalid
    assert!(!is_valid_message(true, 4, 5));
    // msg is not from a committee member, msg epoch is the next epoch => valid
    assert!(is_valid_message(false, 2, 1));
    // msg is not from a committee member, msg epoch is the current epoch + 2 => invalid
    assert!(!is_valid_message(false, 3, 1));
    // msg is not from a committee member, msg epoch is the last epoch => invalid
    assert!(!is_valid_message(false, 1, 2));
}

#[test]
fn quorum_of_committees() {
    assert_eq!(quorum_threshold(4), 3);
    assert_eq!(quorum_threshold(2), 2);
    assert_eq!(quorum_threshold(1), 1);
    assert_eq!(quorum_threshold(0), 1);
    assert_eq!(quorum_threshold(7), 5);
}

#[test]
fn parcel_digest_depends_on_contents() {
    let a = parcel(&[b"tx1"], [0; 32], 0, 1);
    let b = parcel(&[b"tx2"], [0; 32], 0, 1);
    let c = parcel(&[b"tx1"], [1; 32], 0, 1);
    let d = parcel(&[b"tx1"], [0; 32], 5, 9);
    assert_ne!(a.to_digest(), b.to_digest());
    assert_ne!(a.to_digest(), c.to_digest());
    assert_ne!(a.to_digest(), [0; 32]);
    // Epoch and sub-dag index are not part of the digest.
    assert_eq!(a.to_digest(), d.to_digest());
}

#[test]
fn chain_of_two_parcels_executes_oldest_first() {
    let head = [9u8; 32];
    let committee = vec![0u32, 1, 2, 3];
    let older = parcel(&[b"a", b"b"], head, 0, 1);
    let d1 = older.to_digest();
    let newer = parcel(&[b"c"], d1, 0, 2);
    let d2 = newer.to_digest();
    let mut store: TransactionStore<u32> = TransactionStore::new();
    store.store_parcel(newer, 0, Some([5; 32]));
    // The first parcel is missing.
    for n in 0..3 {
        store.store_attestation(d2, n);
    }
    match store.try_execute(&d2, &head, &committee, 1000) {
        Err(NotExecuted::MissingParcel { digest, timeout }) => {
            assert_eq!(digest, d1);
            assert_eq!(timeout, 40000);
        },
        _ => panic!("expected a missing parcel"),
    }
    store.store_parcel(older, 1, None);
    // The first parcel lacks a quorum of attestations.
    store.store_attestation(d1, 0);
    store.store_attestation(d1, 0);
    store.store_attestation(d1, 9);
    match store.try_execute(&d2, &head, &committee, 1000) {
        Err(NotExecuted::MissingAttestations(d)) => assert_eq!(d, d1),
        _ => panic!("expected missing attestations"),
    }
    store.store_attestation(d1, 1);
    store.store_attestation(d1, 2);
    let chain = match store.try_execute(&d2, &head, &committee, 1000) {
        Ok(chain) => chain,
        Err(_) => panic!("expected a chain"),
    };
    assert_eq!(chain.len(), 2);
    assert_eq!(chain[0].digest, d1);
    assert_eq!(chain[0].sub_dag_index, 1);
    assert_eq!(chain[0].transactions, vec![b"a".to_vec(), b"b".to_vec()]);
    assert_eq!(chain[1].digest, d2);
    assert_eq!(chain[1].transactions, vec![b"c".to_vec()]);
    assert!(store.is_executed(&d1));
    assert!(store.is_executed(&d2));
    // Executed parcels are not handed out twice.
    match store.try_execute(&d2, &head, &committee, 2000) {
        Ok(chain) => assert!(chain.is_empty()),
        Err(_) => panic!("expected an empty chain"),
    }
    assert_eq!(store.get_parcel_message_digest(&d2), Some([5; 32]));
    assert_eq!(store.get_parcel_message_digest(&d1), None);
    assert!(store.contains_parcel(&d1));
    assert!(!store.contains_parcel(&head));
}

#[test]
fn pending_entries_are_promoted_or_rejected() {
    let head = [0u8; 32];
    let older = parcel(&[b"x"], head, 1, 1);
    let d1 = older.to_digest();
    let newer = parcel(&[b"y"], head, 1, 2);
    let d2 = newer.to_digest();
    let mut store: TransactionStore<&'static str> = TransactionStore::new();
    store.store_pending_parcel(older, 4, None, "from member");
    store.store_pending_parcel(newer, 7, None, "from stranger");
    store.store_pending_attestation(d1, 4, "att member");
    store.store_pending_attestation(d1, 8, "att stranger");
    assert!(!store.contains_parcel(&d1));
    let rejected = store.change_epoch(&vec![4, 5]);
    assert_eq!(rejected, vec!["from stranger", "att stranger"]);
    assert!(store.contains_parcel(&d1));
    assert!(!store.contains_parcel(&d2));
    assert_eq!(store.count_attestors(&d1, &vec![4, 5]), 1);
    assert_eq!(store.count_attestors(&d2, &vec![4, 5]), 0);
}

#[test]
fn timeout_estimate_follows_executions() {
    let mut t = ParcelTimeoutData::new();
    // 4 * 5000 + 30000 = 50000, clamped to 40000.
    assert_eq!(t.get_parcel_timeout(), 40000);
    t.update_estimated_tbe(1000);
    assert_eq!(t.estimated_tbe, 30000);
    assert_eq!(t.last_executed_timestamp, Some(1000));
    t.update_estimated_tbe(11000);
    // (7 * 30000 + 10000) / 8 and (56 * 5000 + 7 * 20000) / 64.
    assert_eq!(t.estimated_tbe, 27500);
    assert_eq!(t.deviation_tbe, 6562);
    assert_eq!(t.get_parcel_timeout(), 40000);
    let quiet = ParcelTimeoutData { last_executed_timestamp: None, estimated_tbe: 1000, deviation_tbe: 10 };
    assert_eq!(quiet.get_parcel_timeout(), 30000);
    let mid = ParcelTimeoutData { last_executed_timestamp: None, estimated_tbe: 32000, deviation_tbe: 1000 };
    assert_eq!(mid.get_parcel_timeout(), 36000);
}

#[test]
fn parcel_messages_are_routed() {
    let edge = EdgeState::new(vec![0, 1, 2, 3], 9);
    assert!(!edge.on_committee);
    assert_eq!(edge.quorum_threshold, 3);
    let p = parcel(&[b"t"], [0; 32], 5, 0);
    let a = edge.handle_parcel(1, &p, 5, false);
    assert!(!a.mark_invalid && a.propagate && a.try_execute);
    assert_eq!(a.storage, Storage::Current);
    assert!(!a.timer_for_previous);
    let a = edge.handle_parcel(1, &p, 5, true);
    assert!(!a.propagate);
    assert!(a.timer_for_previous);
    let a = edge.handle_parcel(7, &p, 5, false);
    assert!(a.mark_invalid);
    assert_eq!(a.storage, Storage::Drop);
    let a = edge.handle_parcel(7, &p, 4, false);
    assert!(!a.mark_invalid && !a.propagate);
    assert_eq!(a.storage, Storage::Pending);
    let a = edge.handle_parcel(1, &p, 7, false);
    assert!(a.mark_invalid);
}

#[test]
fn attestation_messages_are_routed() {
    let edge = EdgeState::new(vec![0, 1, 2, 3], 9);
    let att = CommitteeAttestation { digest: [3; 32], node_index: 2, epoch: 5 };
    let a = edge.handle_attestation(2, &att, 5);
    assert!(!a.mark_invalid && a.propagate && a.try_execute);
    assert_eq!(a.storage, Storage::Current);
    let a = edge.handle_attestation(1, &att, 5);
    assert!(a.mark_invalid);
    let member = EdgeState::new(vec![0, 1, 2, 3], 2);
    assert!(member.on_committee);
    let a = member.handle_attestation(2, &att, 5);
    assert!(a.propagate && !a.try_execute);
    assert_eq!(a.storage, Storage::Current);
    let next = CommitteeAttestation { digest: [3; 32], node_index: 7, epoch: 6 };
    let a = member.handle_attestation(7, &next, 5);
    assert!(!a.mark_invalid && !a.propagate);
    assert_eq!(a.storage, Storage::Pending);
}

#[test]
fn parcel_timers_are_bounded_and_deduplicated() {
    let mut edge = EdgeState::new(vec![0], 0);
    assert!(edge.set_parcel_timer([1; 32]));
    assert!(!edge.set_parcel_timer([1; 32]));
    assert_eq!(
        edge.handle_not_executed(NotExecuted::MissingParcel { digest: [2; 32], timeout: 31000 }),
        Some(([2; 32], 31000))
    );
    assert_eq!(edge.handle_not_executed(NotExecuted::MissingAttestations([3; 32])), None);
    edge.timer_fired(&[1; 32]);
    assert!(!edge.has_timer(&[1; 32]));
    assert!(edge.has_timer(&[2; 32]));
    for i in 0..200u32 {
        let mut d = [0u8; 32];
        d[..4].copy_from_slice(&i.to_le_bytes());
        d[31] = 7;
        edge.set_parcel_timer(d);
    }
    assert_eq!(edge.pending_timeouts.len(), 100);
}

#[test]
fn messages_survive_encoding() {
    let msgs = vec![
        PubSubMsg::Transactions(parcel(&[b"", b"abc", &[0u8; 300]], [4; 32], 77, u64::MAX)),
        PubSubMsg::Transactions(parcel(&[], [0; 32], 0, 0)),
        PubSubMsg::Attestation(CommitteeAttestation { digest: [8; 32], node_index: 70000, epoch: 3 }),
        PubSubMsg::RequestTransactions([6; 32]),
    ];
    for m in msgs {
        let bytes = encode(&m).unwrap();
        let back = decode(&bytes).unwrap();
        assert_eq!(encode(&back).unwrap(), bytes);
        match (&m, &back) {
            (PubSubMsg::Transactions(a), PubSubMsg::Transactions(b)) => {
                assert_eq!(a.transactions, b.transactions);
                assert_eq!(a.last_executed, b.last_executed);
                assert_eq!(a.epoch, b.epoch);
                assert_eq!(a.sub_dag_index, b.sub_dag_index);
            },
            (PubSubMsg::Attestation(a), PubSubMsg::Attestation(b)) => {
                assert_eq!(a.digest, b.digest);
                assert_eq!(a.node_index, b.node_index);
                assert_eq!(a.epoch, b.epoch);
            },
            (PubSubMsg::RequestTransactions(a), PubSubMsg::RequestTransactions(b)) => assert_eq!(a, b),
            _ => panic!("variant changed"),
        }
    }
}

#[test]
fn attestation_wire_format() {
    let m = PubSubMsg::Attestation(CommitteeAttestation { digest: [1; 32], node_index: 0x0102_0304, epoch: 5 });
    let bytes = encode(&m).unwrap();
    assert_eq!(bytes.len(), 45);
    assert_eq!(bytes[0], 1);
    assert_eq!(&bytes[33..37], &[4, 3, 2, 1]);
    assert_eq!(&bytes[37..45], &[5, 0, 0, 0, 0, 0, 0, 0]);
}

#[test]
fn malformed_messages_are_refused() {
    assert!(decode(&vec![]).is_none());
    assert!(decode(&vec![3]).is_none());
    assert!(decode(&vec![2; 10]).is_none());
    let mut bytes = encode(&PubSubMsg::Transactions(parcel(&[b"abc"], [0; 32], 1, 1))).unwrap();
    bytes.pop();
    assert!(decode(&bytes).is_none());
    // A frame that claims more bytes than there are.
    let mut bad = vec![0u8, 1, 0, 0, 0, 255, 255, 0, 0];
    bad.extend_from_slice(&[0; 48]);
    assert!(decode(&bad).is_none());
}

#[test]
fn old_parcels_are_pruned() {
    let mut store: TransactionStore<u8> = TransactionStore::new();
    let old = parcel(&[b"1"], [0; 32], 1, 0);
    let previous = parcel(&[b"3"], [0; 32], 3, 0);
    let current = parcel(&[b"4"], [0; 32], 4, 0);
    let (d_old, d_previous, d_current) = (old.to_digest(), previous.to_digest(), current.to_digest());
    store.store_parcel(old, 0, None);
    store.store_parcel(previous, 0, None);
    store.store_parcel(current, 0, None);
    store.prune(4);
    assert!(!store.contains_parcel(&d_old));
    assert!(store.contains_parcel(&d_previous));
    assert!(store.contains_parcel(&d_current));
}

#[test]
fn pending_parcels_are_retried_after_an_execution() {
    let head = [9u8; 32];
    let committee = vec![0u32, 1, 2, 3];
    let older = parcel(&[b"a"], head, 0, 1);
    let d1 = older.to_digest();
    let newer = parcel(&[b"b"], d1, 0, 2);
    let d2 = newer.to_digest();
    let mut store: TransactionStore<u8> = TransactionStore::new();
    // The newer parcel and all its attestations arrive first.
    store.store_parcel(newer, 0, None);
    for n in 0..3 {
        store.store_attestation(d2, n);
    }
    match store.try_execute_all(&d2, &head, &committee, 0) {
        Err(NotExecuted::MissingParcel { digest, .. }) => assert_eq!(digest, d1),
        _ => panic!("expected a missing parcel"),
    }
    // Then the older parcel, and only later its attestations.
    store.store_parcel(older, 1, None);
    match store.try_execute_all(&d1, &head, &committee, 0) {
        Ok(chain) => assert!(chain.is_empty()),
        Err(_) => panic!("missing attestations are not an error here"),
    }
    for n in 0..3 {
        store.store_attestation(d1, n);
    }
    let chain = match store.try_execute_all(&d1, &head, &committee, 1000) {
        Ok(chain) => chain,
        Err(_) => panic!("expected a chain"),
    };
    // The older parcel runs, and the retry runs the newer one on top of it.
    assert_eq!(chain.iter().map(|l| l.digest).collect::<Vec<_>>(), vec![d1, d2]);
    assert!(store.is_executed(&d2));
}
