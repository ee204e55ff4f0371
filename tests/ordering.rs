use lightning_core::codec::{decode_transaction, encode_transaction};
use lightning_core::ordering::{block_transactions, parcel_from_output, CertifiedBatch};
use lightning_core::state::{TransactionSender, UpdateMethod, UpdateRequest};

fn batch(epoch: u64, txs: &[&[u8]]) -> CertifiedBatch {
    CertifiedBatch { epoch, transactions: txs.iter().map(|t| t.to_vec()).collect() }
}

#[test]
fn output_keeps_current_epoch_batches() {
    let batches = vec![batch(5, &[b"a", b"b"]), batch(4, &[b"x"]), batch(5, &[b"c"])];
    let p = parcel_from_output(&batches, 5, [7; 32], 11).unwrap();
    assert_eq!(p.transactions, vec![b"a".to_vec(), b"b".to_vec(), b"c".to_vec()]);
    assert_eq!(p.last_executed, [7; 32]);
    assert_eq!(p.epoch, 5);
    assert_eq!(p.sub_dag_index, 11);
    assert!(parcel_from_output(&vec![batch(4, &[b"x"])], 5, [0; 32], 1).is_none());
    assert!(parcel_from_output(&vec![batch(5, &[])], 5, [0; 32], 1).is_none());
}

fn all_methods() -> Vec<UpdateMethod> {
    vec![
        UpdateMethod::ChangeEpoch { epoch: 9 },
        UpdateMethod::OptIn,
        UpdateMethod::OptOut,
        UpdateMethod::CommitteeSelectionBeaconCommit { commit: [3; 32] },
        UpdateMethod::CommitteeSelectionBeaconReveal { reveal: [4; 32] },
        UpdateMethod::CommitteeSelectionBeaconCommitPhaseTimeout,
        UpdateMethod::CommitteeSelectionBeaconRevealPhaseTimeout,
        UpdateMethod::SubmitDeliveryAcknowledgmentAggregation { commodity: u128::MAX - 5, service_id: 70000 },
    ]
}

#[test]
fn transactions_survive_encoding() {
    for (i, method) in all_methods().into_iter().enumerate() {
        let sender = if i % 2 == 0 { TransactionSender::Node([1; 32]) } else { TransactionSender::Account([2; 32]) };
        let tx = UpdateRequest { sender, method, nonce: 1 << 40 | i as u64, secondary_nonce: u128::MAX - i as u128, chain_id: 7 };
        let bytes = encode_transaction(&tx);
        let back = decode_transaction(&bytes).unwrap();
        assert_eq!(encode_transaction(&back), bytes);
        assert_eq!(back.nonce, tx.nonce);
        assert_eq!(back.secondary_nonce, tx.secondary_nonce);
        assert_eq!(back.chain_id, 7);
        match (back.method, tx.method) {
            (UpdateMethod::ChangeEpoch { epoch: a }, UpdateMethod::ChangeEpoch { epoch: b }) => assert_eq!(a, b),
            (
                UpdateMethod::SubmitDeliveryAcknowledgmentAggregation { commodity: a, service_id: s },
                UpdateMethod::SubmitDeliveryAcknowledgmentAggregation { commodity: b, service_id: t },
            ) => {
                assert_eq!(a, b);
                assert_eq!(s, t);
            },
            (UpdateMethod::CommitteeSelectionBeaconReveal { reveal: a }, UpdateMethod::CommitteeSelectionBeaconReveal { reveal: b }) => {
                assert_eq!(a, b)
            },
            _ => {},
        }
    }
}

#[test]
fn change_epoch_wire_format() {
    let tx = UpdateRequest {
        sender: TransactionSender::Node([9; 32]),
        method: UpdateMethod::ChangeEpoch { epoch: 2 },
        nonce: 1,
        secondary_nonce: 3,
        chain_id: 0x0102_0304,
    };
    let bytes = encode_transaction(&tx);
    assert_eq!(bytes.len(), 70);
    assert_eq!(&bytes[0..2], &[3, 0]);
    assert_eq!(&bytes[16..20], &[4, 3, 2, 1]);
    assert_eq!(bytes[20], 0);
    assert_eq!(&bytes[53..61], &[1, 0, 0, 0, 0, 0, 0, 0]);
    assert_eq!(bytes[61], 0);
    assert_eq!(&bytes[62..70], &[2, 0, 0, 0, 0, 0, 0, 0]);
}

#[test]
fn block_keeps_new_decodable_transactions() {
    let tx = |nonce: u64| UpdateRequest {
        sender: TransactionSender::Node([1; 32]),
        method: UpdateMethod::OptIn,
        nonce,
        secondary_nonce: nonce as u128,
        chain_id: 1,
    };
    let payload = vec![encode_transaction(&tx(1)), vec![9, 9, 9], encode_transaction(&tx(2)), encode_transaction(&tx(3))];
    let executed = vec![false, false, true, false];
    let block = block_transactions(&payload, &executed);
    assert_eq!(block.len(), 2);
    assert_eq!(block[0].nonce, 1);
    assert_eq!(block[1].nonce, 3);
}
