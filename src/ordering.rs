use vstd::prelude::*;

use crate::digest::{blake3_of, clone_bytes, Digest};
use crate::codec::{decode_transaction, decode_tx_spec, envelope, tx_view};
use crate::parcel::{AuthenticStampedParcel, Epoch};
use crate::state::UpdateRequest;

verus! {

/// A batch that the ordering layer certified, with the epoch of its certificate.
pub struct CertifiedBatch {
    pub epoch: Epoch,
    pub transactions: Vec<Vec<u8>>,
}

/// The transactions of the batches certified in `epoch`, in order; batches of
/// another epoch are dropped.
pub open spec fn current_transactions(batches: Seq<CertifiedBatch>, epoch: Epoch) -> Seq<Seq<u8>>
    decreases batches.len(),
{
    if batches.len() == 0 {
        seq![]
    } else {
        current_transactions(batches.drop_last(), epoch) + if batches.last().epoch == epoch {
            batches.last().transactions.deep_view()
        } else {
            seq![]
        }
    }
}

/// The transactions of the batches certified in `current_epoch`, in order.
pub fn batch_payload(batches: &Vec<CertifiedBatch>, current_epoch: Epoch) -> (r: Vec<Vec<u8>>)
    ensures
        r.deep_view() == current_transactions(batches@, current_epoch),
{
    let mut out: Vec<Vec<u8>> = Vec::new();
    let mut i: usize = 0;
    assert(batches@.subrange(0, 0) =~= Seq::<CertifiedBatch>::empty());
    assert(out.deep_view() =~= Seq::<Seq<u8>>::empty());
    while i < batches.len()
        invariant
            0 <= i <= batches@.len(),
            out.deep_view() == current_transactions(batches@.subrange(0, i as int), current_epoch),
        decreases batches@.len() - i,
    {
        let ghost before = out.deep_view();
        let ghost sub = batches@.subrange(0, i + 1);
        assert(sub.drop_last() =~= batches@.subrange(0, i as int));
        assert(sub.last() == batches@[i as int]);
        if batches[i].epoch == current_epoch {
            let txs = &batches[i].transactions;
            let mut k: usize = 0;
            while k < txs.len()
                invariant
                    0 <= k <= txs@.len(),
                    out.deep_view() == before + txs.deep_view().subrange(0, k as int),
                decreases txs@.len() - k,
            {
                let t = clone_bytes(&txs[k]);
                let ghost mid = out.deep_view();
                out.push(t);
                assert(out@[out@.len() - 1].deep_view() =~= txs.deep_view()[k as int]);
                assert(out.deep_view() =~= mid.push(txs.deep_view()[k as int]));
                assert(txs.deep_view().subrange(0, k + 1) =~= txs.deep_view().subrange(0, k as int).push(
                    txs.deep_view()[k as int],
                ));
                assert(out.deep_view() =~= before + txs.deep_view().subrange(0, k + 1));
                k = k + 1;
            }
            assert(txs.deep_view().subrange(0, txs@.len() as int) =~= txs.deep_view());
        } else {
            assert(before + Seq::<Seq<u8>>::empty() =~= before);
        }
        i = i + 1;
    }
    assert(batches@.subrange(0, batches@.len() as int) =~= batches@);
    out
}

/// The parcel that a committee member broadcasts for an ordered sub-dag: the
/// transactions certified in the current epoch, stamped with the executed head
/// and the sub-dag index. `None` where there is none.
pub fn parcel_from_output(
    batches: &Vec<CertifiedBatch>,
    current_epoch: Epoch,
    last_executed: Digest,
    sub_dag_index: u64,
) -> (r: Option<AuthenticStampedParcel>)
    ensures
        r is None <==> current_transactions(batches@, current_epoch).len() == 0,
        r is Some ==> {
            let p = r->Some_0;
            &&& p.transactions.deep_view() == current_transactions(batches@, current_epoch)
            &&& p.last_executed == last_executed
            &&& p.epoch == current_epoch
            &&& p.sub_dag_index == sub_dag_index
        },
{
    let transactions = batch_payload(batches, current_epoch);
    if transactions.len() == 0 {
        return None;
    }
    Some(AuthenticStampedParcel { transactions, last_executed, epoch: current_epoch, sub_dag_index })
}

/// The transactions of a block, as `envelope` and `tx_view` show them: those of `payload`
/// that decode and were not executed before (`executed`, one flag each), in order.
pub open spec fn block_views(payload: Seq<Seq<u8>>, executed: Seq<bool>) -> Seq<((u128, u32), (u8, Seq<u8>, u64, u8, u64, Seq<u8>, u128, u32))>
    decreases payload.len(),
{
    if payload.len() == 0 {
        seq![]
    } else {
        let rest = block_views(payload.drop_last(), executed.drop_last());
        match decode_tx_spec(payload.last()) {
            Some(v) => if executed.last() {
                rest
            } else {
                rest.push(v)
            },
            None => rest,
        }
    }
}

/// For each transaction of `payload`, whether its hash is in `executed`.
pub open spec fn executed_flags(payload: Seq<Seq<u8>>, executed: Seq<Seq<u8>>) -> Seq<bool> {
    Seq::new(payload.len(), |i: int| executed.contains(blake3_of(payload[i])))
}

/// The hashes of the transactions of `payload` that decode and were not
/// executed before (`executed`, one flag each), in order.
pub open spec fn new_hashes(payload: Seq<Seq<u8>>, executed: Seq<bool>) -> Seq<Seq<u8>>
    decreases payload.len(),
{
    if payload.len() == 0 {
        seq![]
    } else {
        let rest = new_hashes(payload.drop_last(), executed.drop_last());
        if decode_tx_spec(payload.last()) is Some && !executed.last() {
            rest.push(blake3_of(payload.last()))
        } else {
            rest
        }
    }
}

/// The transactions of a block: those of `payload` that decode and were not
/// executed before, in order.
pub fn block_transactions(payload: &Vec<Vec<u8>>, executed: &Vec<bool>) -> (r: Vec<UpdateRequest>)
    requires
        executed@.len() == payload@.len(),
    ensures
        r@.len() == block_views(payload.deep_view(), executed@).len(),
        forall|k: int|
            0 <= k < r@.len() ==> (envelope(#[trigger] r@[k]), tx_view(r@[k])) == block_views(
                payload.deep_view(),
                executed@,
            )[k],
{
    let mut out: Vec<UpdateRequest> = Vec::new();
    let mut i: usize = 0;
    while i < payload.len()
        invariant
            0 <= i <= payload@.len(),
            executed@.len() == payload@.len(),
            out@.len() == block_views(payload.deep_view().subrange(0, i as int), executed@.subrange(0, i as int)).len(),
            forall|k: int| 0 <= k < out@.len() ==> (envelope(#[trigger] out@[k]), tx_view(out@[k])) == block_views(
                payload.deep_view().subrange(0, i as int),
                executed@.subrange(0, i as int),
            )[k],
        decreases payload@.len() - i,
    {
        let ghost p2 = payload.deep_view().subrange(0, i + 1);
        let ghost e2 = executed@.subrange(0, i + 1);
        assert(p2.drop_last() =~= payload.deep_view().subrange(0, i as int));
        assert(e2.drop_last() =~= executed@.subrange(0, i as int));
        assert(p2.last() =~= payload@[i as int]@);
        match decode_transaction(&payload[i]) {
            Some(tx) => {
                if !executed[i] {
                    out.push(tx);
                }
            },
            None => {},
        }
        i = i + 1;
    }
    assert(payload.deep_view().subrange(0, payload@.len() as int) =~= payload.deep_view());
    assert(executed@.subrange(0, payload@.len() as int) =~= executed@);
    out
}

} // verus!
