use vstd::prelude::*;

use crate::digest::{parcel_digest, parcel_digest_of, Digest};

verus! {

pub type NodeIndex = u32;

pub type Epoch = u64;

/// An ordered batch of transactions, stamped with the digest of the parcel that
/// precedes it in the chain, the epoch it was ordered in and its sub-dag index.
pub struct AuthenticStampedParcel {
    pub transactions: Vec<Vec<u8>>,
    pub last_executed: Digest,
    pub epoch: Epoch,
    pub sub_dag_index: u64,
}

impl AuthenticStampedParcel {
    /// The parcel's digest, which keys it in the transaction store.
    pub fn to_digest(&self) -> (r: Digest)
        ensures
            r@ == parcel_digest_of(self.transactions.deep_view(), self.last_executed@),
    {
        parcel_digest(&self.transactions, &self.last_executed)
    }
}

/// A committee member's claim that the parcel with `digest` is correct. An edge
/// node executes a parcel once a quorum of these has arrived.
pub struct CommitteeAttestation {
    pub digest: Digest,
    pub node_index: NodeIndex,
    pub epoch: Epoch,
}

/// A gossip message with epoch `msg_epoch`, received in epoch `current_epoch`, is
/// valid when it comes from a committee member in the current epoch, or from
/// anyone in the next one (accepted optimistically, checked at the epoch change).
pub open spec fn valid_message(in_committee: bool, msg_epoch: int, current_epoch: int) -> bool {
    (in_committee && msg_epoch == current_epoch) || msg_epoch == current_epoch + 1
}

pub fn is_valid_message(in_committee: bool, msg_epoch: Epoch, current_epoch: Epoch) -> (r: bool)
    ensures
        r == valid_message(in_committee, msg_epoch as int, current_epoch as int),
{
    (in_committee && msg_epoch == current_epoch) || (current_epoch < u64::MAX && msg_epoch
        == current_epoch + 1)
}

/// Number of distinct committee members (2f+1) whose agreement is needed.
pub open spec fn quorum(n: int) -> int {
    (2 * n) / 3 + 1
}

/// The quorum for a committee of `n` members.
pub fn quorum_threshold(n: usize) -> (r: usize)
    ensures
        r == quorum(n as int),
{
    let q: u128 = (2 * (n as u128)) / 3 + 1;
    assert(q <= n + 1) by (nonlinear_arith)
        requires
            q == (2 * (n as u128)) / 3 + 1,
    ;
    if n == usize::MAX {
        assert(q < usize::MAX) by (nonlinear_arith)
            requires
                q == (2 * (n as u128)) / 3 + 1,
                n == usize::MAX,
                n > 3,
        ;
    }
    q as usize
}

} // verus!
