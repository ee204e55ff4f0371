use vstd::prelude::*;

use crate::digest::Digest;
use crate::parcel::Epoch;
use crate::state::{node_index_of, view_wf, AppState, NodeRecord};

verus! {

/// The current epoch and the records of its committee's members.
pub struct EpochInfo {
    pub committee: Vec<NodeRecord>,
    pub epoch: Epoch,
}

/// The public keys of the members of `members` that are registered nodes, in order.
pub open spec fn member_keys(nodes: Seq<NodeRecord>, members: Seq<u32>) -> Seq<Digest>
    decreases members.len(),
{
    if members.len() == 0 {
        seq![]
    } else {
        let rest = member_keys(nodes, members.drop_last());
        let m = members.last() as int;
        if m < nodes.len() {
            rest.push(nodes[m].public_key)
        } else {
            rest
        }
    }
}

/// The records of the members of `members` that are registered nodes, in order.
pub open spec fn member_records(nodes: Seq<NodeRecord>, members: Seq<u32>) -> Seq<NodeRecord>
    decreases members.len(),
{
    if members.len() == 0 {
        seq![]
    } else {
        let rest = member_records(nodes, members.drop_last());
        let m = members.last() as int;
        if m < nodes.len() {
            rest.push(nodes[m])
        } else {
            rest
        }
    }
}

impl AppState {
    /// The stake a node needs.
    pub fn get_staking_amount(&self) -> (r: u128)
        ensures
            r == self.min_stake,
    {
        self.min_stake
    }

    /// The record of the node with public key `key`.
    pub fn get_node_info(&self, key: &Digest) -> (r: Option<NodeRecord>)
        requires
            view_wf(self@),
        ensures
            match node_index_of(self@.nodes, key@) {
                Some(i) => r == Some(self@.nodes[i]),
                None => r is None,
            },
    {
        match self.find_node(key) {
            Some(i) => Some(self.nodes[i]),
            None => None,
        }
    }

    /// The public keys of the current committee's members.
    pub fn get_committee_members(&self) -> (r: Vec<Digest>)
        ensures
            r@ == member_keys(self.nodes@, self.committee.members@),
    {
        let members = &self.committee.members;
        let mut out: Vec<Digest> = Vec::new();
        let mut i: usize = 0;
        while i < members.len()
            invariant
                0 <= i <= members@.len(),
                out@ == member_keys(self.nodes@, members@.subrange(0, i as int)),
            decreases members@.len() - i,
        {
            let ghost sub = members@.subrange(0, i + 1);
            assert(sub.drop_last() =~= members@.subrange(0, i as int));
            let m = members[i] as usize;
            if m < self.nodes.len() {
                out.push(self.nodes[m].public_key);
            }
            i = i + 1;
        }
        assert(members@.subrange(0, members@.len() as int) =~= members@);
        out
    }

    /// The current epoch and the records of its committee's members.
    pub fn get_epoch_info(&self) -> (r: EpochInfo)
        ensures
            r.epoch == self.epoch,
            r.committee@ == member_records(self.nodes@, self.committee.members@),
    {
        let members = &self.committee.members;
        let mut out: Vec<NodeRecord> = Vec::new();
        let mut i: usize = 0;
        while i < members.len()
            invariant
                0 <= i <= members@.len(),
                out@ == member_records(self.nodes@, members@.subrange(0, i as int)),
            decreases members@.len() - i,
        {
            let ghost sub = members@.subrange(0, i + 1);
            assert(sub.drop_last() =~= members@.subrange(0, i as int));
            let m = members[i] as usize;
            if m < self.nodes.len() {
                out.push(self.nodes[m]);
            }
            i = i + 1;
        }
        assert(members@.subrange(0, members@.len() as int) =~= members@);
        EpochInfo { committee: out, epoch: self.epoch }
    }

    /// A node's reputation: not measured by this state, so never known.
    pub fn get_reputation(&self, _node: &Digest) -> (r: Option<u128>)
        ensures
            r is None,
    {
        None
    }

    /// How two nodes' reputations compare: not measured by this state.
    pub fn get_relative_score(&self, _a: &Digest, _b: &Digest) -> (r: Option<u128>)
        ensures
            r is None,
    {
        None
    }

    /// Whether a node is valid: not decided by this state.
    pub fn is_valid_node(&self, _node: &Digest) -> (r: Option<bool>)
        ensures
            r is None,
    {
        None
    }

    /// The node registry: not served by this state.
    pub fn get_node_registry(&self) -> (r: Option<Vec<NodeRecord>>)
        ensures
            r is None,
    {
        None
    }

    /// The epoch's randomness seed: not kept by this state.
    pub fn get_epoch_randomness_seed(&self) -> (r: Option<Digest>)
        ensures
            r is None,
    {
        None
    }
}

} // verus!
