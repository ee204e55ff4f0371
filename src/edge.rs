use vstd::prelude::*;

use crate::digest::{digest_eq, Digest};
use crate::parcel::{
    is_valid_message,
    quorum,
    quorum_threshold,
    valid_message,
    AuthenticStampedParcel,
    CommitteeAttestation,
    Epoch,
    NodeIndex,
};
use crate::store::{contains_index, NotExecuted};

verus! {

/// At most this many parcel timers run at once.
pub const MAX_PENDING_TIMEOUTS: usize = 100;

/// Where a gossiped parcel or attestation goes in the transaction store.
#[derive(PartialEq, Eq, Structural, Clone, Copy, Debug)]
pub enum Storage {
    /// Not stored.
    Drop,
    /// Stored for the current epoch.
    Current,
    /// Held for the next epoch, with its gossip event.
    Pending,
}

/// What to do with a gossip message.
#[derive(PartialEq, Eq, Structural, Clone, Copy, Debug)]
pub struct MessageAction {
    /// Report the sender and drop the message.
    pub mark_invalid: bool,
    /// Pass the message on to peers.
    pub propagate: bool,
    pub storage: Storage,
    /// Try to execute the chain that ends at the message's parcel.
    pub try_execute: bool,
    /// Start a timer for the parcel that this one points back to: it answers a
    /// request of ours, so its predecessor may be missing too.
    pub timer_for_previous: bool,
}

/// The message receiver's view of the committee and of the parcel timers.
pub struct EdgeState {
    pub committee: Vec<NodeIndex>,
    pub quorum_threshold: usize,
    pub our_index: NodeIndex,
    pub on_committee: bool,
    /// Digests of the missing parcels that a timer is running for.
    pub pending_timeouts: Vec<Digest>,
}

/// Whether `s` holds the digest `k`.
pub open spec fn holds_digest(s: Seq<Digest>, k: Seq<u8>) -> bool {
    exists|i: int| 0 <= i < s.len() && #[trigger] s[i]@ == k
}

/// A message that is dropped, its sender reported.
pub open spec fn invalid_action() -> MessageAction {
    MessageAction {
        mark_invalid: true,
        propagate: false,
        storage: Storage::Drop,
        try_execute: false,
        timer_for_previous: false,
    }
}

/// The handling of a parcel from `originator` stamped with `parcel_epoch`, in
/// `current_epoch`. `requested` says whether this node asked peers for it.
/// Parcels are propagated unless requested or of the next epoch; those of the
/// next epoch are held until its committee is known; edge nodes try to execute.
/// A requested parcel starts a timer for its predecessor.
pub open spec fn parcel_action(
    in_committee: bool,
    on_committee: bool,
    parcel_epoch: Epoch,
    current_epoch: Epoch,
    requested: bool,
) -> MessageAction {
    if !valid_message(in_committee, parcel_epoch as int, current_epoch as int) {
        invalid_action()
    } else {
        let next = parcel_epoch == current_epoch + 1;
        MessageAction {
            mark_invalid: false,
            propagate: !requested && !next,
            storage: if next {
                Storage::Pending
            } else {
                Storage::Current
            },
            try_execute: !on_committee,
            timer_for_previous: requested,
        }
    }
}

/// The handling of an attestation: its sender must be the node it names. It is
/// stored and propagated as a parcel is; only edge nodes try to execute.
pub open spec fn attestation_action(
    in_committee: bool,
    on_committee: bool,
    originator: NodeIndex,
    att_node: NodeIndex,
    att_epoch: Epoch,
    current_epoch: Epoch,
) -> MessageAction {
    if originator != att_node || !valid_message(in_committee, att_epoch as int, current_epoch as int) {
        invalid_action()
    } else {
        let next = att_epoch == current_epoch + 1;
        MessageAction {
            mark_invalid: false,
            propagate: !next,
            storage: if next {
                Storage::Pending
            } else {
                Storage::Current
            },
            try_execute: !on_committee,
            timer_for_previous: false,
        }
    }
}

impl EdgeState {
    pub open spec fn wf(&self) -> bool {
        &&& self.quorum_threshold == quorum(self.committee@.len() as int)
        &&& self.on_committee == self.committee@.contains(self.our_index)
        &&& self.pending_timeouts@.len() <= MAX_PENDING_TIMEOUTS
        &&& forall|i: int, j: int|
            0 <= i < j < self.pending_timeouts@.len() ==> #[trigger] self.pending_timeouts@[i]@
                != #[trigger] self.pending_timeouts@[j]@
    }

    /// The state for `committee`, with this node at `our_index`, no timer running.
    pub fn new(committee: Vec<NodeIndex>, our_index: NodeIndex) -> (r: Self)
        ensures
            r.wf(),
            r.committee@ == committee@,
            r.our_index == our_index,
            r.pending_timeouts@.len() == 0,
    {
        let quorum_threshold = quorum_threshold(committee.len());
        let on_committee = contains_index(&committee, our_index);
        EdgeState { committee, quorum_threshold, our_index, on_committee, pending_timeouts: Vec::new() }
    }

    /// Takes up the committee of a new epoch; the timers keep running.
    pub fn reconfigure(&mut self, committee: Vec<NodeIndex>, our_index: NodeIndex)
        requires
            old(self).wf(),
        ensures
            final(self).wf(),
            final(self).committee@ == committee@,
            final(self).our_index == our_index,
            final(self).pending_timeouts == old(self).pending_timeouts,
    {
        self.quorum_threshold = quorum_threshold(committee.len());
        self.on_committee = contains_index(&committee, our_index);
        self.committee = committee;
        self.our_index = our_index;
    }

    /// How to handle a gossiped parcel from `originator`.
    pub fn handle_parcel(
        &self,
        originator: NodeIndex,
        parcel: &AuthenticStampedParcel,
        current_epoch: Epoch,
        requested: bool,
    ) -> (r: MessageAction)
        requires
            self.wf(),
        ensures
            r == parcel_action(
                self.committee@.contains(originator),
                self.on_committee,
                parcel.epoch,
                current_epoch,
                requested,
            ),
    {
        let in_committee = contains_index(&self.committee, originator);
        if !is_valid_message(in_committee, parcel.epoch, current_epoch) {
            return MessageAction {
                mark_invalid: true,
                propagate: false,
                storage: Storage::Drop,
                try_execute: false,
                timer_for_previous: false,
            };
        }
        let next = current_epoch < u64::MAX && parcel.epoch == current_epoch + 1;
        MessageAction {
            mark_invalid: false,
            propagate: !requested && !next,
            storage: if next {
                Storage::Pending
            } else {
                Storage::Current
            },
            try_execute: !self.on_committee,
            timer_for_previous: requested,
        }
    }

    /// How to handle a gossiped attestation from `originator`.
    pub fn handle_attestation(
        &self,
        originator: NodeIndex,
        att: &CommitteeAttestation,
        current_epoch: Epoch,
    ) -> (r: MessageAction)
        requires
            self.wf(),
        ensures
            r == attestation_action(
                self.committee@.contains(originator),
                self.on_committee,
                originator,
                att.node_index,
                att.epoch,
                current_epoch,
            ),
    {
        let in_committee = contains_index(&self.committee, originator);
        if originator != att.node_index || !is_valid_message(in_committee, att.epoch, current_epoch) {
            return MessageAction {
                mark_invalid: true,
                propagate: false,
                storage: Storage::Drop,
                try_execute: false,
                timer_for_previous: false,
            };
        }
        let next = current_epoch < u64::MAX && att.epoch == current_epoch + 1;
        MessageAction {
            mark_invalid: false,
            propagate: !next,
            storage: if next {
                Storage::Pending
            } else {
                Storage::Current
            },
            try_execute: !self.on_committee,
            timer_for_previous: false,
        }
    }

    /// Whether a timer runs for `digest`.
    pub fn has_timer(&self, digest: &Digest) -> (r: bool)
        ensures
            r == exists|i: int|
                0 <= i < self.pending_timeouts@.len() && #[trigger] self.pending_timeouts@[i]@
                    == digest@,
    {
        let mut i: usize = 0;
        while i < self.pending_timeouts.len()
            invariant
                0 <= i <= self.pending_timeouts@.len(),
                forall|j: int| 0 <= j < i ==> self.pending_timeouts@[j]@ != digest@,
            decreases self.pending_timeouts@.len() - i,
        {
            if digest_eq(&self.pending_timeouts[i], digest) {
                return true;
            }
            i = i + 1;
        }
        false
    }

    /// Registers a timer for the missing parcel `digest`, unless one runs for it
    /// or the limit of running timers is reached. Returns whether the caller
    /// should start it.
    pub fn set_parcel_timer(&mut self, digest: Digest) -> (r: bool)
        requires
            old(self).wf(),
        ensures
            final(self).wf(),
            final(self).committee == old(self).committee,
            final(self).our_index == old(self).our_index,
            r == (!(exists|i: int|
                0 <= i < old(self).pending_timeouts@.len() && #[trigger] old(
                    self,
                ).pending_timeouts@[i]@ == digest@) && old(self).pending_timeouts@.len()
                < MAX_PENDING_TIMEOUTS),
            final(self).pending_timeouts@ == if r {
                old(self).pending_timeouts@.push(digest)
            } else {
                old(self).pending_timeouts@
            },
    {
        if !self.has_timer(&digest) && self.pending_timeouts.len() < MAX_PENDING_TIMEOUTS {
            self.pending_timeouts.push(digest);
            true
        } else {
            false
        }
    }

    /// After a failed execution: a missing parcel gets a timer, which the caller
    /// starts with the returned digest and timeout.
    pub fn handle_not_executed(&mut self, not_executed: NotExecuted) -> (r: Option<(Digest, u64)>)
        requires
            old(self).wf(),
        ensures
            final(self).wf(),
            final(self).committee == old(self).committee,
            final(self).our_index == old(self).our_index,
            match not_executed {
                NotExecuted::MissingParcel { digest, timeout } => {
                    &&& (r is Some) == (!(exists|i: int|
                        0 <= i < old(self).pending_timeouts@.len() && #[trigger] old(
                            self,
                        ).pending_timeouts@[i]@ == digest@) && old(self).pending_timeouts@.len()
                        < MAX_PENDING_TIMEOUTS)
                    &&& r is Some ==> r->Some_0 == (digest, timeout)
                    &&& final(self).pending_timeouts@ == if r is Some {
                        old(self).pending_timeouts@.push(digest)
                    } else {
                        old(self).pending_timeouts@
                    }
                },
                _ => {
                    &&& r is None
                    &&& final(self).pending_timeouts == old(self).pending_timeouts
                },
            },
    {
        match not_executed {
            NotExecuted::MissingParcel { digest, timeout } => {
                if self.set_parcel_timer(digest) {
                    Some((digest, timeout))
                } else {
                    None
                }
            },
            NotExecuted::MissingAttestations(_) => None,
            NotExecuted::Cycle(_) => None,
        }
    }

    /// A timer for `digest` fired: it no longer runs. The caller then asks peers
    /// for the parcel if it is still missing.
    pub fn timer_fired(&mut self, digest: &Digest)
        requires
            old(self).wf(),
        ensures
            final(self).wf(),
            final(self).committee == old(self).committee,
            final(self).our_index == old(self).our_index,
            forall|k: Seq<u8>|
                #[trigger] holds_digest(final(self).pending_timeouts@, k) <==> (k != digest@
                    && holds_digest(old(self).pending_timeouts@, k)),
    {
        let mut kept: Vec<Digest> = Vec::new();
        let mut i: usize = 0;
        while i < self.pending_timeouts.len()
            invariant
                0 <= i <= self.pending_timeouts@.len(),
                *self == *old(self),
                old(self).wf(),
                kept@.len() <= i,
                forall|a: int, b: int|
                    0 <= a < b < kept@.len() ==> #[trigger] kept@[a]@ != #[trigger] kept@[b]@,
                forall|k: Seq<u8>|
                    #[trigger] holds_digest(kept@, k) <==> (k != digest@ && holds_digest(
                        self.pending_timeouts@.subrange(0, i as int),
                        k,
                    )),
            decreases self.pending_timeouts@.len() - i,
        {
            let d = self.pending_timeouts[i];
            let ghost kept_before = kept@;
            let keep = !digest_eq(&d, digest);
            if keep {
                assert(!holds_digest(kept_before, d@)) by {
                    if holds_digest(kept_before, d@) {
                        assert(holds_digest(self.pending_timeouts@.subrange(0, i as int), d@));
                        let j = choose|j: int|
                            0 <= j < i && #[trigger] self.pending_timeouts@.subrange(0, i as int)[j]@ == d@;
                        assert(self.pending_timeouts@[j]@ == self.pending_timeouts@[i as int]@);
                    }
                }
                kept.push(d);
                assert forall|a: int, b: int|
                    0 <= a < b < kept@.len() implies #[trigger] kept@[a]@ != #[trigger] kept@[b]@ by {
                    if b == kept_before.len() {
                        assert(kept@[a] == kept_before[a]);
                        if kept@[a]@ == d@ {
                            assert(holds_digest(kept_before, d@));
                        }
                    } else {
                        assert(kept@[a] == kept_before[a] && kept@[b] == kept_before[b]);
                    }
                }
                assert forall|k: Seq<u8>| #[trigger] holds_digest(kept@, k) == (holds_digest(
                    kept_before,
                    k,
                ) || k == d@) by {
                    if holds_digest(kept_before, k) {
                        let j = choose|j: int|
                            0 <= j < kept_before.len() && #[trigger] kept_before[j]@ == k;
                        assert(kept@[j]@ == k);
                    }
                    if k == d@ {
                        assert(kept@[kept_before.len() as int]@ == k);
                    }
                    if holds_digest(kept@, k) && k != d@ {
                        let j = choose|j: int| 0 <= j < kept@.len() && #[trigger] kept@[j]@ == k;
                        assert(kept_before[j]@ == k);
                    }
                }
            }
            let ghost pre = self.pending_timeouts@.subrange(0, i as int);
            let ghost post = self.pending_timeouts@.subrange(0, i + 1);
            assert forall|k: Seq<u8>| #[trigger] holds_digest(post, k) == (holds_digest(pre, k)
                || k == d@) by {
                if holds_digest(pre, k) {
                    let j = choose|j: int| 0 <= j < pre.len() && #[trigger] pre[j]@ == k;
                    assert(post[j]@ == k);
                }
                if k == d@ {
                    assert(post[i as int]@ == k);
                }
                if holds_digest(post, k) && k != d@ {
                    let j = choose|j: int| 0 <= j < post.len() && #[trigger] post[j]@ == k;
                    assert(pre[j]@ == k);
                }
            }
            assert forall|k: Seq<u8>| #[trigger] holds_digest(kept@, k) <==> (k != digest@
                && holds_digest(post, k)) by {
                assert(holds_digest(kept_before, k) <==> (k != digest@ && holds_digest(pre, k)));
            }
            i = i + 1;
        }
        assert(self.pending_timeouts@.subrange(0, self.pending_timeouts@.len() as int)
            =~= self.pending_timeouts@);
        self.pending_timeouts = kept;
    }
}

} // verus!
