use vstd::prelude::*;

use crate::digest::{clone_batch, digest_eq, parcel_digest_of, Digest};
use crate::keyed::{
    find_entry,
    has_key,
    keyed_map,
    lemma_keyed_lookup,
    lemma_keyed_push,
    lemma_keyed_update,
    unique_keys,
    Entry,
};
use crate::parcel::{quorum, quorum_threshold, AuthenticStampedParcel, Epoch, NodeIndex};
use crate::timeout::{tbe_after, tbe_next, tbe_updated, timeout_of, ParcelTimeoutData};

verus! {

/// A parcel as the store keeps it: who sent it and, where known, the digest of
/// the broadcast message that carried it (to repropagate it on request).
pub struct StoredParcel {
    pub inner: AuthenticStampedParcel,
    pub originator: NodeIndex,
    pub message_digest: Option<Digest>,
}

/// Why a parcel could not be executed yet.
pub enum NotExecuted {
    /// The chain back to the head breaks at `digest`; request it after `timeout`
    /// milliseconds if it is still missing.
    MissingParcel { digest: Digest, timeout: u64 },
    /// A parcel of the chain lacks a quorum of attestations.
    MissingAttestations(Digest),
    /// The back-pointers from this stored parcel loop without reaching the head.
    Cycle(Digest),
}

/// One parcel of a chain that is ready to be executed.
pub struct ChainLink {
    pub transactions: Vec<Vec<u8>>,
    pub sub_dag_index: u64,
    pub digest: Digest,
}

/// Outcome of walking from a parcel back to the executed head.
pub enum Walk {
    /// The digests of the chain, oldest first.
    Chain(Seq<Seq<u8>>),
    MissingParcel(Seq<u8>),
    MissingAttestations(Seq<u8>),
    Cycle(Seq<u8>),
}

/// The nodes that attested the parcel with digest `d`.
pub open spec fn attestors(atts: Map<Seq<u8>, Seq<NodeIndex>>, d: Seq<u8>) -> Seq<NodeIndex> {
    if atts.contains_key(d) {
        atts[d]
    } else {
        seq![]
    }
}

/// How many entries of `nodes` are committee members.
pub open spec fn count_members(nodes: Seq<NodeIndex>, committee: Seq<NodeIndex>) -> nat
    decreases nodes.len(),
{
    if nodes.len() == 0 {
        0
    } else {
        count_members(nodes.drop_last(), committee) + if committee.contains(nodes.last()) {
            1nat
        } else {
            0nat
        }
    }
}

/// `atts` after `node` attested `d`.
pub open spec fn add_attestor(
    atts: Map<Seq<u8>, Seq<NodeIndex>>,
    d: Seq<u8>,
    node: NodeIndex,
) -> Map<Seq<u8>, Seq<NodeIndex>> {
    atts.insert(
        d,
        if attestors(atts, d).contains(node) {
            attestors(atts, d)
        } else {
            attestors(atts, d).push(node)
        },
    )
}

/// The stored parcels after the pending ones are taken up, the last first: those
/// whose originator is in `committee` are filed, the others dropped.
pub open spec fn promote_parcels<E>(
    m: Map<Seq<u8>, StoredParcel>,
    ps: Seq<Entry<(StoredParcel, E)>>,
    committee: Seq<NodeIndex>,
) -> Map<Seq<u8>, StoredParcel>
    decreases ps.len(),
{
    if ps.len() == 0 {
        m
    } else {
        let p = ps.last();
        promote_parcels(
            if committee.contains(p.value.0.originator) {
                m.insert(p.digest@, p.value.0)
            } else {
                m
            },
            ps.drop_last(),
            committee,
        )
    }
}

/// The events of the pending parcels whose originator is not in `committee`,
/// the last first.
pub open spec fn rejected_parcels<E>(
    ps: Seq<Entry<(StoredParcel, E)>>,
    committee: Seq<NodeIndex>,
) -> Seq<E>
    decreases ps.len(),
{
    if ps.len() == 0 {
        seq![]
    } else {
        let p = ps.last();
        (if committee.contains(p.value.0.originator) {
            seq![]
        } else {
            seq![p.value.1]
        }) + rejected_parcels(ps.drop_last(), committee)
    }
}

/// The attestations after the pending ones are taken up, the last first: those
/// of a node in `committee` are recorded, the others dropped.
pub open spec fn promote_attestations<E>(
    m: Map<Seq<u8>, Seq<NodeIndex>>,
    ps: Seq<(Digest, NodeIndex, E)>,
    committee: Seq<NodeIndex>,
) -> Map<Seq<u8>, Seq<NodeIndex>>
    decreases ps.len(),
{
    if ps.len() == 0 {
        m
    } else {
        let p = ps.last();
        promote_attestations(
            if committee.contains(p.1) {
                add_attestor(m, p.0@, p.1)
            } else {
                m
            },
            ps.drop_last(),
            committee,
        )
    }
}

/// The events of the pending attestations of nodes outside `committee`, the
/// last first.
pub open spec fn rejected_attestations<E>(
    ps: Seq<(Digest, NodeIndex, E)>,
    committee: Seq<NodeIndex>,
) -> Seq<E>
    decreases ps.len(),
{
    if ps.len() == 0 {
        seq![]
    } else {
        let p = ps.last();
        (if committee.contains(p.1) {
            seq![]
        } else {
            seq![p.2]
        }) + rejected_attestations(ps.drop_last(), committee)
    }
}

/// `pend` with `d` added at its end, where it is not there yet.
pub open spec fn add_pending(pend: Seq<Seq<u8>>, d: Seq<u8>) -> Seq<Seq<u8>> {
    if pend.contains(d) {
        pend
    } else {
        pend.push(d)
    }
}

/// Retrying the pending digests `pend` in order, from `head`, with the digests
/// `executed` already handed out: a digest already handed out is dropped; one
/// whose walk closes is executed, and the head moves to it; the others stay
/// pending. Gives the digests executed (oldest first within each chain), the
/// digests handed out after, the head after, the digests still pending, and
/// the number of chains executed.
pub open spec fn retry_spec(
    parcels: Map<Seq<u8>, StoredParcel>,
    atts: Map<Seq<u8>, Seq<NodeIndex>>,
    committee: Seq<NodeIndex>,
    executed: Set<Seq<u8>>,
    pend: Seq<Seq<u8>>,
    head: Seq<u8>,
    fuel: nat,
) -> (Seq<Seq<u8>>, Set<Seq<u8>>, Seq<u8>, Seq<Seq<u8>>, nat)
    decreases pend.len(),
{
    if pend.len() == 0 {
        (seq![], executed, head, seq![], 0)
    } else {
        let d = pend[0];
        if executed.contains(d) {
            retry_spec(parcels, atts, committee, executed, pend.drop_first(), head, fuel)
        } else {
            match walk(parcels, atts, committee, d, head, fuel) {
                Walk::Chain(c) => {
                    let r = retry_spec(
                        parcels,
                        atts,
                        committee,
                        executed + c.to_set(),
                        pend.drop_first(),
                        c.last(),
                        fuel,
                    );
                    (c + r.0, r.1, r.2, r.3, r.4 + 1)
                },
                _ => {
                    let r = retry_spec(parcels, atts, committee, executed, pend.drop_first(), head, fuel);
                    (r.0, r.1, r.2, seq![d] + r.3, r.4)
                },
            }
        }
    }
}

/// The retry after `acc`: its results appended to those gathered so far.
pub open spec fn after_retry(
    acc: (Seq<Seq<u8>>, Seq<Seq<u8>>, nat),
    r: (Seq<Seq<u8>>, Set<Seq<u8>>, Seq<u8>, Seq<Seq<u8>>, nat),
) -> (Seq<Seq<u8>>, Set<Seq<u8>>, Seq<u8>, Seq<Seq<u8>>, nat) {
    (acc.0 + r.0, r.1, r.2, acc.1 + r.3, acc.2 + r.4)
}

/// `w` with `later` appended to its chain.
pub open spec fn extend(w: Walk, later: Seq<Seq<u8>>) -> Walk {
    match w {
        Walk::Chain(s) => Walk::Chain(s + later),
        _ => w,
    }
}

/// The walk from the parcel with digest `d` back to `head`, over at most `fuel`
/// parcels; with as many steps as there are stored parcels, a walk that takes
/// them all and still stands on a stored parcel has gone round a loop. Each parcel on the way must be stored and attested by a quorum of
/// `committee`; the walk ends at the parcel whose back-pointer is `head`.
pub open spec fn walk(
    parcels: Map<Seq<u8>, StoredParcel>,
    atts: Map<Seq<u8>, Seq<NodeIndex>>,
    committee: Seq<NodeIndex>,
    d: Seq<u8>,
    head: Seq<u8>,
    fuel: nat,
) -> Walk
    decreases fuel,
{
    if !parcels.contains_key(d) {
        Walk::MissingParcel(d)
    } else if fuel == 0 {
        Walk::Cycle(d)
    } else if count_members(attestors(atts, d), committee) < quorum(committee.len() as int) {
        Walk::MissingAttestations(d)
    } else if parcels[d].inner.last_executed@ == head {
        Walk::Chain(seq![d])
    } else {
        extend(
            walk(
                parcels,
                atts,
                committee,
                parcels[d].inner.last_executed@,
                head,
                (fuel - 1) as nat,
            ),
            seq![d],
        )
    }
}

/// A chain that may be executed on top of `head`: every parcel of it is stored
/// and attested by a quorum of `committee`, the first points back to `head`, and
/// each of the others to the one before it.
pub open spec fn executable_chain(
    parcels: Map<Seq<u8>, StoredParcel>,
    atts: Map<Seq<u8>, Seq<NodeIndex>>,
    committee: Seq<NodeIndex>,
    chain: Seq<Seq<u8>>,
    head: Seq<u8>,
) -> bool {
    &&& chain.len() > 0
    &&& forall|i: int|
        0 <= i < chain.len() ==> {
            &&& parcels.contains_key(#[trigger] chain[i])
            &&& count_members(attestors(atts, chain[i]), committee) >= quorum(
                committee.len() as int,
            )
        }
    &&& parcels[chain[0]].inner.last_executed@ == head
    &&& forall|i: int|
        0 < i < chain.len() ==> parcels[#[trigger] chain[i]].inner.last_executed@ == chain[i - 1]
}

/// A walk that closes yields an executable chain that ends at the parcel it
/// started from: no parcel is executed without a quorum on every link of the
/// chain that connects it to the head.
pub proof fn lemma_walk_executable(
    parcels: Map<Seq<u8>, StoredParcel>,
    atts: Map<Seq<u8>, Seq<NodeIndex>>,
    committee: Seq<NodeIndex>,
    d: Seq<u8>,
    head: Seq<u8>,
    fuel: nat,
)
    ensures
        walk(parcels, atts, committee, d, head, fuel) is Chain ==> {
            let chain = walk(parcels, atts, committee, d, head, fuel)->Chain_0;
            &&& executable_chain(parcels, atts, committee, chain, head)
            &&& chain.last() == d
        },
    decreases fuel,
{
    if fuel > 0 && parcels.contains_key(d) && count_members(attestors(atts, d), committee)
        >= quorum(committee.len() as int) && parcels[d].inner.last_executed@ != head {
        let prev = parcels[d].inner.last_executed@;
        lemma_walk_executable(parcels, atts, committee, prev, head, (fuel - 1) as nat);
        let w = walk(parcels, atts, committee, prev, head, (fuel - 1) as nat);
        if w is Chain {
            let s = w->Chain_0;
            let chain = s + seq![d];
            assert(chain[0] == s[0]);
            assert forall|i: int| 0 < i < chain.len() implies parcels[#[trigger] chain[i]].inner.last_executed@
                == chain[i - 1] by {
                if i < s.len() {
                    assert(chain[i] == s[i]);
                }
            }
            assert forall|i: int| 0 <= i < chain.len() implies parcels.contains_key(
                #[trigger] chain[i],
            ) && count_members(attestors(atts, chain[i]), committee) >= quorum(
                committee.len() as int,
            ) by {
                if i < s.len() {
                    assert(chain[i] == s[i]);
                }
            }
        }
    }
}

/// A walk reports a parcel missing only where it is not stored.
pub proof fn lemma_walk_missing(
    parcels: Map<Seq<u8>, StoredParcel>,
    atts: Map<Seq<u8>, Seq<NodeIndex>>,
    committee: Seq<NodeIndex>,
    d: Seq<u8>,
    head: Seq<u8>,
    fuel: nat,
)
    ensures
        walk(parcels, atts, committee, d, head, fuel) is MissingParcel ==> !parcels.contains_key(
            walk(parcels, atts, committee, d, head, fuel)->MissingParcel_0,
        ),
    decreases fuel,
{
    if fuel > 0 && parcels.contains_key(d) && count_members(attestors(atts, d), committee)
        >= quorum(committee.len() as int) && parcels[d].inner.last_executed@ != head {
        lemma_walk_missing(parcels, atts, committee, parcels[d].inner.last_executed@, head, (fuel - 1) as nat);
    }
}

proof fn lemma_tbe_after_add(t: ParcelTimeoutData, now: u64, a: nat, b: nat)
    ensures
        tbe_after(t, now, a + b) == tbe_after(tbe_after(t, now, a), now, b),
    decreases a,
{
    if a > 0 {
        lemma_tbe_after_add(tbe_next(t, now), now, (a - 1) as nat, b);
        assert((a + b - 1) as nat == ((a - 1) as nat + b) as nat);
    }
}

proof fn lemma_extend_extend(w: Walk, a: Seq<Seq<u8>>, b: Seq<Seq<u8>>)
    ensures
        extend(extend(w, a), b) == extend(w, a + b),
{
    if let Walk::Chain(s) = w {
        assert(s + a + b =~= s + (a + b));
    }
}

/// A copy of a list of node indices.
pub fn clone_indices(v: &Vec<NodeIndex>) -> (r: Vec<NodeIndex>)
    ensures
        r@ == v@,
{
    let mut r: Vec<NodeIndex> = Vec::new();
    let mut i: usize = 0;
    while i < v.len()
        invariant
            0 <= i <= v@.len(),
            r@ == v@.subrange(0, i as int),
        decreases v@.len() - i,
    {
        r.push(v[i]);
        assert(r@ =~= v@.subrange(0, i + 1));
        i = i + 1;
    }
    assert(v@.subrange(0, v@.len() as int) =~= v@);
    r
}

/// Whether `x` occurs in `v`.
pub fn contains_index(v: &Vec<NodeIndex>, x: NodeIndex) -> (r: bool)
    ensures
        r == v@.contains(x),
{
    let mut i: usize = 0;
    while i < v.len()
        invariant
            0 <= i <= v@.len(),
            forall|j: int| 0 <= j < i ==> v@[j] != x,
        decreases v@.len() - i,
    {
        if v[i] == x {
            assert(v@[i as int] == x);
            return true;
        }
        i = i + 1;
    }
    false
}

/// Whether a parcel is of `epoch` or the one before.
pub open spec fn recent(p: StoredParcel, epoch: Epoch) -> bool {
    p.inner.epoch + 2 > epoch
}

/// The digests of a list of chain links.
pub open spec fn link_digests(links: Seq<ChainLink>) -> Seq<Seq<u8>> {
    Seq::new(links.len(), |i: int| links[i].digest@)
}

/// The in-memory replay buffer of parcels and attestations, indexed by parcel
/// digest, with the parcels and attestations of the next epoch held apart until
/// its committee is known.
pub struct TransactionStore<E> {
    parcels: Vec<Entry<StoredParcel>>,
    attestations: Vec<Entry<Vec<NodeIndex>>>,
    pending_parcels: Vec<Entry<(StoredParcel, E)>>,
    pending_attestations: Vec<(Digest, NodeIndex, E)>,
    executed: Vec<Digest>,
    /// Digests whose execution did not complete, retried after an execution.
    pending: Vec<Digest>,
    timeout_data: ParcelTimeoutData,
}

impl<E> TransactionStore<E> {
    pub closed spec fn wf(&self) -> bool {
        &&& unique_keys(self.parcels@)
        &&& unique_keys(self.attestations@)
        &&& forall|i: int|
            0 <= i < self.attestations@.len() ==> (#[trigger] self.attestations@[i]).value@.no_duplicates()
    }

    /// The stored parcels, by digest.
    pub closed spec fn parcels_view(&self) -> Map<Seq<u8>, StoredParcel> {
        keyed_map(self.parcels@)
    }

    /// How many parcels are stored; a walk visits at most that many.
    pub closed spec fn parcel_count(&self) -> nat {
        self.parcels@.len()
    }

    /// The nodes that attested each digest, each node once.
    pub closed spec fn attestations_view(&self) -> Map<Seq<u8>, Seq<NodeIndex>> {
        Map::new(
            |k: Seq<u8>| keyed_map(self.attestations@).contains_key(k),
            |k: Seq<u8>| keyed_map(self.attestations@)[k]@,
        )
    }

    /// Parcels of the next epoch, with digest, parcel and the gossip event that
    /// brought each.
    pub closed spec fn pending_parcels_view(&self) -> Seq<Entry<(StoredParcel, E)>> {
        self.pending_parcels@
    }

    /// Attestations of the next epoch, with the gossip event that brought each.
    pub closed spec fn pending_attestations_view(&self) -> Seq<(Digest, NodeIndex, E)> {
        self.pending_attestations@
    }

    /// Digests of the parcels that were handed out for execution.
    pub closed spec fn executed_view(&self) -> Set<Seq<u8>> {
        Set::new(|k: Seq<u8>| exists|i: int| 0 <= i < self.executed@.len() && #[trigger] self.executed@[i]@ == k)
    }

    /// Digests whose execution did not complete, oldest first.
    pub closed spec fn pending_view(&self) -> Seq<Seq<u8>> {
        Seq::new(self.pending@.len(), |i: int| self.pending@[i]@)
    }

    /// The estimate of the time between executions.
    pub closed spec fn timeout_data(&self) -> ParcelTimeoutData {
        self.timeout_data
    }

    pub fn new() -> (r: Self)
        ensures
            r.wf(),
            r.parcels_view() == Map::<Seq<u8>, StoredParcel>::empty(),
            r.attestations_view() == Map::<Seq<u8>, Seq<NodeIndex>>::empty(),
            r.pending_parcels_view().len() == 0,
            r.pending_attestations_view().len() == 0,
            r.executed_view() == Set::<Seq<u8>>::empty(),
            r.pending_view().len() == 0,
            r.timeout_data() == ParcelTimeoutData::new_spec(),
    {
        let r = TransactionStore {
            parcels: Vec::new(),
            attestations: Vec::new(),
            pending_parcels: Vec::new(),
            pending_attestations: Vec::new(),
            executed: Vec::new(),
            pending: Vec::new(),
            timeout_data: ParcelTimeoutData::new(),
        };
        assert(r.parcels_view() =~= Map::<Seq<u8>, StoredParcel>::empty());
        assert(r.attestations_view() =~= Map::<Seq<u8>, Seq<NodeIndex>>::empty());
        assert(r.executed_view() =~= Set::<Seq<u8>>::empty());
        r
    }

    /// Files a parcel under its digest, replacing one stored under the same digest.
    pub fn store_parcel(
        &mut self,
        parcel: AuthenticStampedParcel,
        originator: NodeIndex,
        message_digest: Option<Digest>,
    )
        requires
            old(self).wf(),
        ensures
            final(self).wf(),
            final(self).parcels_view() == old(self).parcels_view().insert(
                parcel_digest_of(parcel.transactions.deep_view(), parcel.last_executed@),
                StoredParcel { inner: parcel, originator, message_digest },
            ),
            final(self).attestations_view() == old(self).attestations_view(),
            final(self).pending_parcels_view() == old(self).pending_parcels_view(),
            final(self).pending_attestations_view() == old(self).pending_attestations_view(),
            final(self).executed_view() == old(self).executed_view(),
            final(self).timeout_data() == old(self).timeout_data(),
            final(self).pending_view() == old(self).pending_view(),
    {
        let digest = parcel.to_digest();
        self.insert_parcel(digest, StoredParcel { inner: parcel, originator, message_digest });
    }

    fn insert_parcel(&mut self, digest: Digest, parcel: StoredParcel)
        requires
            old(self).wf(),
        ensures
            final(self).wf(),
            final(self).parcels_view() == old(self).parcels_view().insert(digest@, parcel),
            final(self).attestations == old(self).attestations,
            final(self).pending_parcels == old(self).pending_parcels,
            final(self).pending_attestations == old(self).pending_attestations,
            final(self).executed == old(self).executed,
            final(self).pending == old(self).pending,
            final(self).timeout_data == old(self).timeout_data,
    {
        let entry = Entry { digest, value: parcel };
        match find_entry(&self.parcels, &digest) {
            Some(i) => {
                proof {
                    lemma_keyed_update(self.parcels@, i as int, entry);
                }
                self.parcels[i] = entry;
            },
            None => {
                proof {
                    lemma_keyed_push(self.parcels@, entry);
                }
                self.parcels.push(entry);
            },
        }
    }

    /// Drops the parcels of epochs two or more behind `epoch`.
    pub fn prune(&mut self, epoch: Epoch)
        requires
            old(self).wf(),
        ensures
            final(self).wf(),
            final(self).parcels_view() == Map::new(
                |k: Seq<u8>|
                    old(self).parcels_view().contains_key(k) && recent(
                        old(self).parcels_view()[k],
                        epoch,
                    ),
                |k: Seq<u8>| old(self).parcels_view()[k],
            ),
            final(self).attestations_view() == old(self).attestations_view(),
            final(self).pending_parcels_view() == old(self).pending_parcels_view(),
            final(self).pending_attestations_view() == old(self).pending_attestations_view(),
            final(self).executed_view() == old(self).executed_view(),
            final(self).timeout_data() == old(self).timeout_data(),
            final(self).pending_view() == old(self).pending_view(),
    {
        let ghost all = self.parcels@;
        let ghost mut origin: Seq<int> = seq![];
        let mut kept: Vec<Entry<StoredParcel>> = Vec::new();
        while self.parcels.len() > 0
            invariant
                unique_keys(all),
                self.parcels@ == all.subrange(0, self.parcels@.len() as int),
                self.parcels@.len() <= all.len(),
                self.attestations == old(self).attestations,
                self.pending_parcels == old(self).pending_parcels,
                self.pending_attestations == old(self).pending_attestations,
                self.executed == old(self).executed,
                self.pending == old(self).pending,
                self.timeout_data == old(self).timeout_data,
                all == old(self).parcels@,
                origin.len() == kept@.len(),
                forall|a: int|
                    0 <= a < kept@.len() ==> self.parcels@.len() <= #[trigger] origin[a] < all.len()
                        && kept@[a] == all[origin[a]] && recent(all[origin[a]].value, epoch),
                forall|a: int, b: int| 0 <= a < b < kept@.len() ==> #[trigger] origin[a] > #[trigger] origin[b],
                forall|j: int|
                    self.parcels@.len() <= j < all.len() && recent(#[trigger] all[j].value, epoch)
                        ==> exists|a: int| 0 <= a < kept@.len() && origin[a] == j,
            decreases self.parcels@.len(),
        {
            let ghost m = self.parcels@.len() as int;
            let ghost old_origin = origin;
            let ghost old_len = kept@.len();
            assert(forall|j: int|
                m <= j < all.len() && recent(#[trigger] all[j].value, epoch)
                    ==> exists|a: int| 0 <= a < old_len && old_origin[a] == j);
            let e = self.parcels.pop().unwrap();
            assert(e == all[m - 1]);
            assert(self.parcels@ =~= all.subrange(0, m - 1));
            if e.value.inner.epoch >= epoch || epoch - e.value.inner.epoch < 2 {
                proof {
                    origin = origin.push(m - 1);
                }
                kept.push(e);
                assert(kept@[kept@.len() - 1] == all[m - 1]);
                assert forall|j: int|
                    self.parcels@.len() <= j < all.len() && recent(#[trigger] all[j].value, epoch)
                        implies exists|a: int| 0 <= a < kept@.len() && origin[a] == j by {
                    if j == m - 1 {
                        assert(origin[kept@.len() - 1] == j);
                    } else {
                        let a = choose|a: int| 0 <= a < old_len && old_origin[a] == j;
                        assert(origin[a] == j);
                    }
                }
            } else {
                assert forall|j: int|
                    self.parcels@.len() <= j < all.len() && recent(#[trigger] all[j].value, epoch)
                        implies exists|a: int| 0 <= a < kept@.len() && origin[a] == j by {
                    assert(j != m - 1);
                    let a = choose|a: int| 0 <= a < old_len && old_origin[a] == j;
                    assert(origin[a] == j);
                }
            }
        }
        assert forall|a: int, b: int|
            0 <= a < kept@.len() && 0 <= b < kept@.len() && #[trigger] kept@[a].digest@
                == #[trigger] kept@[b].digest@ implies a == b by {
            assert(all[origin[a]].digest@ == all[origin[b]].digest@);
            if a < b {
                assert(origin[a] > origin[b]);
            } else if b < a {
                assert(origin[b] > origin[a]);
            }
        }
        let ghost target = Map::new(
            |k: Seq<u8>| keyed_map(all).contains_key(k) && recent(keyed_map(all)[k], epoch),
            |k: Seq<u8>| keyed_map(all)[k],
        );
        assert forall|k: Seq<u8>| #[trigger] has_key(kept@, k) == target.contains_key(k) by {
            if has_key(kept@, k) {
                let a = choose|a: int| 0 <= a < kept@.len() && #[trigger] kept@[a].digest@ == k;
                lemma_keyed_lookup(all, origin[a]);
            }
            if target.contains_key(k) {
                let j = choose|j: int| 0 <= j < all.len() && #[trigger] all[j].digest@ == k;
                lemma_keyed_lookup(all, j);
                let a = choose|a: int| 0 <= a < kept@.len() && origin[a] == j;
                assert(kept@[a].digest@ == k);
            }
        }
        assert forall|k: Seq<u8>| #[trigger] keyed_map(kept@).contains_key(k) implies keyed_map(kept@)[k]
            == target[k] by {
            let a = choose|a: int| 0 <= a < kept@.len() && #[trigger] kept@[a].digest@ == k;
            lemma_keyed_lookup(kept@, a);
            lemma_keyed_lookup(all, origin[a]);
        }
        assert(keyed_map(kept@) =~= target);
        self.parcels = kept;
    }

    /// Holds a parcel of the next epoch, with the gossip event that brought it,
    /// until that epoch's committee is known.
    pub fn store_pending_parcel(
        &mut self,
        parcel: AuthenticStampedParcel,
        originator: NodeIndex,
        message_digest: Option<Digest>,
        event: E,
    )
        requires
            old(self).wf(),
        ensures
            final(self).wf(),
            final(self).pending_parcels_view().len() == old(self).pending_parcels_view().len() + 1,
            final(self).pending_parcels_view().drop_last() == old(self).pending_parcels_view(),
            final(self).pending_parcels_view().last().digest@ == parcel_digest_of(
                parcel.transactions.deep_view(),
                parcel.last_executed@,
            ),
            final(self).pending_parcels_view().last().value == (
                StoredParcel { inner: parcel, originator, message_digest },
                event,
            ),
            final(self).parcels_view() == old(self).parcels_view(),
            final(self).attestations_view() == old(self).attestations_view(),
            final(self).pending_attestations_view() == old(self).pending_attestations_view(),
            final(self).executed_view() == old(self).executed_view(),
            final(self).timeout_data() == old(self).timeout_data(),
            final(self).pending_view() == old(self).pending_view(),
    {
        let digest = parcel.to_digest();
        self.pending_parcels.push(
            Entry { digest, value: (StoredParcel { inner: parcel, originator, message_digest }, event) },
        );
        assert(self.pending_parcels@.drop_last() =~= old(self).pending_parcels@);
    }

    /// Records that `node_index` attested the parcel with `digest`.
    pub fn store_attestation(&mut self, digest: Digest, node_index: NodeIndex)
        requires
            old(self).wf(),
        ensures
            final(self).wf(),
            final(self).attestations_view() == add_attestor(
                old(self).attestations_view(),
                digest@,
                node_index,
            ),
            final(self).parcels_view() == old(self).parcels_view(),
            final(self).pending_parcels_view() == old(self).pending_parcels_view(),
            final(self).pending_attestations_view() == old(self).pending_attestations_view(),
            final(self).executed_view() == old(self).executed_view(),
            final(self).timeout_data() == old(self).timeout_data(),
            final(self).pending_view() == old(self).pending_view(),
    {
        let ghost old_atts = self.attestations_view();
        match find_entry(&self.attestations, &digest) {
            Some(i) => {
                let mut nodes = clone_indices(&self.attestations[i].value);
                proof {
                    assert(self.attestations@[i as int].value@.no_duplicates());
                }
                if !contains_index(&nodes, node_index) {
                    nodes.push(node_index);
                }
                let entry = Entry { digest, value: nodes };
                proof {
                    lemma_keyed_update(self.attestations@, i as int, entry);
                }
                self.attestations[i] = entry;
            },
            None => {
                let mut nodes: Vec<NodeIndex> = Vec::new();
                nodes.push(node_index);
                let entry = Entry { digest, value: nodes };
                proof {
                    lemma_keyed_push(self.attestations@, entry);
                    assert(!old_atts.contains_key(digest@));
                    assert(nodes@ =~= seq![].push(node_index));
                }
                self.attestations.push(entry);
            },
        }
        assert forall|k: int| 0 <= k < self.attestations@.len() implies (
        #[trigger] self.attestations@[k]).value@.no_duplicates() by {
            if k < old(self).attestations@.len() {
                assert(old(self).attestations@[k].value@.no_duplicates());
            }
        }
        assert(self.attestations_view() =~= add_attestor(old_atts, digest@, node_index));
    }

    /// Adds `d` to the pending digests, where it is not there yet.
    fn push_pending(&mut self, d: Digest)
        requires
            old(self).wf(),
        ensures
            final(self).wf(),
            final(self).pending_view() == add_pending(old(self).pending_view(), d@),
            final(self).parcels == old(self).parcels,
            final(self).attestations == old(self).attestations,
            final(self).pending_parcels == old(self).pending_parcels,
            final(self).pending_attestations == old(self).pending_attestations,
            final(self).executed == old(self).executed,
            final(self).timeout_data == old(self).timeout_data,
    {
        let ghost pv = self.pending_view();
        let mut i: usize = 0;
        while i < self.pending.len()
            invariant
                0 <= i <= self.pending@.len(),
                *self == *old(self),
                old(self).wf(),
                pv == self.pending_view(),
                forall|j: int| 0 <= j < i ==> self.pending@[j]@ != d@,
            decreases self.pending@.len() - i,
        {
            if digest_eq(&self.pending[i], &d) {
                assert(pv[i as int] == d@);
                return;
            }
            i = i + 1;
        }
        assert(!pv.contains(d@)) by {
            if pv.contains(d@) {
                let j = choose|j: int| 0 <= j < pv.len() && pv[j] == d@;
                assert(self.pending@[j]@ == d@);
            }
        }
        self.pending.push(d);
        assert(self.pending_view() =~= pv.push(d@));
    }

    /// Tries to execute the parcel with `digest`, as `try_execute` does, and
    /// keeps it pending where that does not complete. Unless its chain breaks
    /// at a missing parcel, the pending digests are then retried in order, each
    /// from the head left by the chains executed before it; those executed
    /// leave the pending list. Every chain executed counts as one execution at
    /// time `now` for the timeout estimate.
    #[verifier::spinoff_prover]
    #[verifier::rlimit(100)]
    pub fn try_execute_all(
        &mut self,
        digest: &Digest,
        head: &Digest,
        committee: &Vec<NodeIndex>,
        now: u64,
    ) -> (r: Result<Vec<ChainLink>, NotExecuted>)
        requires
            old(self).wf(),
        ensures
            final(self).wf(),
            final(self).parcels_view() == old(self).parcels_view(),
            final(self).attestations_view() == old(self).attestations_view(),
            final(self).pending_parcels_view() == old(self).pending_parcels_view(),
            final(self).pending_attestations_view() == old(self).pending_attestations_view(),
            ({
                let parcels = old(self).parcels_view();
                let atts = old(self).attestations_view();
                let fuel = old(self).parcel_count();
                let done = old(self).executed_view().contains(digest@);
                let w = walk(parcels, atts, committee@, digest@, head@, fuel);
                if !done && w is MissingParcel {
                    &&& r is Err
                    &&& r->Err_0 is MissingParcel
                    &&& r->Err_0->MissingParcel_digest@ == w->MissingParcel_0
                    &&& !parcels.contains_key(w->MissingParcel_0)
                    &&& r->Err_0->MissingParcel_timeout == timeout_of(
                        old(self).timeout_data().estimated_tbe,
                        old(self).timeout_data().deviation_tbe,
                    )
                    &&& final(self).pending_view() == add_pending(old(self).pending_view(), digest@)
                    &&& final(self).executed_view() == old(self).executed_view()
                    &&& final(self).timeout_data() == old(self).timeout_data()
                } else {
                    let first: (Seq<Seq<u8>>, Set<Seq<u8>>, Seq<u8>, nat) = if !done && w is Chain {
                        (w->Chain_0, old(self).executed_view() + w->Chain_0.to_set(), w->Chain_0.last(), 1nat)
                    } else {
                        (seq![], old(self).executed_view(), head@, 0nat)
                    };
                    let pend = if !done && w is MissingAttestations {
                        add_pending(old(self).pending_view(), digest@)
                    } else {
                        old(self).pending_view()
                    };
                    let rr = retry_spec(parcels, atts, committee@, first.1, pend, first.2, fuel);
                    &&& r is Ok
                    &&& link_digests(r->Ok_0@) == first.0 + rr.0
                    &&& forall|i: int|
                        0 <= i < r->Ok_0@.len() ==> {
                            &&& parcels.contains_key((#[trigger] r->Ok_0@[i]).digest@)
                            &&& r->Ok_0@[i].transactions.deep_view()
                                == parcels[r->Ok_0@[i].digest@].inner.transactions.deep_view()
                            &&& r->Ok_0@[i].sub_dag_index == parcels[r->Ok_0@[i].digest@].inner.sub_dag_index
                        }
                    &&& final(self).executed_view() == rr.1
                    &&& final(self).pending_view() == rr.3
                    &&& final(self).timeout_data() == tbe_after(old(self).timeout_data(), now, first.3 + rr.4)
                }
            }),
    {
        let ghost parcels = self.parcels_view();
        let ghost atts = self.attestations_view();
        let ghost fuel = self.parcel_count();
        let ghost e0 = self.executed_view();
        let ghost t0 = self.timeout_data();
        let ghost done = e0.contains(digest@);
        let ghost w = walk(parcels, atts, committee@, digest@, head@, fuel);
        proof {
            lemma_walk_executable(parcels, atts, committee@, digest@, head@, fuel);
        }
        let mut links: Vec<ChainLink>;
        let mut h: Digest = *head;
        let ghost mut n: nat = 0;
        match self.try_execute(digest, head, committee, now) {
            Err(NotExecuted::MissingParcel { digest: d, timeout }) => {
                self.push_pending(*digest);
                return Err(NotExecuted::MissingParcel { digest: d, timeout });
            },
            Err(NotExecuted::MissingAttestations(_)) => {
                self.push_pending(*digest);
                links = Vec::new();
                assert(link_digests(links@) =~= Seq::<Seq<u8>>::empty());
            },
            Err(NotExecuted::Cycle(_)) => {
                links = Vec::new();
                assert(link_digests(links@) =~= Seq::<Seq<u8>>::empty());
            },
            Ok(l) => {
                links = l;
                if links.len() > 0 {
                    h = links[links.len() - 1].digest;
                    proof {
                        n = 1;
                        assert(link_digests(links@).last() == h@);
                        assert(tbe_after(tbe_next(t0, now), now, 0) == tbe_next(t0, now));
                        assert(tbe_after(t0, now, 1) == tbe_next(t0, now));
                    }
                } else {
                    assert(link_digests(links@) =~= Seq::<Seq<u8>>::empty());
                }
            },
        }
        let ghost first: (Seq<Seq<u8>>, Set<Seq<u8>>, Seq<u8>, nat) = if !done && w is Chain {
            (w->Chain_0, e0 + w->Chain_0.to_set(), w->Chain_0.last(), 1nat)
        } else {
            (seq![], e0, head@, 0nat)
        };
        let ghost pend = self.pending_view();
        let ghost total = retry_spec(parcels, atts, committee@, first.1, pend, first.2, fuel);
        let mut snapshot: Vec<Digest> = Vec::new();
        core::mem::swap(&mut snapshot, &mut self.pending);
        assert(self.pending_view() =~= Seq::<Seq<u8>>::empty());
        let ghost chain0 = link_digests(links@);
        let ghost mut acc_n: nat = 0;
        let mut i: usize = 0;
        proof {
            assert(Seq::new(snapshot@.len(), |k: int| snapshot@[k]@) =~= pend);
            assert(pend.skip(0) =~= pend);
            assert(chain0 + Seq::<Seq<u8>>::empty() =~= chain0);
        }
        while i < snapshot.len()
            invariant
                0 <= i <= snapshot@.len(),
                self.wf(),
                pend == Seq::new(snapshot@.len(), |k: int| snapshot@[k]@),
                self.parcels_view() == parcels,
                self.attestations_view() == atts,
                self.parcel_count() == fuel,
                self.pending_parcels_view() == old(self).pending_parcels_view(),
                self.pending_attestations_view() == old(self).pending_attestations_view(),
                first.3 == n,
                chain0 == first.0,
                total == after_retry(
                    (link_digests(links@).subrange(chain0.len() as int, link_digests(links@).len() as int), self.pending_view(), acc_n),
                    retry_spec(parcels, atts, committee@, self.executed_view(), pend.skip(i as int), h@, fuel),
                ),
                link_digests(links@).subrange(0, chain0.len() as int) == chain0,
                chain0.len() <= links@.len(),
                self.timeout_data() == tbe_after(t0, now, n + acc_n),
                forall|k: int|
                    0 <= k < links@.len() ==> {
                        &&& parcels.contains_key((#[trigger] links@[k]).digest@)
                        &&& links@[k].transactions.deep_view()
                            == parcels[links@[k].digest@].inner.transactions.deep_view()
                        &&& links@[k].sub_dag_index == parcels[links@[k].digest@].inner.sub_dag_index
                    },
            decreases snapshot@.len() - i,
        {
            let d = snapshot[i];
            assert(pend.skip(i as int)[0] == d@);
            assert(pend.skip(i as int).drop_first() =~= pend.skip(i + 1));
            if self.is_executed(&d) {
                i = i + 1;
                continue;
            }
            proof {
                lemma_walk_executable(parcels, atts, committee@, d@, h@, fuel);
            }
            let ghost e_before = self.executed_view();
            let ghost p_before = self.pending_view();
            let ghost t_before = self.timeout_data();
            let ghost lk_before = links@;
            match self.try_execute(&d, &h, committee, now) {
                Ok(more) => {
                    let ghost c = link_digests(more@);
                    let ghost more_v = more@;
                    assert(c.len() > 0);
                    let nh = more[more.len() - 1].digest;
                    assert(c.last() == nh@);
                    let mut more = more;
                    links.append(&mut more);
                    assert(link_digests(links@) =~= link_digests(lk_before) + c);
                    assert(link_digests(links@).subrange(0, chain0.len() as int) =~= link_digests(lk_before).subrange(0, chain0.len() as int));
                    assert(link_digests(links@).subrange(chain0.len() as int, link_digests(links@).len() as int)
                        =~= link_digests(lk_before).subrange(chain0.len() as int, link_digests(lk_before).len() as int) + c);
                    assert forall|k: int|
                        0 <= k < links@.len() implies {
                            &&& parcels.contains_key((#[trigger] links@[k]).digest@)
                            &&& links@[k].transactions.deep_view()
                                == parcels[links@[k].digest@].inner.transactions.deep_view()
                            &&& links@[k].sub_dag_index == parcels[links@[k].digest@].inner.sub_dag_index
                        } by {
                        if k >= lk_before.len() {
                            assert(links@[k] == more_v[k - lk_before.len()]);
                        }
                    }
                    h = nh;
                    proof {
                        let rest = retry_spec(parcels, atts, committee@, self.executed_view(), pend.skip(i + 1), h@, fuel);
                        let acc0 = link_digests(lk_before).subrange(chain0.len() as int, link_digests(lk_before).len() as int);
                        assert(acc0 + (c + rest.0) =~= (acc0 + c) + rest.0);
                        let x = tbe_after(t0, now, n + acc_n);
                        assert(tbe_after(t0, now, n + acc_n + 1) == tbe_after(x, now, 1)) by {
                            lemma_tbe_after_add(t0, now, n + acc_n, 1);
                        }
                        assert(tbe_after(tbe_next(x, now), now, 0) == tbe_next(x, now));
                        assert(tbe_after(x, now, 1) == tbe_next(x, now));
                        acc_n = acc_n + 1;
                    }
                },
                Err(_) => {
                    self.pending.push(d);
                    proof {
                        assert(self.pending_view() =~= p_before.push(d@));
                        let rest = retry_spec(parcels, atts, committee@, self.executed_view(), pend.skip(i + 1), h@, fuel);
                        assert(p_before + (seq![d@] + rest.3) =~= p_before.push(d@) + rest.3);
                    }
                },
            }
            i = i + 1;
        }
        proof {
            assert(pend.skip(i as int) =~= Seq::<Seq<u8>>::empty());
            assert(link_digests(links@) =~= chain0 + link_digests(links@).subrange(chain0.len() as int, link_digests(links@).len() as int));
        }
        Ok(links)
    }

    /// Takes up what was held for the epoch that has now begun: parcels and
    /// attestations from members of its `committee` are stored as usual, the rest
    /// are dropped and the gossip events that brought them are returned, so that
    /// their senders can be reported.
    pub fn change_epoch(&mut self, committee: &Vec<NodeIndex>) -> (r: Vec<E>)
        requires
            old(self).wf(),
        ensures
            final(self).wf(),
            final(self).parcels_view() == promote_parcels(
                old(self).parcels_view(),
                old(self).pending_parcels_view(),
                committee@,
            ),
            final(self).attestations_view() == promote_attestations(
                old(self).attestations_view(),
                old(self).pending_attestations_view(),
                committee@,
            ),
            final(self).pending_parcels_view().len() == 0,
            final(self).pending_attestations_view().len() == 0,
            r@ == rejected_parcels(old(self).pending_parcels_view(), committee@)
                + rejected_attestations(old(self).pending_attestations_view(), committee@),
            final(self).executed_view() == old(self).executed_view(),
            final(self).timeout_data() == old(self).timeout_data(),
            final(self).pending_view() == old(self).pending_view(),
    {
        let mut rejected: Vec<E> = Vec::new();
        let mut parcels_rejected: Vec<E> = Vec::new();
        while self.pending_parcels.len() > 0
            invariant
                self.wf(),
                promote_parcels(self.parcels_view(), self.pending_parcels_view(), committee@)
                    == promote_parcels(
                    old(self).parcels_view(),
                    old(self).pending_parcels_view(),
                    committee@,
                ),
                rejected_parcels(old(self).pending_parcels_view(), committee@) == rejected@
                    + rejected_parcels(self.pending_parcels_view(), committee@),
                self.attestations == old(self).attestations,
                self.pending_attestations == old(self).pending_attestations,
                self.executed == old(self).executed,
                self.pending == old(self).pending,
                self.timeout_data == old(self).timeout_data,
            decreases self.pending_parcels@.len(),
        {
            let ghost before = self.pending_parcels@;
            let ghost rej_before = rejected@;
            let entry = self.pending_parcels.pop().unwrap();
            assert(self.pending_parcels@ == before.drop_last());
            let Entry { digest, value: (parcel, event) } = entry;
            if contains_index(committee, parcel.originator) {
                self.insert_parcel(digest, parcel);
            } else {
                rejected.push(event);
                assert(rejected@ == rej_before + seq![before.last().value.1]);
            }
            assert(rejected_parcels(before, committee@) == (if committee@.contains(
                before.last().value.0.originator,
            ) {
                seq![]
            } else {
                seq![before.last().value.1]
            }) + rejected_parcels(before.drop_last(), committee@));
            assert(rej_before + ((if committee@.contains(before.last().value.0.originator) {
                seq![]
            } else {
                seq![before.last().value.1]
            }) + rejected_parcels(before.drop_last(), committee@)) =~= rejected@
                + rejected_parcels(before.drop_last(), committee@));
        }
        assert(rejected_parcels(self.pending_parcels_view(), committee@) == Seq::<E>::empty());
        assert(rejected@ =~= rejected_parcels(old(self).pending_parcels_view(), committee@));
        let ghost parcels_done = rejected@;
        while self.pending_attestations.len() > 0
            invariant
                self.wf(),
                self.parcels_view() == promote_parcels(
                    old(self).parcels_view(),
                    old(self).pending_parcels_view(),
                    committee@,
                ),
                self.pending_parcels_view().len() == 0,
                promote_attestations(
                    self.attestations_view(),
                    self.pending_attestations_view(),
                    committee@,
                ) == promote_attestations(
                    old(self).attestations_view(),
                    old(self).pending_attestations_view(),
                    committee@,
                ),
                rejected_attestations(old(self).pending_attestations_view(), committee@)
                    == parcels_rejected@ + rejected_attestations(
                    self.pending_attestations_view(),
                    committee@,
                ),
                self.executed_view() == old(self).executed_view(),
                self.timeout_data() == old(self).timeout_data(),
                self.pending_view() == old(self).pending_view(),
            decreases self.pending_attestations@.len(),
        {
            let ghost before = self.pending_attestations@;
            let ghost rej_before = parcels_rejected@;
            let (digest, node_index, event) = self.pending_attestations.pop().unwrap();
            assert(self.pending_attestations@ == before.drop_last());
            if contains_index(committee, node_index) {
                self.store_attestation(digest, node_index);
            } else {
                parcels_rejected.push(event);
            }
            assert(rej_before + ((if committee@.contains(before.last().1) {
                seq![]
            } else {
                seq![before.last().2]
            }) + rejected_attestations(before.drop_last(), committee@)) =~= parcels_rejected@
                + rejected_attestations(before.drop_last(), committee@));
        }
        assert(rejected_attestations(self.pending_attestations_view(), committee@)
            == Seq::<E>::empty());
        assert(parcels_rejected@ =~= rejected_attestations(
            old(self).pending_attestations_view(),
            committee@,
        ));
        rejected.append(&mut parcels_rejected);
        rejected
    }

    /// Holds an attestation of the next epoch, with the gossip event that brought
    /// it, until that epoch's committee is known.
    pub fn store_pending_attestation(&mut self, digest: Digest, node_index: NodeIndex, event: E)
        requires
            old(self).wf(),
        ensures
            final(self).wf(),
            final(self).pending_attestations_view() == old(self).pending_attestations_view().push(
                (digest, node_index, event),
            ),
            final(self).parcels_view() == old(self).parcels_view(),
            final(self).attestations_view() == old(self).attestations_view(),
            final(self).pending_parcels_view() == old(self).pending_parcels_view(),
            final(self).executed_view() == old(self).executed_view(),
            final(self).timeout_data() == old(self).timeout_data(),
            final(self).pending_view() == old(self).pending_view(),
    {
        self.pending_attestations.push((digest, node_index, event));
    }

    /// Whether a parcel is stored under `digest`.
    pub fn contains_parcel(&self, digest: &Digest) -> (r: bool)
        requires
            self.wf(),
        ensures
            r == self.parcels_view().contains_key(digest@),
    {
        find_entry(&self.parcels, digest).is_some()
    }

    /// The digest of the broadcast message that carried the parcel stored under
    /// `digest`, to repropagate it to a peer that asks for it.
    pub fn get_parcel_message_digest(&self, digest: &Digest) -> (r: Option<Digest>)
        requires
            self.wf(),
        ensures
            r == (if self.parcels_view().contains_key(digest@) {
                self.parcels_view()[digest@].message_digest
            } else {
                None
            }),
    {
        match find_entry(&self.parcels, digest) {
            Some(i) => self.parcels[i].value.message_digest,
            None => None,
        }
    }

    /// How many members of `committee` attested the parcel with `digest`.
    pub fn count_attestors(&self, digest: &Digest, committee: &Vec<NodeIndex>) -> (r: usize)
        requires
            self.wf(),
        ensures
            r == count_members(attestors(self.attestations_view(), digest@), committee@),
    {
        match find_entry(&self.attestations, digest) {
            Some(i) => {
                let nodes = &self.attestations[i].value;
                let mut n: usize = 0;
                let mut j: usize = 0;
                while j < nodes.len()
                    invariant
                        0 <= j <= nodes@.len(),
                        n <= j,
                        n == count_members(nodes@.subrange(0, j as int), committee@),
                    decreases nodes@.len() - j,
                {
                    assert(nodes@.subrange(0, j + 1).drop_last() =~= nodes@.subrange(0, j as int));
                    if contains_index(committee, nodes[j]) {
                        n = n + 1;
                    }
                    j = j + 1;
                }
                assert(nodes@.subrange(0, nodes@.len() as int) =~= nodes@);
                n
            },
            None => 0,
        }
    }

    /// Whether the parcel with `digest` was already handed out for execution.
    pub fn is_executed(&self, digest: &Digest) -> (r: bool)
        ensures
            r == self.executed_view().contains(digest@),
    {
        let mut i: usize = 0;
        while i < self.executed.len()
            invariant
                0 <= i <= self.executed@.len(),
                forall|j: int| 0 <= j < i ==> self.executed@[j]@ != digest@,
            decreases self.executed@.len() - i,
        {
            if digest_eq(&self.executed[i], digest) {
                return true;
            }
            i = i + 1;
        }
        false
    }

    /// The timeout after which a parcel that is still missing is requested.
    pub fn get_parcel_timeout(&self) -> (r: u64)
        ensures
            r == timeout_of(self.timeout_data().estimated_tbe, self.timeout_data().deviation_tbe),
    {
        self.timeout_data.get_parcel_timeout()
    }

    /// Marks the chain as executed at time `now`.
    fn finish_chain(&mut self, links: &Vec<ChainLink>, now: u64)
        requires
            old(self).wf(),
        ensures
            final(self).wf(),
            final(self).executed_view() == old(self).executed_view() + link_digests(links@).to_set(),
            tbe_updated(old(self).timeout_data, final(self).timeout_data, now),
            final(self).parcels == old(self).parcels,
            final(self).attestations == old(self).attestations,
            final(self).pending_parcels == old(self).pending_parcels,
            final(self).pending_attestations == old(self).pending_attestations,
            final(self).pending == old(self).pending,
    {
        let mut i: usize = 0;
        while i < links.len()
            invariant
                0 <= i <= links@.len(),
                self.wf(),
                self.executed_view() == old(self).executed_view() + link_digests(
                    links@.subrange(0, i as int),
                ).to_set(),
                self.parcels == old(self).parcels,
                self.attestations == old(self).attestations,
                self.pending_parcels == old(self).pending_parcels,
                self.pending_attestations == old(self).pending_attestations,
                self.pending == old(self).pending,
                self.timeout_data == old(self).timeout_data,
            decreases links@.len() - i,
        {
            let ghost before = self.executed_view();
            let ghost old_exec = self.executed@;
            let ghost x = links@[i as int].digest@;
            self.executed.push(links[i].digest);
            assert(self.executed@[old_exec.len() as int]@ == x);
            assert forall|k: Seq<u8>| #[trigger] self.executed_view().contains(k) == before.insert(
                x,
            ).contains(k) by {
                if before.contains(k) {
                    let j = choose|j: int| 0 <= j < old_exec.len() && #[trigger] old_exec[j]@ == k;
                    assert(self.executed@[j]@ == k);
                }
                if self.executed_view().contains(k) {
                    let j = choose|j: int|
                        0 <= j < self.executed@.len() && #[trigger] self.executed@[j]@ == k;
                    if j < old_exec.len() {
                        assert(old_exec[j]@ == k);
                    }
                }
            }
            assert(self.executed_view() =~= before.insert(x));
            assert(link_digests(links@.subrange(0, i + 1)) =~= link_digests(
                links@.subrange(0, i as int),
            ).push(x));
            proof {
                link_digests(links@.subrange(0, i as int)).lemma_push_to_set_commute(x);
            }
            i = i + 1;
        }
        assert(links@.subrange(0, links@.len() as int) =~= links@);
        self.timeout_data.update_estimated_tbe(now);
    }

    /// Looks for a chain from the parcel with `digest` back to the executed `head`,
    /// each parcel of it attested by a quorum of `committee`. Where one closes, its
    /// parcels are handed out oldest first and marked executed, and the time of
    /// execution `now` feeds the timeout estimate. A parcel already handed out
    /// gives an empty chain.
    pub fn try_execute(
        &mut self,
        digest: &Digest,
        head: &Digest,
        committee: &Vec<NodeIndex>,
        now: u64,
    ) -> (r: Result<Vec<ChainLink>, NotExecuted>)
        requires
            old(self).wf(),
        ensures
            final(self).wf(),
            final(self).parcels_view() == old(self).parcels_view(),
            final(self).attestations_view() == old(self).attestations_view(),
            final(self).pending_parcels_view() == old(self).pending_parcels_view(),
            final(self).pending_attestations_view() == old(self).pending_attestations_view(),
            final(self).pending_view() == old(self).pending_view(),
            final(self).parcel_count() == old(self).parcel_count(),
            old(self).executed_view().contains(digest@) ==> {
                &&& r is Ok
                &&& r->Ok_0@.len() == 0
                &&& final(self).executed_view() == old(self).executed_view()
                &&& final(self).timeout_data() == old(self).timeout_data()
            },
            !old(self).executed_view().contains(digest@) ==> match walk(
                old(self).parcels_view(),
                old(self).attestations_view(),
                committee@,
                digest@,
                head@,
                old(self).parcel_count(),
            ) {
                Walk::Chain(chain) => {
                    &&& r is Ok
                    &&& link_digests(r->Ok_0@) == chain
                    &&& forall|i: int|
                        0 <= i < chain.len() ==> {
                            &&& (#[trigger] r->Ok_0@[i]).transactions.deep_view()
                                == old(self).parcels_view()[chain[i]].inner.transactions.deep_view()
                            &&& r->Ok_0@[i].sub_dag_index
                                == old(self).parcels_view()[chain[i]].inner.sub_dag_index
                        }
                    &&& final(self).executed_view() == old(self).executed_view() + chain.to_set()
                    &&& tbe_updated(old(self).timeout_data(), final(self).timeout_data(), now)
                },
                Walk::MissingParcel(d) => {
                    &&& r is Err
                    &&& r->Err_0 is MissingParcel
                    &&& r->Err_0->MissingParcel_digest@ == d
                    &&& !old(self).parcels_view().contains_key(d)
                    &&& r->Err_0->MissingParcel_timeout == timeout_of(
                        old(self).timeout_data().estimated_tbe,
                        old(self).timeout_data().deviation_tbe,
                    )
                    &&& final(self).executed_view() == old(self).executed_view()
                    &&& final(self).timeout_data() == old(self).timeout_data()
                },
                Walk::MissingAttestations(d) => {
                    &&& r is Err
                    &&& r->Err_0 is MissingAttestations
                    &&& r->Err_0->MissingAttestations_0@ == d
                    &&& final(self).executed_view() == old(self).executed_view()
                    &&& final(self).timeout_data() == old(self).timeout_data()
                },
                Walk::Cycle(d) => {
                    &&& r is Err
                    &&& r->Err_0 is Cycle
                    &&& r->Err_0->Cycle_0@ == d
                    &&& old(self).parcels_view().contains_key(d)
                    &&& final(self).executed_view() == old(self).executed_view()
                    &&& final(self).timeout_data() == old(self).timeout_data()
                },
            },
    {
        if self.is_executed(digest) {
            return Ok(Vec::new());
        }
        proof {
            lemma_walk_missing(
                self.parcels_view(),
                self.attestations_view(),
                committee@,
                digest@,
                head@,
                self.parcel_count(),
            );
        }
        let threshold = quorum_threshold(committee.len());
        let ghost parcels = self.parcels_view();
        let ghost atts = self.attestations_view();
        let ghost total = self.parcel_count();
        let mut links: Vec<ChainLink> = Vec::new();
        let mut d: Digest = *digest;
        let mut fuel: usize = self.parcels.len();
        loop
            invariant
                *self == *old(self),
                !old(self).executed_view().contains(digest@),
                self.wf(),
                parcels == self.parcels_view(),
                atts == self.attestations_view(),
                total == self.parcel_count(),
                threshold == quorum(committee@.len() as int),
                walk(parcels, atts, committee@, digest@, head@, total) is MissingParcel ==> !parcels.contains_key(
                    walk(parcels, atts, committee@, digest@, head@, total)->MissingParcel_0,
                ),
                fuel <= total,
                walk(parcels, atts, committee@, digest@, head@, total) == extend(
                    walk(parcels, atts, committee@, d@, head@, fuel as nat),
                    link_digests(links@),
                ),
                forall|i: int|
                    0 <= i < links@.len() ==> {
                        &&& parcels.contains_key((#[trigger] links@[i]).digest@)
                        &&& links@[i].transactions.deep_view()
                            == parcels[links@[i].digest@].inner.transactions.deep_view()
                        &&& links@[i].sub_dag_index == parcels[links@[i].digest@].inner.sub_dag_index
                    },
            decreases fuel,
        {
            let i = match find_entry(&self.parcels, &d) {
                Some(i) => i,
                None => {
                    return Err(
                        NotExecuted::MissingParcel {
                            digest: d,
                            timeout: self.timeout_data.get_parcel_timeout(),
                        },
                    );
                },
            };
            if fuel == 0 {
                return Err(NotExecuted::Cycle(d));
            }
            if self.count_attestors(&d, committee) < threshold {
                return Err(NotExecuted::MissingAttestations(d));
            }
            let transactions = clone_batch(&self.parcels[i].value.inner.transactions);
            let last = self.parcels[i].value.inner.last_executed;
            let ghost old_links = links@;
            links.insert(
                0,
                ChainLink {
                    transactions,
                    sub_dag_index: self.parcels[i].value.inner.sub_dag_index,
                    digest: d,
                },
            );
            assert(link_digests(links@) =~= seq![d@] + link_digests(old_links));
            assert forall|k: int| 0 <= k < links@.len() implies {
                &&& parcels.contains_key((#[trigger] links@[k]).digest@)
                &&& links@[k].transactions.deep_view()
                    == parcels[links@[k].digest@].inner.transactions.deep_view()
                &&& links@[k].sub_dag_index == parcels[links@[k].digest@].inner.sub_dag_index
            } by {
                if k > 0 {
                    assert(links@[k] == old_links[k - 1]);
                }
            }
            proof {
                lemma_extend_extend(
                    walk(parcels, atts, committee@, last@, head@, (fuel - 1) as nat),
                    seq![d@],
                    link_digests(old_links),
                );
            }
            if digest_eq(&last, head) {
                assert(seq![d@] + link_digests(old_links) =~= link_digests(links@));
                self.finish_chain(&links, now);
                return Ok(links);
            }
            d = last;
            fuel = fuel - 1;
        }
    }
}

} // verus!
