use vstd::prelude::*;

use crate::codec::{decode_transaction, envelope, push_bytes, push_u128, push_u32, read_u64_be_at, tx_view};
use crate::ordering::{block_transactions, block_views, executed_flags, new_hashes};
use crate::digest::{blake3_hash, blake3_of, clone_bytes, digest_eq, push_digest, Digest};
use crate::parcel::{quorum, quorum_threshold, Epoch, NodeIndex};
use crate::state::{
    account_nonce,
    advance,
    after_signal,
    beacon_step,
    before,
    bump_nonce,
    candidates,
    change_epoch_outcome,
    boosts_of,
    committed_hash,
    credit,
    epoch_summary,
    indices_bytes,
    epoch_emissions,
    has_revealed,
    insert_sorted_spec,
    method_step,
    min_index,
    next_committee,
    next_epoch,
    next_node,
    next_service,
    next_supply,
    next_participation,
    node_index_of,
    opted_in,
    opted_out,
    prices_of,
    restart_round,
    reveal_seed,
    run,
    select,
    selectable,
    set_participation,
    reveals_match,
    rewards_paid,
    score,
    signed_successes,
    signer_index,
    sorted,
    step,
    timeout_step,
    view_wf,
    AppState,
    AppView,
    CommitteeRecord,
    CommitteeSelectionBeaconPhase,
    ExecutionError,
    NodeRecord,
    Score,
    Participation,
    any_change,
    next_block_number,
    run_block,
    BlockReceipt,
    TransactionReceipt,
    TransactionResponse,
    TransactionSender,
    UpdateMethod,
    UpdateRequest,
};
use crate::rewards::{
    advance_supply,
    distribute_rewards,
    node_revenue,
    percent,
    service_revenue,
    split,
    stake_boost,
    total_revenue,
    total_weight,
    weight,
    DeliveryAck,
    Rewards,
};
use crate::store::contains_index;

verus! {

proof fn lemma_insert_at(s: Seq<NodeIndex>, x: NodeIndex, p: int)
    requires
        0 <= p <= s.len(),
        forall|k: int| 0 <= k < p ==> !(x < #[trigger] s[k]),
        p < s.len() ==> x < s[p],
    ensures
        insert_sorted_spec(s, x) == s.subrange(0, p) + seq![x] + s.subrange(p, s.len() as int),
    decreases s.len(),
{
    if s.len() == 0 {
        assert(seq![x] =~= s.subrange(0, p) + seq![x] + s.subrange(p, s.len() as int));
    } else if x < s[0] {
        assert(p == 0);
        assert(seq![x] + s =~= s.subrange(0, p) + seq![x] + s.subrange(p, s.len() as int));
    } else {
        let t = s.drop_first();
        assert forall|k: int| 0 <= k < p - 1 implies !(x < #[trigger] t[k]) by {
            assert(t[k] == s[k + 1]);
        }
        lemma_insert_at(t, x, p - 1);
        assert(seq![s[0]] + (t.subrange(0, p - 1) + seq![x] + t.subrange(p - 1, t.len() as int))
            =~= s.subrange(0, p) + seq![x] + s.subrange(p, s.len() as int));
    }
}

/// Inserting into an increasing list keeps it increasing and adds the element.
pub proof fn lemma_insert_sorted(s: Seq<NodeIndex>, x: NodeIndex)
    requires
        sorted(s),
        !s.contains(x),
    ensures
        sorted(insert_sorted_spec(s, x)),
        insert_sorted_spec(s, x).to_set() == s.to_set().insert(x),
        insert_sorted_spec(s, x).len() == s.len() + 1,
    decreases s.len(),
{
    if s.len() > 0 && !(x < s[0]) {
        let t = s.drop_first();
        assert(!t.contains(x)) by {
            if t.contains(x) {
                let k = choose|k: int| 0 <= k < t.len() && t[k] == x;
                assert(s[k + 1] == x);
            }
        }
        lemma_insert_sorted(t, x);
        let u = insert_sorted_spec(t, x);
        assert(s[0] != x) by {
            assert(s[0] == s[0]);
            if s[0] == x {
                assert(s.contains(x));
            }
        }
        assert forall|k: int| 0 <= k < u.len() implies s[0] < #[trigger] u[k] by {
            assert(u.to_set().contains(u[k]));
            if u[k] != x {
                assert(t.to_set().contains(u[k]));
                let j = choose|j: int| 0 <= j < t.len() && t[j] == u[k];
                assert(s[j + 1] == u[k]);
            }
        }
        assert(seq![s[0]] + u =~= insert_sorted_spec(s, x));
        assert(t =~= s.subrange(1, s.len() as int));
        assert(s.to_set() =~= t.to_set().insert(s[0])) by {
            assert forall|y: NodeIndex| s.to_set().contains(y) == t.to_set().insert(s[0]).contains(y) by {
                if s.contains(y) {
                    let j = choose|j: int| 0 <= j < s.len() && s[j] == y;
                    if j > 0 {
                        assert(t[j - 1] == y);
                    }
                }
                if t.contains(y) {
                    let j = choose|j: int| 0 <= j < t.len() && t[j] == y;
                    assert(s[j + 1] == y);
                }
            }
        }
        let w = seq![s[0]] + u;
        assert(w.to_set() =~= u.to_set().insert(s[0])) by {
            assert forall|y: NodeIndex| w.to_set().contains(y) == u.to_set().insert(s[0]).contains(y) by {
                if w.contains(y) {
                    let j = choose|j: int| 0 <= j < w.len() && w[j] == y;
                    if j > 0 {
                        assert(u[j - 1] == y);
                    }
                }
                if u.contains(y) {
                    let j = choose|j: int| 0 <= j < u.len() && u[j] == y;
                    assert(w[j + 1] == y);
                }
                assert(w[0] == s[0]);
            }
        }
        assert(sorted(w)) by {
            assert forall|a: int, b: int| 0 <= a < b < w.len() implies w[a] < w[b] by {
                if a > 0 {
                    assert(w[a] == u[a - 1] && w[b] == u[b - 1]);
                } else {
                    assert(w[b] == u[b - 1]);
                }
            }
        }
    } else {
        let w = insert_sorted_spec(s, x);
        assert(w =~= seq![x] + s);
        assert(sorted(w)) by {
            assert forall|a: int, b: int| 0 <= a < b < w.len() implies w[a] < w[b] by {
                if a > 0 {
                    assert(w[a] == s[a - 1] && w[b] == s[b - 1]);
                } else {
                    assert(w[b] == s[b - 1]);
                }
            }
        }
        assert(w.to_set() =~= s.to_set().insert(x)) by {
            assert forall|y: NodeIndex| w.to_set().contains(y) == s.to_set().insert(x).contains(y) by {
                if w.contains(y) {
                    let j = choose|j: int| 0 <= j < w.len() && w[j] == y;
                    if j > 0 {
                        assert(s[j - 1] == y);
                    }
                }
                if s.contains(y) {
                    let j = choose|j: int| 0 <= j < s.len() && s[j] == y;
                    assert(w[j + 1] == y);
                }
                assert(w[0] == x);
            }
        }
    }
}

/// Inserts `x` into an increasing list at its place.
pub fn insert_sorted(v: &mut Vec<NodeIndex>, x: NodeIndex)
    ensures
        final(v)@ == insert_sorted_spec(old(v)@, x),
{
    let mut pos: usize = 0;
    while pos < v.len() && !(x < v[pos])
        invariant
            0 <= pos <= v@.len(),
            forall|k: int| 0 <= k < pos ==> !(x < #[trigger] v@[k]),
        decreases v@.len() - pos,
    {
        pos = pos + 1;
    }
    proof {
        lemma_insert_at(v@, x, pos as int);
    }
    let ghost before = v@;
    v.insert(pos, x);
    assert(v@ =~= before.subrange(0, pos as int) + seq![x] + before.subrange(
        pos as int,
        before.len() as int,
    ));
}

/// Node keys and nonces as they were, and the table as long.
pub open spec fn same_nodes(v: AppView, w: AppView) -> bool {
    &&& w.nodes.len() == v.nodes.len()
    &&& forall|j: int|
        0 <= j < v.nodes.len() ==> {
            &&& (#[trigger] w.nodes[j]).public_key == v.nodes[j].public_key
            &&& w.nodes[j].nonce == v.nodes[j].nonce
        }
}

/// A method keeps the state well formed, the node keys and the nonces.
pub proof fn lemma_method_wf(v: AppView, i: int, m: UpdateMethod)
    requires
        view_wf(v),
        0 <= i < v.nodes.len(),
    ensures
        method_step(v, i, m) is Ok ==> {
            let w = method_step(v, i, m)->Ok_0.0;
            &&& view_wf(w)
            &&& same_nodes(v, w)
        },
{
    if method_step(v, i, m) is Ok {
        let w = method_step(v, i, m)->Ok_0.0;
        match m {
            UpdateMethod::ChangeEpoch { epoch } => {
                if change_epoch_outcome(v, i, epoch) == Ok::<bool, ExecutionError>(true) {
                    let me = i as NodeIndex;
                    lemma_insert_sorted(v.ready, me);
                    let r = insert_sorted_spec(v.ready, me);
                    assert forall|k: int| 0 <= k < r.len() implies v.members.contains(#[trigger] r[k]) by {
                        assert(r.to_set().contains(r[k]));
                        if r[k] != me {
                            assert(v.ready.to_set().contains(r[k]));
                            let j = choose|j: int| 0 <= j < v.ready.len() && v.ready[j] == r[k];
                            assert(v.members.contains(v.ready[j]));
                        }
                    }
                }
            },
            UpdateMethod::OptIn => {
                assert(forall|j: int| 0 <= j < v.nodes.len() ==> #[trigger] w.nodes[j].public_key == v.nodes[j].public_key);
            },
            UpdateMethod::OptOut => {
                assert(forall|j: int| 0 <= j < v.nodes.len() ==> #[trigger] w.nodes[j].public_key == v.nodes[j].public_key);
            },
            _ => {
                assert(forall|j: int| 0 <= j < v.nodes.len() ==> #[trigger] w.nodes[j].public_key == v.nodes[j].public_key);
            },
        }
        assert forall|a: int, b: int|
            0 <= a < w.nodes.len() && 0 <= b < w.nodes.len() && #[trigger] w.nodes[a].public_key@
                == #[trigger] w.nodes[b].public_key@ implies a == b by {
            assert(v.nodes[a].public_key@ == v.nodes[b].public_key@);
        }
    }
}

/// A transaction keeps the state well formed.
pub proof fn lemma_step_wf(v: AppView, tx: UpdateRequest)
    requires
        view_wf(v),
    ensures
        view_wf(step(v, tx).0),
        same_nodes_but_signer(v, step(v, tx).0, tx),
{
    if let TransactionSender::Node(key) = tx.sender {
        if let Some(i) = node_index_of(v.nodes, key@) {
            let j = choose|j: int| 0 <= j < v.nodes.len() && #[trigger] v.nodes[j].public_key@ == key@;
            assert(0 <= i < v.nodes.len());
            lemma_method_wf(v, i, tx.method);
            if step(v, tx).1 == TransactionResponse::Success {
                let w = method_step(v, i, tx.method)->Ok_0.0;
                let x = bump_nonce(w, i, tx.secondary_nonce);
                assert forall|a: int, b: int|
                    0 <= a < x.nodes.len() && 0 <= b < x.nodes.len() && #[trigger] x.nodes[a].public_key@
                        == #[trigger] x.nodes[b].public_key@ implies a == b by {
                    assert(w.nodes[a].public_key@ == w.nodes[b].public_key@);
                }
            }
        }
    }
}

/// Every node's nonce is as it was, but the signer's after a success, which is one higher.
pub open spec fn same_nodes_but_signer(v: AppView, w: AppView, tx: UpdateRequest) -> bool {
    &&& w.nodes.len() == v.nodes.len()
    &&& forall|j: int|
        0 <= j < v.nodes.len() ==> {
            &&& (#[trigger] w.nodes[j]).public_key == v.nodes[j].public_key
            &&& w.nodes[j].nonce == v.nodes[j].nonce + if step(v, tx).1 == TransactionResponse::Success
                && signer_index(v, tx) == Some(j) {
                1int
            } else {
                0int
            }
        }
}

/// A successful transaction raises its signer's nonce by one; a reverted one,
/// or another node's, leaves a nonce as it was.
pub proof fn lemma_nonce_per_transaction(v: AppView, tx: UpdateRequest)
    requires
        view_wf(v),
    ensures
        same_nodes_but_signer(v, step(v, tx).0, tx),
{
    lemma_step_wf(v, tx);
}

/// Over a block, each node's nonce rises by the number of its transactions
/// that succeeded.
pub proof fn lemma_nonce_per_block(v: AppView, txs: Seq<UpdateRequest>, j: int)
    requires
        view_wf(v),
        0 <= j < v.nodes.len(),
    ensures
        run(v, txs).0.nodes.len() == v.nodes.len(),
        run(v, txs).0.nodes[j].nonce == v.nodes[j].nonce + signed_successes(v, txs, j),
    decreases txs.len(),
{
    if txs.len() > 0 {
        lemma_step_wf(v, txs[0]);
        let w = step(v, txs[0]).0;
        lemma_nonce_per_block(w, txs.drop_first(), j);
    }
}

/// The signals of an epoch come from its committee and only accumulate; the
/// transaction that starts the next epoch keeps the finished epoch's committee
/// and signals on record and leaves nobody ready to change.
pub proof fn lemma_ready_to_change(v: AppView, tx: UpdateRequest)
    requires
        view_wf(v),
    ensures
        ({
            let (w, _, changed) = step(v, tx);
            &&& forall|k: int| 0 <= k < w.ready.len() ==> w.members.contains(#[trigger] w.ready[k])
            &&& !changed ==> {
                &&& w.epoch == v.epoch
                &&& w.members == v.members
                &&& v.ready.to_set().subset_of(w.ready.to_set())
                &&& v.ready.len() <= w.ready.len()
                &&& w.past == v.past
            }
            &&& changed ==> {
                &&& w.ready.len() == 0
                &&& w.epoch == next_epoch(v.epoch)
                &&& w.past == v.past.push((v.epoch, v.members, v.ready))
            }
        }),
{
    lemma_step_wf(v, tx);
    if let TransactionSender::Node(key) = tx.sender {
        if let Some(i) = node_index_of(v.nodes, key@) {
            let j = choose|j: int| 0 <= j < v.nodes.len() && #[trigger] v.nodes[j].public_key@ == key@;
            if let UpdateMethod::ChangeEpoch { epoch } = tx.method {
                if change_epoch_outcome(v, i, epoch) == Ok::<bool, ExecutionError>(true) {
                    lemma_insert_sorted(v.ready, i as NodeIndex);
                }
            }
        }
    }
}

/// Over a block, the signals stay within the committee. Where no transaction of
/// the block ends the epoch, the epoch and its committee stay and the signals
/// only accumulate.
pub proof fn lemma_ready_to_change_block(v: AppView, txs: Seq<UpdateRequest>)
    requires
        view_wf(v),
    ensures
        ({
            let (w, rs) = run(v, txs);
            &&& view_wf(w)
            &&& forall|k: int| 0 <= k < w.ready.len() ==> w.members.contains(#[trigger] w.ready[k])
            &&& !any_change(rs) ==> {
                &&& w.epoch == v.epoch
                &&& w.members == v.members
                &&& v.ready.to_set().subset_of(w.ready.to_set())
                &&& v.ready.len() <= w.ready.len()
            }
        }),
    decreases txs.len(),
{
    if txs.len() > 0 {
        lemma_step_wf(v, txs[0]);
        lemma_ready_to_change(v, txs[0]);
        let (w1, resp, changed) = step(v, txs[0]);
        lemma_ready_to_change_block(w1, txs.drop_first());
        let rest = run(w1, txs.drop_first());
        let rs = run(v, txs).1;
        assert(rs == seq![(resp, changed)] + rest.1);
        if !any_change(rs) {
            assert(!changed) by {
                assert(rs[0].1 == changed);
            }
            assert(!any_change(rest.1)) by {
                if any_change(rest.1) {
                    let k = choose|k: int| 0 <= k < rest.1.len() && #[trigger] rest.1[k].1;
                    assert(rs[k + 1].1);
                }
            }
        }
    }
}

/// A transaction changes the supply only when it ends the epoch, and then by
/// exactly that epoch's emissions (and the start-of-year rule).
pub proof fn lemma_supply_per_transaction(v: AppView, tx: UpdateRequest)
    requires
        view_wf(v),
    ensures
        step(v, tx).0.supply == if step(v, tx).2 {
            next_supply(v)
        } else {
            v.supply
        },
        step(v, tx).0.reward_params == v.reward_params,
{
}

/// Executing two blocks one after the other ends where executing them as one
/// does.
pub proof fn lemma_run_concat(v: AppView, a: Seq<UpdateRequest>, b: Seq<UpdateRequest>)
    ensures
        run(v, a + b).0 == run(run(v, a).0, b).0,
        run(v, a + b).1 == run(v, a).1 + run(run(v, a).0, b).1,
    decreases a.len(),
{
    if a.len() == 0 {
        assert(a + b =~= b);
        assert(run(v, a).1 + run(v, b).1 =~= run(v, b).1);
    } else {
        let w = step(v, a[0]).0;
        assert((a + b)[0] == a[0]);
        assert((a + b).drop_first() =~= a.drop_first() + b);
        lemma_run_concat(w, a.drop_first(), b);
        let r0 = (step(v, a[0]).1, step(v, a[0]).2);
        assert(seq![r0] + (run(w, a.drop_first()).1 + run(run(w, a.drop_first()).0, b).1) =~= (seq![r0]
            + run(w, a.drop_first()).1) + run(run(w, a.drop_first()).0, b).1);
    }
}

/// Replicas that hold the same state and execute the same blocks end in the
/// same state with the same receipts.
pub proof fn lemma_replay_deterministic(v1: AppView, v2: AppView, blocks: Seq<Seq<UpdateRequest>>)
    requires
        v1 == v2,
    ensures
        run_blocks(v1, blocks) == run_blocks(v2, blocks),
{
}

proof fn lemma_run_keeps_executed(v: AppView, txs: Seq<UpdateRequest>)
    ensures
        run(v, txs).0.executed_txs == v.executed_txs,
        run_block(v, txs).executed_txs == v.executed_txs,
    decreases txs.len(),
{
    if txs.len() > 0 {
        lemma_run_keeps_executed(step(v, txs[0]).0, txs.drop_first());
    }
}

proof fn lemma_run_len(v: AppView, txs: Seq<UpdateRequest>)
    ensures
        run(v, txs).1.len() == txs.len(),
    decreases txs.len(),
{
    if txs.len() > 0 {
        lemma_run_len(step(v, txs[0]).0, txs.drop_first());
    }
}

/// Blocks executed one after the other.
pub open spec fn run_blocks(v: AppView, blocks: Seq<Seq<UpdateRequest>>) -> AppView
    decreases blocks.len(),
{
    if blocks.len() == 0 {
        v
    } else {
        run_blocks(run_block(v, blocks[0]), blocks.drop_first())
    }
}

/// No two candidates share an index.
pub open spec fn distinct_indices(c: Seq<(Score, NodeIndex)>) -> bool {
    forall|a: int, b: int| 0 <= a < b < c.len() ==> #[trigger] c[a].1 != #[trigger] c[b].1
}

/// The candidate at `min_index` comes before every other one.
pub proof fn lemma_min_index(c: Seq<(Score, NodeIndex)>)
    requires
        c.len() > 0,
        distinct_indices(c),
    ensures
        0 <= min_index(c) < c.len(),
        forall|j: int| 0 <= j < c.len() && j != min_index(c) ==> before(c[min_index(c)], #[trigger] c[j]),
    decreases c.len(),
{
    if c.len() > 1 {
        let d = c.drop_last();
        assert forall|a: int, b: int| 0 <= a < b < d.len() implies #[trigger] d[a].1 != #[trigger] d[b].1 by {
            assert(d[a] == c[a] && d[b] == c[b]);
        }
        lemma_min_index(d);
        let m = min_index(d);
        assert(c[m] == d[m]);
        assert(c.last().1 != c[m].1);
        assert forall|j: int| 0 <= j < c.len() && j != min_index(c) implies before(c[min_index(c)], #[trigger] c[j]) by {
            if j < c.len() - 1 {
                assert(d[j] == c[j]);
                if j != m {
                    assert(before(d[m], d[j]));
                }
            }
        }
    }
}

/// The candidates chosen by `select`, in the order chosen.
pub open spec fn select_candidates(c: Seq<(Score, NodeIndex)>, k: nat) -> Seq<(Score, NodeIndex)>
    decreases k,
{
    if k == 0 || c.len() == 0 {
        seq![]
    } else {
        let m = min_index(c);
        seq![c[m]] + select_candidates(c.remove(m), (k - 1) as nat)
    }
}

/// `select` keeps the `k` candidates that come first, in order: it chooses
/// `min(k, |c|)` of them, each comes before the next, and each candidate left
/// out comes after all those chosen. Its result lists their indices.
pub proof fn lemma_select_first(c: Seq<(Score, NodeIndex)>, k: nat)
    requires
        distinct_indices(c),
    ensures
        ({
            let t = select_candidates(c, k);
            &&& select(c, k) == Seq::new(t.len(), |i: int| t[i].1)
            &&& t.len() == if k < c.len() {
                k as int
            } else {
                c.len() as int
            }
            &&& forall|a: int, b: int| 0 <= a < b < t.len() ==> before(#[trigger] t[a], #[trigger] t[b])
            &&& forall|a: int| 0 <= a < t.len() ==> c.contains(#[trigger] t[a])
            &&& forall|x: (Score, NodeIndex), a: int|
                #![trigger c.contains(x), t[a]]
                c.contains(x) && !t.contains(x) && 0 <= a < t.len() ==> before(t[a], x)
        }),
    decreases k,
{
    let t = select_candidates(c, k);
    if k == 0 || c.len() == 0 {
        assert(select(c, k) =~= Seq::new(t.len(), |i: int| t[i].1));
    } else {
        lemma_min_index(c);
        let m = min_index(c);
        let d = c.remove(m);
        assert forall|a: int, b: int| 0 <= a < b < d.len() implies #[trigger] d[a].1 != #[trigger] d[b].1 by {
            let a2 = if a < m { a } else { a + 1 };
            let b2 = if b < m { b } else { b + 1 };
            assert(d[a] == c[a2] && d[b] == c[b2]);
        }
        lemma_select_first(d, (k - 1) as nat);
        let u = select_candidates(d, (k - 1) as nat);
        assert(t == seq![c[m]] + u);
        assert forall|y: (Score, NodeIndex)| d.contains(y) implies c.contains(y) && before(c[m], y) by {
            let j = choose|j: int| 0 <= j < d.len() && d[j] == y;
            let j2 = if j < m { j } else { j + 1 };
            assert(c[j2] == y);
        }
        assert(select(c, k) =~= Seq::new(t.len(), |i: int| t[i].1)) by {
            assert(select(c, k) == seq![c[m].1] + select(d, (k - 1) as nat));
        }
        assert forall|a: int, b: int| 0 <= a < b < t.len() implies before(#[trigger] t[a], #[trigger] t[b]) by {
            if a == 0 {
                assert(t[b] == u[b - 1]);
                assert(d.contains(u[b - 1]));
            } else {
                assert(t[a] == u[a - 1] && t[b] == u[b - 1]);
            }
        }
        assert forall|a: int| 0 <= a < t.len() implies c.contains(#[trigger] t[a]) by {
            if a > 0 {
                assert(t[a] == u[a - 1]);
                assert(d.contains(u[a - 1]));
            } else {
                assert(c[m] == t[0]);
            }
        }
        assert forall|x: (Score, NodeIndex), a: int|
            #![trigger c.contains(x), t[a]]
            c.contains(x) && !t.contains(x) && 0 <= a < t.len() implies before(t[a], x) by {
            let j = choose|j: int| 0 <= j < c.len() && c[j] == x;
            assert(j != m) by {
                if j == m {
                    assert(t[0] == x);
                }
            }
            let j3 = if j < m { j } else { j - 1 };
            assert(d[j3] == x);
            assert(d.contains(x));
            assert(!u.contains(x)) by {
                if u.contains(x) {
                    let q = choose|q: int| 0 <= q < u.len() && u[q] == x;
                    assert(t[q + 1] == x);
                }
            }
            if a == 0 {
                assert(t[0] == c[m]);
            } else {
                assert(t[a] == u[a - 1]);
            }
        }
    }
}

/// Candidates come in increasing order of index, each below `count`.
pub proof fn lemma_candidates_increasing(nodes: Seq<NodeRecord>, min_stake: u128, seed: Seq<u8>, count: nat)
    requires
        count <= nodes.len() <= u32::MAX,
    ensures
        ({
            let c = candidates(nodes, min_stake, seed, count);
            &&& forall|a: int| 0 <= a < c.len() ==> (#[trigger] c[a]).1 < count
            &&& forall|a: int, b: int| 0 <= a < b < c.len() ==> #[trigger] c[a].1 < #[trigger] c[b].1
        }),
    decreases count,
{
    if count > 0 {
        lemma_candidates_increasing(nodes, min_stake, seed, (count - 1) as nat);
        let j = (count - 1) as int;
        let rest = candidates(nodes, min_stake, seed, (count - 1) as nat);
        let c = candidates(nodes, min_stake, seed, count);
        assert((j as NodeIndex) as int == j);
        if selectable(nodes[j], min_stake) {
            assert(c == rest.push((score(seed, j as NodeIndex), j as NodeIndex)));
            assert forall|a: int| 0 <= a < c.len() implies (#[trigger] c[a]).1 < count by {
                if a < rest.len() {
                    assert(c[a] == rest[a]);
                }
            }
            assert forall|a: int, b: int| 0 <= a < b < c.len() implies #[trigger] c[a].1 < #[trigger] c[b].1 by {
                assert(c[a] == rest[a]);
                if b < rest.len() {
                    assert(c[b] == rest[b]);
                }
            }
        }
    }
}

/// The committee that the beacon chooses: of the nodes that may serve in the
/// next epoch, scored by the hash of the reveals followed by their index, the
/// `committee_size` that come first by score and then by index, in that order.
/// The reveals it hashes are exactly those that matched their node's commitment.
pub proof fn lemma_next_committee(v: AppView)
    requires
        view_wf(v),
    ensures
        ({
            let c = candidates(v.nodes, v.min_stake, reveal_seed(v.reveals), v.nodes.len());
            let t = select_candidates(c, v.committee_size as nat);
            &&& next_committee(v) == Seq::new(t.len(), |i: int| t[i].1)
            &&& forall|a: int| 0 <= a < c.len() ==> {
                &&& selectable(v.nodes[(#[trigger] c[a]).1 as int], v.min_stake)
                &&& c[a].0 == score(reveal_seed(v.reveals), c[a].1)
            }
            &&& t.len() == if (v.committee_size as nat) < c.len() {
                v.committee_size as int
            } else {
                c.len() as int
            }
            &&& forall|a: int, b: int| 0 <= a < b < t.len() ==> before(#[trigger] t[a], #[trigger] t[b])
            &&& forall|a: int| 0 <= a < t.len() ==> c.contains(#[trigger] t[a])
            &&& forall|x: (Score, NodeIndex), a: int|
                #![trigger c.contains(x), t[a]]
                c.contains(x) && !t.contains(x) && 0 <= a < t.len() ==> before(t[a], x)
            &&& reveals_match(v)
        }),
{
    let c = candidates(v.nodes, v.min_stake, reveal_seed(v.reveals), v.nodes.len());
    lemma_candidates_increasing(v.nodes, v.min_stake, reveal_seed(v.reveals), v.nodes.len());
    lemma_candidates_scored(v.nodes, v.min_stake, reveal_seed(v.reveals), v.nodes.len());
    lemma_select_first(c, v.committee_size as nat);
}

proof fn lemma_candidates_scored(nodes: Seq<NodeRecord>, min_stake: u128, seed: Seq<u8>, count: nat)
    requires
        count <= nodes.len() <= u32::MAX,
    ensures
        ({
            let c = candidates(nodes, min_stake, seed, count);
            forall|a: int| 0 <= a < c.len() ==> {
                &&& selectable(nodes[(#[trigger] c[a]).1 as int], min_stake)
                &&& c[a].0 == score(seed, c[a].1)
            }
        }),
    decreases count,
{
    if count > 0 {
        lemma_candidates_scored(nodes, min_stake, seed, (count - 1) as nat);
        let j = (count - 1) as int;
        let rest = candidates(nodes, min_stake, seed, (count - 1) as nat);
        let c = candidates(nodes, min_stake, seed, count);
        assert((j as NodeIndex) as int == j);
        if selectable(nodes[j], min_stake) {
            assert(c == rest.push((score(seed, j as NodeIndex), j as NodeIndex)));
            assert forall|a: int| 0 <= a < c.len() implies {
                &&& selectable(nodes[(#[trigger] c[a]).1 as int], min_stake)
                &&& c[a].0 == score(seed, c[a].1)
            } by {
                if a < rest.len() {
                    assert(c[a] == rest[a]);
                }
            }
        }
    }
}

/// The node payouts of `rw` are those of the epoch ending in `v`.
#[verifier::opaque]
pub open spec fn node_rewards_match(rw: Rewards, v: AppView, emitted: u128) -> bool {
    forall|k: int|
        0 <= k < v.nodes.len() ==> {
            &&& #[trigger] rw.node_stables@[k] == percent(
                node_revenue(v.acks, prices_of(v), k),
                v.reward_params.node_share,
            )
            &&& rw.node_flk@[k] == split(
                percent(emitted as int, v.reward_params.node_share),
                weight(v.acks, prices_of(v), boosts_of(v), k),
                total_weight(v.acks, prices_of(v), boosts_of(v), boosts_of(v).len() as int),
            )
        }
}

/// `a + b`, or the largest `u128` where the sum exceeds it.
fn add_capped(a: u128, b: u128) -> (r: u128)
    ensures
        r == credit(a, b as int),
{
    if a > u128::MAX - b {
        u128::MAX
    } else {
        a + b
    }
}

/// The position of the candidate of least order among the first ones.
fn min_position(c: &Vec<(Score, NodeIndex)>) -> (r: usize)
    requires
        c@.len() > 0,
    ensures
        r as int == min_index(c@),
        r < c@.len(),
{
    let mut best: usize = 0;
    let mut j: usize = 1;
    assert(c@.subrange(0, 1).len() == 1);
    while j < c.len()
        invariant
            1 <= j <= c@.len(),
            best < j,
            best as int == min_index(c@.subrange(0, j as int)),
        decreases c@.len() - j,
    {
        let ghost sub = c@.subrange(0, j + 1);
        assert(sub.drop_last() =~= c@.subrange(0, j as int));
        assert(sub.last() == c@[j as int]);
        assert(sub[best as int] == c@[best as int]);
        let ((a0, a1, a2, a3), ai) = c[j];
        let ((b0, b1, b2, b3), bi) = c[best];
        let lt = a0 < b0 || (a0 == b0 && (a1 < b1 || (a1 == b1 && (a2 < b2 || (a2 == b2
            && a3 < b3)))));
        let eq = a0 == b0 && a1 == b1 && a2 == b2 && a3 == b3;
        if lt || (eq && ai < bi) {
            best = j;
        }
        j = j + 1;
    }
    assert(c@.subrange(0, c@.len() as int) =~= c@);
    best
}

/// The indices of the first `k` candidates in order.
pub fn select_committee(c: Vec<(Score, NodeIndex)>, k: u64) -> (r: Vec<NodeIndex>)
    ensures
        r@ == select(c@, k as nat),
{
    let ghost all = c@;
    let mut c = c;
    let mut out: Vec<NodeIndex> = Vec::new();
    let mut n: u64 = 0;
    assert(out@ + select(c@, k as nat) =~= select(c@, k as nat));
    while n < k && c.len() > 0
        invariant
            n <= k,
            select(all, k as nat) == out@ + select(c@, (k - n) as nat),
        decreases k - n,
    {
        let m = min_position(&c);
        let ghost before_c = c@;
        let (_, idx) = c.remove(m);
        let ghost before_out = out@;
        out.push(idx);
        assert(before_out + (seq![idx] + select(c@, (k - n - 1) as nat)) =~= out@ + select(
            c@,
            (k - n - 1) as nat,
        ));
        n = n + 1;
    }
    assert(select(c@, (k - n) as nat) =~= Seq::<NodeIndex>::empty());
    assert(out@ + Seq::<NodeIndex>::empty() =~= out@);
    out
}

impl AppState {
    /// The commitment of node `me` in this round.
    pub fn find_commit(&self, me: NodeIndex) -> (r: Option<Digest>)
        ensures
            r == committed_hash(self.beacon_commits@, me),
    {
        let mut i: usize = self.beacon_commits.len();
        assert(self.beacon_commits@.subrange(0, i as int) =~= self.beacon_commits@);
        while i > 0
            invariant
                0 <= i <= self.beacon_commits@.len(),
                committed_hash(self.beacon_commits@, me) == committed_hash(
                    self.beacon_commits@.subrange(0, i as int),
                    me,
                ),
            decreases i,
        {
            let ghost prefix = self.beacon_commits@.subrange(0, i as int);
            assert(prefix.drop_last() =~= self.beacon_commits@.subrange(0, i - 1));
            if self.beacon_commits[i - 1].0 == me {
                return Some(self.beacon_commits[i - 1].1);
            }
            i = i - 1;
        }
        None
    }

    /// Whether node `me` revealed in this round.
    pub fn revealed(&self, me: NodeIndex) -> (r: bool)
        ensures
            r == has_revealed(self.beacon_reveals@, me),
    {
        let mut i: usize = 0;
        while i < self.beacon_reveals.len()
            invariant
                0 <= i <= self.beacon_reveals@.len(),
                forall|k: int| 0 <= k < i ==> self.beacon_reveals@[k].0 != me,
            decreases self.beacon_reveals@.len() - i,
        {
            if self.beacon_reveals[i].0 == me {
                return true;
            }
            i = i + 1;
        }
        false
    }

    /// The seed of the round: the reveals, one after the other.
    fn seed(&self) -> (r: Vec<u8>)
        ensures
            r@ == reveal_seed(self.beacon_reveals@),
    {
        let mut out: Vec<u8> = Vec::new();
        let mut i: usize = 0;
        while i < self.beacon_reveals.len()
            invariant
                0 <= i <= self.beacon_reveals@.len(),
                out@ == reveal_seed(self.beacon_reveals@.subrange(0, i as int)),
            decreases self.beacon_reveals@.len() - i,
        {
            let ghost sub = self.beacon_reveals@.subrange(0, i + 1);
            assert(sub.drop_last() =~= self.beacon_reveals@.subrange(0, i as int));
            push_digest(&mut out, &self.beacon_reveals[i].1);
            i = i + 1;
        }
        assert(self.beacon_reveals@.subrange(0, i as int) =~= self.beacon_reveals@);
        out
    }

    /// The nodes that may be chosen for the next committee, with their scores.
    fn candidates(&self, seed: &Vec<u8>) -> (r: Vec<(Score, NodeIndex)>)
        requires
            self.wf(),
        ensures
            r@ == candidates(self.nodes@, self.min_stake, seed@, self.nodes@.len()),
    {
        let mut out: Vec<(Score, NodeIndex)> = Vec::new();
        let mut j: usize = 0;
        while j < self.nodes.len()
            invariant
                0 <= j <= self.nodes@.len(),
                self.nodes@.len() <= u32::MAX,
                out@ == candidates(self.nodes@, self.min_stake, seed@, j as nat),
            decreases self.nodes@.len() - j,
        {
            let n = self.nodes[j];
            let p = match n.participation {
                Participation::OptedIn => Participation::True,
                Participation::OptedOut => Participation::False,
                q => q,
            };
            if p == Participation::True && n.stake.staked >= self.min_stake {
                let mut bytes = clone_bytes(seed);
                push_u32(&mut bytes, j as u32);
                let h = blake3_hash(&bytes);
                let mut hv: Vec<u8> = Vec::new();
                push_digest(&mut hv, &h);
                assert(hv@ =~= h@);
                let s = (
                    read_u64_be_at(&hv, 0),
                    read_u64_be_at(&hv, 8),
                    read_u64_be_at(&hv, 16),
                    read_u64_be_at(&hv, 24),
                );
                out.push((s, j as NodeIndex));
            }
            j = j + 1;
        }
        out
    }

    /// Executes a block of transactions in order, as `run` says, and counts it.
    pub fn execute_block(&mut self, txs: &Vec<UpdateRequest>) -> (r: BlockReceipt)
        requires
            old(self).wf(),
        ensures
            final(self).wf(),
            final(self)@ == run_block(old(self)@, txs@),
            r.block_number == final(self).block_number,
            r.change_epoch == any_change(run(old(self)@, txs@).1),
            r.txn_receipts@.len() == txs@.len(),
            forall|k: int|
                0 <= k < txs@.len() ==> (#[trigger] r.txn_receipts@[k]).response == run(
                    old(self)@,
                    txs@,
                ).1[k].0 && r.txn_receipts@[k].change_epoch == run(old(self)@, txs@).1[k].1,
    {
        let receipts = self.execute_transactions(txs);
        let mut change_epoch = false;
        let mut k: usize = 0;
        while k < receipts.len()
            invariant
                0 <= k <= receipts@.len(),
                change_epoch == exists|j: int| 0 <= j < k && #[trigger] receipts@[j].change_epoch,
            decreases receipts@.len() - k,
        {
            if receipts[k].change_epoch {
                change_epoch = true;
            }
            k = k + 1;
        }
        proof {
            lemma_run_len(old(self)@, txs@);
            if change_epoch {
                let j = choose|j: int| 0 <= j < receipts@.len() && #[trigger] receipts@[j].change_epoch;
                assert(run(old(self)@, txs@).1[j].1);
            }
            if any_change(run(old(self)@, txs@).1) {
                let j = choose|j: int| 0 <= j < run(old(self)@, txs@).1.len() && #[trigger] run(old(self)@, txs@).1[j].1;
                assert(receipts@[j].change_epoch);
            }
        }
        if self.block_number < u64::MAX {
            self.block_number = self.block_number + 1;
        }
        BlockReceipt { block_number: self.block_number, change_epoch, txn_receipts: receipts }
    }

    /// Whether a transaction with hash `h` was executed.
    pub fn has_executed_digest(&self, h: &Digest) -> (r: bool)
        ensures
            r == self@.executed_txs.contains(h@),
    {
        let mut i: usize = 0;
        while i < self.executed_digests.len()
            invariant
                0 <= i <= self.executed_digests@.len(),
                forall|j: int| 0 <= j < i ==> self.executed_digests@[j]@ != h@,
            decreases self.executed_digests@.len() - i,
        {
            if digest_eq(&self.executed_digests[i], h) {
                assert(self@.executed_txs[i as int] == h@);
                return true;
            }
            i = i + 1;
        }
        assert(!self@.executed_txs.contains(h@)) by {
            if self@.executed_txs.contains(h@) {
                let j = choose|j: int| 0 <= j < self@.executed_txs.len() && self@.executed_txs[j] == h@;
                assert(self.executed_digests@[j]@ == h@);
            }
        }
        false
    }

    /// Executes an ordered batch of encoded transactions as one block: those
    /// that decode and whose hash is not on record run in order, and their
    /// hashes are then recorded.
    pub fn execute_payload(&mut self, payload: &Vec<Vec<u8>>) -> (r: BlockReceipt)
        requires
            old(self).wf(),
        ensures
            final(self).wf(),
            ({
                let flags = executed_flags(payload.deep_view(), old(self)@.executed_txs);
                let views = block_views(payload.deep_view(), flags);
                exists|block: Seq<UpdateRequest>|
                    {
                        &&& block.len() == views.len()
                        &&& forall|k: int|
                            0 <= k < block.len() ==> (envelope(#[trigger] block[k]), tx_view(block[k])) == views[k]
                        &&& final(self)@ == (AppView {
                            executed_txs: old(self)@.executed_txs + new_hashes(payload.deep_view(), flags),
                            ..run_block(old(self)@, block)
                        })
                        &&& r.block_number == final(self).block_number
                        &&& r.change_epoch == any_change(run(old(self)@, block).1)
                        &&& r.txn_receipts@.len() == block.len()
                    }
            }),
    {
        let ghost pv = payload.deep_view();
        let mut flags: Vec<bool> = Vec::new();
        let mut hashes: Vec<Digest> = Vec::new();
        let mut i: usize = 0;
        while i < payload.len()
            invariant
                0 <= i <= payload@.len(),
                pv == payload.deep_view(),
                flags@.len() == i,
                hashes@.len() == i,
                forall|k: int| 0 <= k < i ==> #[trigger] flags@[k] == executed_flags(pv, self@.executed_txs)[k],
                forall|k: int| 0 <= k < i ==> #[trigger] hashes@[k]@ == blake3_of(pv[k]),
            decreases payload@.len() - i,
        {
            assert(pv[i as int] =~= payload@[i as int]@);
            let h = blake3_hash(&payload[i]);
            flags.push(self.has_executed_digest(&h));
            hashes.push(h);
            i = i + 1;
        }
        assert(flags@ =~= executed_flags(pv, self@.executed_txs));
        let ghost old_view = self@;
        let block = block_transactions(payload, &flags);
        let receipt = self.execute_block(&block);
        let ghost after_block = self@;
        let mut k: usize = 0;
        proof {
            lemma_run_keeps_executed(old_view, block@);
            assert(pv.subrange(0, 0) =~= Seq::<Seq<u8>>::empty());
            assert(old_view.executed_txs + new_hashes(pv.subrange(0, 0), flags@.subrange(0, 0))
                =~= old_view.executed_txs);
            assert(self@ =~= (AppView {
                executed_txs: old_view.executed_txs + new_hashes(pv.subrange(0, 0), flags@.subrange(0, 0)),
                ..after_block
            }));
        }
        while k < payload.len()
            invariant
                0 <= k <= payload@.len(),
                pv == payload.deep_view(),
                flags@ == executed_flags(pv, old_view.executed_txs),
                hashes@.len() == payload@.len(),
                forall|j: int| 0 <= j < payload@.len() ==> #[trigger] hashes@[j]@ == blake3_of(pv[j]),
                self.wf(),
                self@ == (AppView {
                    executed_txs: old_view.executed_txs + new_hashes(pv.subrange(0, k as int), flags@.subrange(0, k as int)),
                    ..after_block
                }),
            decreases payload@.len() - k,
        {
            let ghost p2 = pv.subrange(0, k + 1);
            let ghost f2 = flags@.subrange(0, k + 1);
            assert(p2.drop_last() =~= pv.subrange(0, k as int));
            assert(f2.drop_last() =~= flags@.subrange(0, k as int));
            assert(p2.last() =~= payload@[k as int]@);
            let ghost before = self@.executed_txs;
            if decode_transaction(&payload[k]).is_some() && !flags[k] {
                self.executed_digests.push(hashes[k]);
                assert(self@.executed_txs =~= before.push(hashes@[k as int]@));
            } else {
                assert(self@.executed_txs =~= before);
            }
            assert(old_view.executed_txs + new_hashes(p2, f2) =~= self@.executed_txs);
            k = k + 1;
        }
        assert(pv.subrange(0, pv.len() as int) =~= pv);
        assert(flags@.subrange(0, pv.len() as int) =~= flags@);
        assert(self@ =~= (AppView {
            executed_txs: old_view.executed_txs + new_hashes(pv, flags@),
            ..after_block
        }));
        BlockReceipt {
            block_number: self.block_number,
            change_epoch: receipt.change_epoch,
            txn_receipts: receipt.txn_receipts,
        }
    }

    /// Executes transactions in order, as `run` says.
    fn execute_transactions(&mut self, txs: &Vec<UpdateRequest>) -> (r: Vec<TransactionReceipt>)
        requires
            old(self).wf(),
        ensures
            final(self).wf(),
            final(self)@ == run(old(self)@, txs@).0,
            r@.len() == txs@.len(),
            forall|k: int|
                0 <= k < txs@.len() ==> (#[trigger] r@[k]).response == run(old(self)@, txs@).1[k].0
                    && r@[k].change_epoch == run(old(self)@, txs@).1[k].1,
    {
        let mut receipts: Vec<TransactionReceipt> = Vec::new();
        let mut i: usize = 0;
        assert(txs@.subrange(0, 0) =~= Seq::<UpdateRequest>::empty());
        while i < txs.len()
            invariant
                0 <= i <= txs@.len(),
                self.wf(),
                self@ == run(old(self)@, txs@.subrange(0, i as int)).0,
                receipts@.len() == i,
                forall|k: int|
                    0 <= k < i ==> (#[trigger] receipts@[k]).response == run(old(self)@, txs@).1[k].0
                        && receipts@[k].change_epoch == run(old(self)@, txs@).1[k].1,
            decreases txs@.len() - i,
        {
            let ghost prefix = txs@.subrange(0, i as int);
            let ghost rest = txs@.subrange(i as int, txs@.len() as int);
            let ghost before = self@;
            proof {
                lemma_run_concat(old(self)@, prefix, rest);
                assert(prefix + rest =~= txs@);
                lemma_run_len(old(self)@, prefix);
                assert(rest[0] == txs@[i as int]);
                lemma_run_concat(old(self)@, prefix, seq![txs@[i as int]]);
                assert(prefix + seq![txs@[i as int]] =~= txs@.subrange(0, i + 1));
                assert(seq![txs@[i as int]].drop_first() =~= Seq::<UpdateRequest>::empty());
                assert(seq![txs@[i as int]][0] == txs@[i as int]);
                let w = step(before, txs@[i as int]).0;
                assert(run(w, Seq::<UpdateRequest>::empty()).0 == w);
                assert(run(before, seq![txs@[i as int]]).0 == step(before, txs@[i as int]).0);
            }
            let r = self.execute_transaction(txs[i]);
            receipts.push(r);
            proof {
                assert(run(old(self)@, txs@).1[i as int] == run(before, rest).1[0]);
            }
            i = i + 1;
        }
        assert(txs@.subrange(0, txs@.len() as int) =~= txs@);
        receipts
    }

    /// Method `m` of node `i`, whose nonce was checked.
    fn apply_method(&mut self, i: usize, m: UpdateMethod) -> (res: Result<bool, ExecutionError>)
        requires
            old(self).wf(),
            i < old(self).nodes@.len(),
        ensures
            match method_step(old(self)@, i as int, m) {
                Ok((w, ch)) => res == Ok::<bool, ExecutionError>(ch) && final(self)@ == w,
                Err(err) => res == Err::<bool, ExecutionError>(err) && final(self)@ == old(self)@,
            },
    {
        match m {
            UpdateMethod::ChangeEpoch { epoch } => self.change_epoch(i, epoch),
            UpdateMethod::OptIn => {
                let stake = self.nodes[i].stake;
                if stake.staked < self.min_stake && self.min_stake - stake.staked > stake.locked {
                    return Err(ExecutionError::InsufficientStake);
                }
                let p = self.nodes[i].participation;
                self.nodes[i].participation =
                match p {
                    Participation::False => Participation::OptedIn,
                    Participation::OptedOut => Participation::True,
                    _ => p,
                };
                assert(self@.nodes =~= set_participation(old(self)@, i as int, opted_in(p)).nodes);
                Ok(false)
            },
            UpdateMethod::SubmitDeliveryAcknowledgmentAggregation { commodity, service_id } => {
                self.delivery_acks.push(
                    DeliveryAck { node: i as NodeIndex, service_id, commodity },
                );
                Ok(false)
            },
            UpdateMethod::OptOut => {
                let p = self.nodes[i].participation;
                self.nodes[i].participation =
                match p {
                    Participation::True => Participation::OptedOut,
                    Participation::OptedIn => Participation::False,
                    _ => p,
                };
                assert(self@.nodes =~= set_participation(old(self)@, i as int, opted_out(p)).nodes);
                Ok(false)
            },
            _ => self.beacon(i, m),
        }
    }

    /// Executes one transaction, as `step` says.
    pub fn execute_transaction(&mut self, tx: UpdateRequest) -> (r: TransactionReceipt)
        requires
            old(self).wf(),
        ensures
            final(self).wf(),
            final(self)@ == step(old(self)@, tx).0,
            r.response == step(old(self)@, tx).1,
            r.change_epoch == step(old(self)@, tx).2,
    {
        proof {
            lemma_step_wf(self@, tx);
        }
        if tx.chain_id != self.chain_id {
            return TransactionReceipt {
                response: TransactionResponse::Revert(ExecutionError::InvalidChainId),
                change_epoch: false,
            };
        }
        let i = match &tx.sender {
            TransactionSender::Node(key) => match self.find_node(key) {
                Some(i) => i,
                None => {
                    return TransactionReceipt {
                        response: TransactionResponse::Revert(ExecutionError::NodeDoesNotExist),
                        change_epoch: false,
                    };
                },
            },
            TransactionSender::Account(a) => {
                let nonce = self.get_account_nonce(a);
                let e = if nonce == u64::MAX || tx.nonce != nonce + 1 {
                    ExecutionError::InvalidNonce
                } else {
                    ExecutionError::OnlyNode
                };
                return TransactionReceipt { response: TransactionResponse::Revert(e), change_epoch: false };
            },
        };
        let nonce = self.nodes[i].nonce;
        if nonce == u64::MAX || tx.nonce != nonce + 1 || tx.secondary_nonce
            <= self.nodes[i].secondary_nonce {
            return TransactionReceipt {
                response: TransactionResponse::Revert(ExecutionError::InvalidNonce),
                change_epoch: false,
            };
        }
        proof {
            lemma_method_wf(self@, i as int, tx.method);
        }
        match self.apply_method(i, tx.method) {
            Ok(changed) => {
                let ghost w = self@;
                self.nodes[i].nonce = nonce + 1;
                self.nodes[i].secondary_nonce = tx.secondary_nonce;
                assert(self@.nodes =~= bump_nonce(w, i as int, tx.secondary_nonce).nodes);
                TransactionReceipt { response: TransactionResponse::Success, change_epoch: changed }
            },
            Err(e) => TransactionReceipt { response: TransactionResponse::Revert(e), change_epoch: false },
        }
    }

    /// A member declares the phase of round `r` timed out.
    fn phase_timeout(&mut self, me: NodeIndex, e: Epoch, r: u64, commit_phase: bool) -> (res: Result<bool, ExecutionError>)
        requires
            old(self).wf(),
        ensures
            match timeout_step(old(self)@, me, e, r, commit_phase) {
                Ok((w, ch)) => res == Ok::<bool, ExecutionError>(ch) && final(self)@ == w,
                Err(err) => res == Err::<bool, ExecutionError>(err) && final(self)@ == old(self)@,
            },
    {
        if !contains_index(&self.committee.members, me) {
            return Err(ExecutionError::NotCommitteeMember);
        }
        if contains_index(&self.beacon_timeouts, me) {
            return Err(ExecutionError::AlreadySignaled);
        }
        self.beacon_timeouts.push(me);
        if self.beacon_timeouts.len() >= quorum_threshold(self.committee.members.len()) {
            if commit_phase {
                self.beacon_timeouts = Vec::new();
                self.beacon_phase = Some(CommitteeSelectionBeaconPhase::Reveal(e, r));
                assert(self@.timeouts =~= Seq::<NodeIndex>::empty());
                return Ok(false);
            }
            let next = if r == u64::MAX {
                0
            } else {
                r + 1
            };
            self.beacon_phase = Some(CommitteeSelectionBeaconPhase::Commit(e, next));
            self.beacon_commits = Vec::new();
            self.beacon_reveals = Vec::new();
            self.beacon_timeouts = Vec::new();
            assert(self@ =~= restart_round(old(self)@, e, r));
        }
        Ok(false)
    }

    /// A beacon transaction from node `i`.
    fn beacon(&mut self, i: usize, m: UpdateMethod) -> (res: Result<bool, ExecutionError>)
        requires
            old(self).wf(),
            i < old(self).nodes@.len(),
        ensures
            match beacon_step(old(self)@, i as int, m) {
                Ok((w, ch)) => res == Ok::<bool, ExecutionError>(ch) && final(self)@ == w,
                Err(err) => res == Err::<bool, ExecutionError>(err) && final(self)@ == old(self)@,
            },
    {
        let me = i as NodeIndex;
        match m {
            UpdateMethod::CommitteeSelectionBeaconCommit { commit } => match self.beacon_phase {
                Some(CommitteeSelectionBeaconPhase::Commit(e, r)) => {
                    if !contains_index(&self.committee.members, me) {
                        return Err(ExecutionError::NotCommitteeMember);
                    }
                    if self.find_commit(me).is_some() {
                        return Err(ExecutionError::CommitteeSelectionBeaconAlreadyCommitted);
                    }
                    self.beacon_commits.push((me, commit));
                    if self.beacon_commits.len() >= quorum_threshold(self.committee.members.len()) {
                        self.beacon_timeouts = Vec::new();
                        self.beacon_phase = Some(CommitteeSelectionBeaconPhase::Reveal(e, r));
                        assert(self@.timeouts =~= Seq::<NodeIndex>::empty());
                    }
                    Ok(false)
                },
                _ => Err(ExecutionError::CommitteeSelectionBeaconNotCommitPhase),
            },
            UpdateMethod::CommitteeSelectionBeaconReveal { reveal } => match self.beacon_phase {
                Some(CommitteeSelectionBeaconPhase::Reveal(_, _)) => {
                    let h = match self.find_commit(me) {
                        Some(h) => h,
                        None => {
                            return Err(ExecutionError::CommitteeSelectionBeaconNotCommitted);
                        },
                    };
                    if self.revealed(me) {
                        return Err(ExecutionError::CommitteeSelectionBeaconAlreadyRevealed);
                    }
                    let mut bytes: Vec<u8> = Vec::new();
                    push_digest(&mut bytes, &reveal);
                    assert(bytes@ =~= reveal@);
                    let hashed = blake3_hash(&bytes);
                    if !digest_eq(&hashed, &h) {
                        return Err(ExecutionError::CommitteeSelectionBeaconInvalidReveal);
                    }
                    self.beacon_reveals.push((me, reveal));
                    if self.beacon_reveals.len() >= self.beacon_commits.len() {
                        self.advance_epoch();
                        Ok(true)
                    } else {
                        Ok(false)
                    }
                },
                _ => Err(ExecutionError::CommitteeSelectionBeaconNotRevealPhase),
            },
            UpdateMethod::CommitteeSelectionBeaconCommitPhaseTimeout => match self.beacon_phase {
                Some(CommitteeSelectionBeaconPhase::Commit(e, r)) => self.phase_timeout(me, e, r, true),
                _ => Err(ExecutionError::CommitteeSelectionBeaconNotCommitPhase),
            },
            UpdateMethod::CommitteeSelectionBeaconRevealPhaseTimeout => match self.beacon_phase {
                Some(CommitteeSelectionBeaconPhase::Reveal(e, r)) => self.phase_timeout(me, e, r, false),
                _ => Err(ExecutionError::CommitteeSelectionBeaconNotRevealPhase),
            },
            _ => Err(ExecutionError::Unimplemented),
        }
    }

    /// The prices of the services, by service id.
    fn prices(&self) -> (r: Vec<u128>)
        ensures
            r@ == prices_of(self@),
    {
        let mut r: Vec<u128> = Vec::new();
        let mut s: usize = 0;
        while s < self.services.len()
            invariant
                0 <= s <= self.services@.len(),
                r@.len() == s,
                forall|k: int| 0 <= k < s ==> #[trigger] r@[k] == self.services@[k].commodity_price,
            decreases self.services@.len() - s,
        {
            r.push(self.services[s].commodity_price);
            s = s + 1;
        }
        assert(r@ =~= prices_of(self@));
        r
    }

    /// The nodes' stake boosts.
    fn boosts(&self) -> (r: Vec<u128>)
        requires
            self.wf(),
        ensures
            r@ == boosts_of(self@),
    {
        let mut r: Vec<u128> = Vec::new();
        let mut j: usize = 0;
        while j < self.nodes.len()
            invariant
                0 <= j <= self.nodes@.len(),
                self.reward_params.max_boost >= 1,
                r@.len() == j,
                forall|k: int| 0 <= k < j ==> #[trigger] r@[k] == boosts_of(self@)[k],
            decreases self.nodes@.len() - j,
        {
            let until = self.nodes[j].stake.stake_locked_until;
            let locked = if until > self.epoch {
                until - self.epoch
            } else {
                0
            };
            r.push(stake_boost(&self.reward_params, locked));
            j = j + 1;
        }
        assert(r@ =~= boosts_of(self@));
        r
    }

    /// Starts the next epoch: chooses its committee from the reveals, takes up
    /// opt-ins and opt-outs, emits the epoch's tokens, pays its rewards, and
    /// resets the signals and the beacon.
    #[verifier::spinoff_prover]
    #[verifier::rlimit(100)]
    fn advance_epoch(&mut self)
        requires
            old(self).wf(),
        ensures
            final(self)@ == advance(old(self)@),
    {
        let ghost v = self@;
        let seed = self.seed();
        let cands = self.candidates(&seed);
        let members = select_committee(cands, self.committee_size);
        assert(members@ == next_committee(v));
        let mut summary: Vec<u8> = Vec::new();
        let mut m: usize = 0;
        assert(members@.subrange(0, 0) =~= Seq::<NodeIndex>::empty());
        while m < members.len()
            invariant
                0 <= m <= members@.len(),
                summary@ == indices_bytes(members@.subrange(0, m as int)),
            decreases members@.len() - m,
        {
            assert(members@.subrange(0, m + 1).drop_last() =~= members@.subrange(0, m as int));
            push_u32(&mut summary, members[m]);
            m = m + 1;
        }
        assert(members@.subrange(0, members@.len() as int) =~= members@);
        push_bytes(&mut summary, &seed);
        let prices = self.prices();
        let boosts = self.boosts();
        let epoch_of_year = self.epoch % self.reward_params.epochs_per_year;
        let mut supply = self.supply;
        let emitted = match advance_supply(&mut supply, &self.reward_params, epoch_of_year) {
            Some(e) => e,
            None => 0,
        };
        assert(emitted == epoch_emissions(v));
        assert(supply == next_supply(v));
        push_u128(&mut summary, emitted);
        push_u128(&mut summary, supply.total_supply);
        assert(summary@ == epoch_summary(v));
        let epoch_hash = blake3_hash(&summary);
        let rewards = distribute_rewards(&self.reward_params, emitted, &prices, &self.delivery_acks, &boosts);
        proof {
            reveal(node_rewards_match);
        }
        assert(rewards is Some <==> rewards_paid(v));
        let mut i: usize = 0;
        while i < self.nodes.len()
            invariant
                0 <= i <= self.nodes@.len(),
                v == old(self)@,
                self.chain_id == v.chain_id,
                self.block_number == v.block_number,
                self.committee == old(self).committee,
                self.past_committees == old(self).past_committees,
                self.executed_digests == old(self).executed_digests,
                self.nodes@.len() == v.nodes.len(),
                self.epoch == v.epoch,
                self.accounts@ == v.accounts,
                self.min_stake == v.min_stake,
                self.committee_size == v.committee_size,
                self.reward_params == v.reward_params,
                self.services@ == v.services,
                self.delivery_acks@ == v.acks,
                self.protocol_stables == v.protocol_stables,
                self.protocol_flk == v.protocol_flk,
                prices@ == prices_of(v),
                boosts@ == boosts_of(v),
                emitted == epoch_emissions(v),
                rewards is Some <==> rewards_paid(v),
                rewards is Some ==> rewards->Some_0.node_stables@.len() == v.nodes.len()
                    && rewards->Some_0.node_flk@.len() == v.nodes.len(),
                rewards is Some ==> node_rewards_match(rewards->Some_0, v, emitted),
                forall|k: int| 0 <= k < i ==> #[trigger] self.nodes@[k] == next_node(v, k),
                forall|k: int| i <= k < self.nodes@.len() ==> #[trigger] self.nodes@[k] == v.nodes[k],
            decreases self.nodes@.len() - i,
        {
            proof {
                reveal(node_rewards_match);
            }
            let mut n = self.nodes[i];
            n.participation =
            match n.participation {
                Participation::OptedIn => Participation::True,
                Participation::OptedOut => Participation::False,
                q => q,
            };
            match &rewards {
                Some(rw) => {
                    n.stables_balance = add_capped(n.stables_balance, rw.node_stables[i]);
                    n.flk_balance = add_capped(n.flk_balance, rw.node_flk[i]);
                },
                None => {},
            }
            self.nodes[i] = n;
            i = i + 1;
        }
        let mut s: usize = 0;
        while s < self.services.len()
            invariant
                0 <= s <= self.services@.len(),
                v == old(self)@,
                self.chain_id == v.chain_id,
                self.block_number == v.block_number,
                self.committee == old(self).committee,
                self.past_committees == old(self).past_committees,
                self.executed_digests == old(self).executed_digests,
                self.services@.len() == v.services.len(),
                self.nodes@.len() == v.nodes.len(),
                forall|k: int| 0 <= k < v.nodes.len() ==> #[trigger] self.nodes@[k] == next_node(v, k),
                self.epoch == v.epoch,
                self.accounts@ == v.accounts,
                self.min_stake == v.min_stake,
                self.committee_size == v.committee_size,
                self.protocol_stables == v.protocol_stables,
                self.protocol_flk == v.protocol_flk,
                self.delivery_acks@ == v.acks,
                self.reward_params == v.reward_params,
                prices@ == prices_of(v),
                emitted == epoch_emissions(v),
                rewards is Some <==> rewards_paid(v),
                rewards is Some ==> rewards->Some_0.service_stables@.len() == v.services.len()
                    && rewards->Some_0.service_flk@.len() == v.services.len(),
                rewards is Some ==> forall|k: int|
                    0 <= k < v.services.len() ==> {
                        &&& #[trigger] rewards->Some_0.service_stables@[k] == percent(
                            service_revenue(v.acks, prices_of(v), k),
                            v.reward_params.service_builder_share,
                        )
                        &&& rewards->Some_0.service_flk@[k] == split(
                            percent(emitted as int, v.reward_params.service_builder_share),
                            service_revenue(v.acks, prices_of(v), k),
                            total_revenue(v.acks, prices_of(v)),
                        )
                    },
                forall|k: int| 0 <= k < s ==> #[trigger] self.services@[k] == next_service(v, k),
                forall|k: int| s <= k < self.services@.len() ==> #[trigger] self.services@[k] == v.services[k],
            decreases self.services@.len() - s,
        {
            let mut r = self.services[s];
            match &rewards {
                Some(rw) => {
                    r.stables_balance = add_capped(r.stables_balance, rw.service_stables[s]);
                    r.flk_balance = add_capped(r.flk_balance, rw.service_flk[s]);
                },
                None => {},
            }
            self.services[s] = r;
            s = s + 1;
        }
        match &rewards {
            Some(rw) => {
                self.protocol_stables = add_capped(self.protocol_stables, rw.protocol_stables);
                self.protocol_flk = add_capped(self.protocol_flk, rw.protocol_flk);
            },
            None => {},
        }
        let e = if self.epoch == u64::MAX {
            self.epoch
        } else {
            self.epoch + 1
        };
        self.epoch = e;
        self.supply = supply;
        self.delivery_acks = Vec::new();
        let ghost past_before = self@.past;
        let mut finished = CommitteeRecord { epoch: e, members, ready_to_change: Vec::new() };
        core::mem::swap(&mut finished, &mut self.committee);
        self.past_committees.push(finished);
        assert(self@.past =~= past_before.push((v.epoch, v.members, v.ready)));
        self.last_epoch_hash = epoch_hash;
        self.beacon_phase = None;
        self.beacon_commits = Vec::new();
        self.beacon_reveals = Vec::new();
        self.beacon_timeouts = Vec::new();
        assert(self@.nodes =~= advance(v).nodes);
        assert(self@.services =~= advance(v).services);
        assert(self@.ready =~= Seq::<NodeIndex>::empty());
        assert(self@.acks =~= Seq::<DeliveryAck>::empty());
        assert(self@.commits =~= Seq::<(NodeIndex, Digest)>::empty());
        assert(self@.reveals =~= Seq::<(NodeIndex, Digest)>::empty());
        assert(self@.timeouts =~= Seq::<NodeIndex>::empty());
    }
}

impl AppState {
    pub open spec fn wf(&self) -> bool {
        view_wf(self@)
    }

    /// The position of the node with public key `key`.
    pub fn find_node(&self, key: &Digest) -> (r: Option<usize>)
        requires
            self.wf(),
        ensures
            match r {
                Some(i) => node_index_of(self@.nodes, key@) == Some(i as int),
                None => node_index_of(self@.nodes, key@) is None,
            },
    {
        let mut i: usize = 0;
        while i < self.nodes.len()
            invariant
                0 <= i <= self.nodes@.len(),
                self.wf(),
                forall|j: int| 0 <= j < i ==> self.nodes@[j].public_key@ != key@,
            decreases self.nodes@.len() - i,
        {
            if digest_eq(&self.nodes[i].public_key, key) {
                let ghost j = choose|j: int|
                    0 <= j < self.nodes@.len() && #[trigger] self.nodes@[j].public_key@ == key@;
                assert(self.nodes@[j].public_key@ == self.nodes@[i as int].public_key@);
                return Some(i);
            }
            i = i + 1;
        }
        None
    }

    /// The nonce of account `a`.
    pub fn get_account_nonce(&self, a: &Digest) -> (r: u64)
        ensures
            r == account_nonce(self.accounts@, a@),
    {
        let mut i: usize = self.accounts.len();
        assert(self.accounts@.subrange(0, i as int) =~= self.accounts@);
        while i > 0
            invariant
                0 <= i <= self.accounts@.len(),
                account_nonce(self.accounts@, a@) == account_nonce(
                    self.accounts@.subrange(0, i as int),
                    a@,
                ),
            decreases i,
        {
            let ghost prefix = self.accounts@.subrange(0, i as int);
            assert(prefix.drop_last() =~= self.accounts@.subrange(0, i - 1));
            if digest_eq(&self.accounts[i - 1].0, a) {
                return self.accounts[i - 1].1;
            }
            i = i - 1;
        }
        0
    }

    /// `ChangeEpoch { epoch }` from node `i`, once its nonce has been checked.
    pub fn change_epoch(&mut self, i: usize, epoch: Epoch) -> (r: Result<bool, ExecutionError>)
        requires
            old(self).wf(),
            i < old(self).nodes@.len(),
        ensures
            match change_epoch_outcome(old(self)@, i as int, epoch) {
                Err(e) => r == Err::<bool, ExecutionError>(e) && final(self)@ == old(self)@,
                Ok(true) => r == Ok::<bool, ExecutionError>(false) && final(self)@ == after_signal(old(self)@, i as int),
                Ok(false) => r == Ok::<bool, ExecutionError>(false) && final(self)@ == old(self)@,
            },
    {
        let index = i as NodeIndex;
        let stake = self.nodes[i].stake;
        let participation = self.nodes[i].participation;
        if stake.staked < self.min_stake && self.min_stake - stake.staked > stake.locked {
            return Err(ExecutionError::InsufficientStake);
        }
        if participation != Participation::True && participation != Participation::OptedOut {
            return Err(ExecutionError::NodeNotParticipating);
        }
        if epoch < self.epoch {
            return Err(ExecutionError::EpochAlreadyChanged);
        }
        if epoch > self.epoch {
            return Err(ExecutionError::EpochHasNotStarted);
        }
        if !contains_index(&self.committee.members, index) {
            return Err(ExecutionError::NotCommitteeMember);
        }
        if contains_index(&self.committee.ready_to_change, index) {
            return Err(ExecutionError::AlreadySignaled);
        }
        if participation != Participation::True || stake.staked < self.min_stake {
            return Ok(false);
        }
        insert_sorted(&mut self.committee.ready_to_change, index);
        let q = quorum_threshold(self.committee.members.len());
        if self.beacon_phase.is_none() && self.committee.ready_to_change.len() >= q {
            self.beacon_phase = Some(CommitteeSelectionBeaconPhase::Commit(self.epoch, 0));
        }
        Ok(false)
    }
}

} // verus!
