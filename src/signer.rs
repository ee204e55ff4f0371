use vstd::prelude::*;

use crate::state::UpdateMethod;

verus! {

/// How often a transaction is sent before the signer gives up on it.
pub const MAX_RETRIES: u8 = 3;

/// How long, in milliseconds, the signer waits for its transactions to be
/// ordered before it sends them again.
pub const RESEND_TIMEOUT: u64 = 60000;

/// A transaction the node sent and that was not ordered yet.
#[derive(Clone, Copy)]
pub struct PendingTransaction {
    pub method: UpdateMethod,
    pub nonce: u64,
    pub secondary_nonce: u128,
    /// When it was last sent, in milliseconds.
    pub timestamp: u64,
    /// How often it was sent.
    pub tries: u8,
}

/// The nonces the node signs its transactions with, and those it waits for.
pub struct SignerState {
    /// The node's nonce in the application: transactions up to it are ordered.
    pub base_nonce: u64,
    pub next_nonce: u64,
    pub next_secondary_nonce: u128,
    /// When the oldest transaction still waited for was sent.
    pub base_timestamp: Option<u64>,
    /// Transactions sent and not ordered yet, oldest first.
    pub pending: Vec<PendingTransaction>,
}

/// How many transactions at the front of `pending` the application ordered.
pub open spec fn ordered_prefix(pending: Seq<PendingTransaction>, nonce: u64) -> nat
    decreases pending.len(),
{
    if pending.len() == 0 || pending[0].nonce > nonce {
        0
    } else {
        1 + ordered_prefix(pending.drop_first(), nonce)
    }
}

/// The transactions resent after a timeout, with the next nonces then: those
/// that do not revert (`reverts`, one flag each) and were sent fewer than
/// `MAX_RETRIES` times, each given the next nonce in turn (and a fresh
/// secondary nonce where its nonce changes) and the time `now`.
pub open spec fn resend_spec(
    pending: Seq<PendingTransaction>,
    reverts: Seq<bool>,
    nonce: u64,
    secondary: u128,
    now: u64,
) -> (Seq<PendingTransaction>, u64, u128)
    decreases pending.len(),
{
    if pending.len() == 0 {
        (seq![], nonce, secondary)
    } else {
        let t = pending[0];
        if reverts[0] || t.tries >= MAX_RETRIES {
            resend_spec(pending.drop_first(), reverts.drop_first(), nonce, secondary, now)
        } else {
            let u = PendingTransaction {
                nonce,
                secondary_nonce: if t.nonce != nonce {
                    secondary
                } else {
                    t.secondary_nonce
                },
                timestamp: now,
                ..t
            };
            let rest = resend_spec(
                pending.drop_first(),
                reverts.drop_first(),
                (nonce + 1) as u64,
                (secondary + 1) as u128,
                now,
            );
            (seq![u] + rest.0, rest.1, rest.2)
        }
    }
}

impl SignerState {
    /// The signer of a node whose nonce and secondary nonce in the application
    /// are `base_nonce` and `secondary_nonce`.
    pub fn init_state(base_nonce: u64, secondary_nonce: u128) -> (r: Self)
        requires
            base_nonce < u64::MAX,
            secondary_nonce < u128::MAX,
        ensures
            r.base_nonce == base_nonce,
            r.next_nonce == base_nonce + 1,
            r.next_secondary_nonce == secondary_nonce + 1,
            r.base_timestamp is None,
            r.pending@.len() == 0,
    {
        SignerState {
            base_nonce,
            next_nonce: base_nonce + 1,
            next_secondary_nonce: secondary_nonce + 1,
            base_timestamp: None,
            pending: Vec::new(),
        }
    }

    /// Assigns the next nonces to a new transaction sent at time `now` and
    /// waits for it; the caller signs and sends what is returned.
    pub fn sign_new_tx(&mut self, method: UpdateMethod, now: u64) -> (r: PendingTransaction)
        requires
            old(self).next_nonce < u64::MAX,
            old(self).next_secondary_nonce < u128::MAX,
        ensures
            r == (PendingTransaction {
                method,
                nonce: old(self).next_nonce,
                secondary_nonce: old(self).next_secondary_nonce,
                timestamp: now,
                tries: 1,
            }),
            final(self).pending@ == old(self).pending@.push(r),
            final(self).next_nonce == old(self).next_nonce + 1,
            final(self).next_secondary_nonce == old(self).next_secondary_nonce + 1,
            final(self).base_nonce == old(self).base_nonce,
            final(self).base_timestamp == if old(self).base_timestamp is None {
                Some(now)
            } else {
                old(self).base_timestamp
            },
    {
        let tx = PendingTransaction {
            method,
            nonce: self.next_nonce,
            secondary_nonce: self.next_secondary_nonce,
            timestamp: now,
            tries: 1,
        };
        self.next_nonce = self.next_nonce + 1;
        self.next_secondary_nonce = self.next_secondary_nonce + 1;
        self.pending.push(tx);
        if self.base_timestamp.is_none() {
            self.base_timestamp = Some(now);
        }
        tx
    }

    /// Takes up the node's nonces in the application after a new block, at time
    /// `now`: ordered transactions are no longer waited for. Returns whether the
    /// rest waited too long and must be resent, starting again from the nonce
    /// the application expects.
    pub fn sync_with_application(&mut self, application_nonce: u64, secondary_nonce: u128, now: u64) -> (r: bool)
        requires
            application_nonce < u64::MAX,
            secondary_nonce < u128::MAX,
        ensures
            final(self).base_nonce == application_nonce,
            final(self).next_secondary_nonce == if old(self).next_secondary_nonce > secondary_nonce {
                old(self).next_secondary_nonce
            } else {
                (secondary_nonce + 1) as u128
            },
            final(self).pending@ == old(self).pending@.skip(
                ordered_prefix(old(self).pending@, application_nonce) as int,
            ),
            final(self).pending@.len() == 0 ==> !r && final(self).base_timestamp is None
                && final(self).next_nonce == old(self).next_nonce,
            final(self).pending@.len() > 0 ==> (r <==> (old(self).base_timestamp matches Some(t)
                && t <= now && now - t >= RESEND_TIMEOUT)),
            final(self).pending@.len() > 0 && r ==> final(self).base_timestamp is None
                && final(self).next_nonce == application_nonce + 1,
            final(self).pending@.len() > 0 && !r ==> final(self).base_timestamp
                == old(self).base_timestamp && final(self).next_nonce == old(self).next_nonce,
    {
        self.base_nonce = application_nonce;
        if self.next_secondary_nonce <= secondary_nonce {
            self.next_secondary_nonce = secondary_nonce + 1;
        }
        let ghost all = self.pending@;
        proof {
            assert(all.skip(0) =~= all);
        }
        let ghost mut dropped: int = 0;
        while self.pending.len() > 0 && self.pending[0].nonce <= application_nonce
            invariant
                0 <= dropped <= all.len(),
                self.pending@ == all.skip(dropped),
                ordered_prefix(all, application_nonce) == dropped + ordered_prefix(
                    self.pending@,
                    application_nonce,
                ),
                self.base_nonce == application_nonce,
                self.next_nonce == old(self).next_nonce,
                self.base_timestamp == old(self).base_timestamp,
                self.next_secondary_nonce == (if old(self).next_secondary_nonce > secondary_nonce {
                    old(self).next_secondary_nonce
                } else {
                    (secondary_nonce + 1) as u128
                }),
            decreases self.pending@.len(),
        {
            let ghost before = self.pending@;
            self.pending.remove(0);
            proof {
                assert(self.pending@ =~= before.drop_first());
                assert(all.skip(dropped + 1) =~= before.drop_first());
                dropped = dropped + 1;
            }
        }
        if self.pending.len() == 0 {
            self.base_timestamp = None;
            return false;
        }
        match self.base_timestamp {
            Some(t) => {
                if t <= now && now - t >= RESEND_TIMEOUT {
                    self.base_timestamp = None;
                    self.next_nonce = application_nonce + 1;
                    true
                } else {
                    false
                }
            },
            None => false,
        }
    }

    /// Prepares the resending of every transaction waited for, at time `now`:
    /// those that would now revert (`reverts`, one flag each, from simulating
    /// them) or were sent `MAX_RETRIES` times are given up; the others get the
    /// next nonces. The caller signs and sends the transactions that remain, and
    /// records each one sent.
    pub fn resend(&mut self, reverts: &Vec<bool>, now: u64)
        requires
            reverts@.len() == old(self).pending@.len(),
            old(self).next_nonce + old(self).pending@.len() <= u64::MAX,
            old(self).next_secondary_nonce + old(self).pending@.len() <= u128::MAX,
        ensures
            ({
                let (kept, nonce, secondary) = resend_spec(
                    old(self).pending@,
                    reverts@,
                    old(self).next_nonce,
                    old(self).next_secondary_nonce,
                    now,
                );
                &&& final(self).pending@ == kept
                &&& final(self).next_nonce == nonce
                &&& final(self).next_secondary_nonce == secondary
                &&& final(self).base_nonce == old(self).base_nonce
                &&& final(self).base_timestamp == if old(self).base_timestamp is None && kept.len() > 0 {
                    Some(now)
                } else {
                    old(self).base_timestamp
                }
            }),
    {
        let ghost all = self.pending@;
        let ghost flags = reverts@;
        let mut kept: Vec<PendingTransaction> = Vec::new();
        let mut i: usize = 0;
        proof {
            assert(all.skip(0) =~= all);
            assert(flags.skip(0) =~= flags);
        }
        while i < self.pending.len()
            invariant
                0 <= i <= all.len(),
                self.pending@ == all,
                reverts@ == flags,
                flags.len() == all.len(),
                self.base_nonce == old(self).base_nonce,
                self.base_timestamp == old(self).base_timestamp,
                self.next_nonce + (all.len() - i) <= u64::MAX,
                self.next_secondary_nonce + (all.len() - i) <= u128::MAX,
                resend_spec(all, flags, old(self).next_nonce, old(self).next_secondary_nonce, now) == ({
                    let rest = resend_spec(
                        all.skip(i as int),
                        flags.skip(i as int),
                        self.next_nonce,
                        self.next_secondary_nonce,
                        now,
                    );
                    (kept@ + rest.0, rest.1, rest.2)
                }),
            decreases all.len() - i,
        {
            let t = self.pending[i];
            let ghost tail = all.skip(i as int);
            let ghost ftail = flags.skip(i as int);
            assert(tail[0] == t);
            assert(ftail[0] == reverts@[i as int]);
            assert(tail.drop_first() =~= all.skip(i + 1));
            assert(ftail.drop_first() =~= flags.skip(i + 1));
            if !reverts[i] && t.tries < MAX_RETRIES {
                let secondary_nonce = if t.nonce != self.next_nonce {
                    self.next_secondary_nonce
                } else {
                    t.secondary_nonce
                };
                let u = PendingTransaction {
                    method: t.method,
                    nonce: self.next_nonce,
                    secondary_nonce,
                    timestamp: now,
                    tries: t.tries,
                };
                let ghost before = kept@;
                kept.push(u);
                proof {
                    let rest = resend_spec(
                        all.skip(i + 1),
                        flags.skip(i + 1),
                        (self.next_nonce + 1) as u64,
                        (self.next_secondary_nonce + 1) as u128,
                        now,
                    );
                    assert(before + (seq![u] + rest.0) =~= kept@ + rest.0);
                }
                self.next_nonce = self.next_nonce + 1;
                self.next_secondary_nonce = self.next_secondary_nonce + 1;
            }
            i = i + 1;
        }
        proof {
            assert(all.skip(i as int) =~= Seq::<PendingTransaction>::empty());
            assert(kept@ + Seq::<PendingTransaction>::empty() =~= kept@);
        }
        if self.base_timestamp.is_none() && kept.len() > 0 {
            self.base_timestamp = Some(now);
        }
        self.pending = kept;
    }

    /// Records that the `i`-th transaction waited for was sent once more.
    pub fn record_sent(&mut self, i: usize)
        requires
            i < old(self).pending@.len(),
        ensures
            final(self).pending@ == old(self).pending@.update(
                i as int,
                PendingTransaction {
                    tries: if old(self).pending@[i as int].tries < u8::MAX {
                        (old(self).pending@[i as int].tries + 1) as u8
                    } else {
                        u8::MAX
                    },
                    ..old(self).pending@[i as int]
                },
            ),
            final(self).base_nonce == old(self).base_nonce,
            final(self).next_nonce == old(self).next_nonce,
            final(self).next_secondary_nonce == old(self).next_secondary_nonce,
            final(self).base_timestamp == old(self).base_timestamp,
    {
        let mut t = self.pending[i];
        if t.tries < u8::MAX {
            t.tries = t.tries + 1;
        }
        self.pending[i] = t;
    }
}

} // verus!
