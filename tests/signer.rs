use lightning_core::signer::{SignerState, MAX_RETRIES, RESEND_TIMEOUT};
use lightning_core::state::UpdateMethod;

#[test]
fn new_transactions_take_consecutive_nonces() {
    let mut s = SignerState::init_state(4, 10);
    let a = s.sign_new_tx(UpdateMethod::OptIn, 100);
    let b = s.sign_new_tx(UpdateMethod::OptOut, 200);
    assert_eq!((a.nonce, a.secondary_nonce, a.tries), (5, 11, 1));
    assert_eq!((b.nonce, b.secondary_nonce), (6, 12));
    assert_eq!(s.base_timestamp, Some(100));
    assert_eq!(s.pending.len(), 2);
}

#[test]
fn ordered_transactions_are_dropped() {
    let mut s = SignerState::init_state(0, 0);
    for t in 0..3u64 {
        s.sign_new_tx(UpdateMethod::OptIn, t);
    }
    assert!(!s.sync_with_application(2, 5, 10));
    assert_eq!(s.pending.len(), 1);
    assert_eq!(s.pending[0].nonce, 3);
    assert_eq!(s.base_nonce, 2);
    assert_eq!(s.next_secondary_nonce, 6);
    assert!(!s.sync_with_application(3, 0, 20));
    assert!(s.pending.is_empty());
    assert_eq!(s.base_timestamp, None);
}

#[test]
fn stale_transactions_are_resent_with_fresh_nonces() {
    let mut s = SignerState::init_state(0, 0);
    for _ in 0..3 {
        s.sign_new_tx(UpdateMethod::OptIn, 0);
    }
    // Nothing ordered, and the timeout passed: resend from nonce 1.
    assert!(s.sync_with_application(0, 0, RESEND_TIMEOUT));
    assert_eq!(s.next_nonce, 1);
    // The first one would now revert.
    s.resend(&vec![true, false, false], RESEND_TIMEOUT + 1);
    assert_eq!(s.pending.len(), 2);
    assert_eq!(s.pending[0].nonce, 1);
    assert_eq!(s.pending[1].nonce, 2);
    assert_eq!(s.pending[0].secondary_nonce, 4);
    assert_eq!(s.pending[0].timestamp, RESEND_TIMEOUT + 1);
    assert_eq!(s.next_nonce, 3);
    assert_eq!(s.base_timestamp, Some(RESEND_TIMEOUT + 1));
    for i in 0..2 {
        s.record_sent(i);
    }
    assert_eq!(s.pending[0].tries, 2);
}

#[test]
fn transactions_are_given_up_after_retries() {
    let mut s = SignerState::init_state(0, 0);
    s.sign_new_tx(UpdateMethod::OptIn, 0);
    for _ in 1..MAX_RETRIES {
        s.record_sent(0);
    }
    assert!(s.sync_with_application(0, 0, RESEND_TIMEOUT));
    s.resend(&vec![false], RESEND_TIMEOUT);
    assert!(s.pending.is_empty());
    assert_eq!(s.base_timestamp, None);
}

#[test]
fn no_resend_before_timeout() {
    let mut s = SignerState::init_state(0, 0);
    s.sign_new_tx(UpdateMethod::OptIn, 1000);
    assert!(!s.sync_with_application(0, 0, 1000 + RESEND_TIMEOUT - 1));
    assert_eq!(s.base_timestamp, Some(1000));
    assert_eq!(s.next_nonce, 2);
}
