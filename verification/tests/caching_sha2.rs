use mysql_rust::auth::caching_sha2::{hash_password, scramble, verify, FAST_AUTH_RESPONSE_LEN};
use mysql_rust::auth::sha256;

const NONCE_A: &[u8; 20] = b"01234567890123456789";
const NONCE_B: &[u8; 20] = b"scrambleAAAAAAAAAAAA";

#[test]
fn caching_sha2_round_trip_compute_and_verify() {
    let stored = hash_password(b"hunter2");
    let reply = scramble(Some(b"hunter2"), NONCE_A);
    assert_eq!(reply.len(), FAST_AUTH_RESPONSE_LEN);
    assert!(verify(&reply, NONCE_A, Some(&stored)));
}

#[test]
fn caching_sha2_wrong_password_is_rejected() {
    let stored = hash_password(b"correct-horse");
    let reply = scramble(Some(b"wrong-password"), NONCE_A);
    assert!(!verify(&reply, NONCE_A, Some(&stored)));
}

#[test]
fn mismatched_nonce_is_rejected() {
    let stored = hash_password(b"hunter2");
    // Reply computed against a different nonce than the server sent
    // (e.g. a stale/replayed response) must not verify.
    let reply = scramble(Some(b"hunter2"), NONCE_B);
    assert!(!verify(&reply, NONCE_A, Some(&stored)));
}

#[test]
fn empty_password_requires_empty_reply() {
    assert!(verify(b"", NONCE_A, None));
    assert!(!verify(b"not-empty", NONCE_A, None));
}

#[test]
fn compute_reply_is_empty_for_no_password() {
    assert!(scramble(None, NONCE_A).is_empty());
    assert!(scramble(Some(b""), NONCE_A).is_empty());
}

#[test]
fn different_nonces_produce_different_replies() {
    let r1 = scramble(Some(b"hunter2"), NONCE_A);
    let r2 = scramble(Some(b"hunter2"), NONCE_B);
    assert_ne!(r1, r2);
}

#[test]
fn wrong_length_reply_is_rejected_not_panicking() {
    let stored = hash_password(b"hunter2");
    assert!(!verify(&[1, 2, 3], NONCE_A, Some(&stored)));
    assert!(!verify(&[0u8; 64], NONCE_A, Some(&stored)));
}

/// The stored verifier is the double SHA-256 of the password, and differs
/// from the single hash — a sanity check on which digest we persist.
#[test]
fn stored_is_double_sha256() {
    let once = sha256::digest(b"hunter2");
    let twice = sha256::digest(&once);
    assert_eq!(hash_password(b"hunter2"), twice);
    assert_ne!(hash_password(b"hunter2"), once);
}
