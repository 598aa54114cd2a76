use mysql_rust::auth::native_password::{compute_auth_response, hash_password, verify};

const SCRAMBLE_A: &[u8; 20] = b"01234567890123456789";
const SCRAMBLE_B: &[u8; 20] = b"scrambleAAAAAAAAAAAA";

#[test]
fn native_password_round_trip_compute_and_verify() {
    let hash = hash_password(b"hunter2");
    let response = compute_auth_response(Some(b"hunter2"), SCRAMBLE_A);
    assert!(verify(&response, SCRAMBLE_A, Some(&hash)));
}

#[test]
fn native_password_wrong_password_is_rejected() {
    let hash = hash_password(b"correct-horse");
    let response = compute_auth_response(Some(b"wrong-password"), SCRAMBLE_A);
    assert!(!verify(&response, SCRAMBLE_A, Some(&hash)));
}

#[test]
fn mismatched_scramble_is_rejected() {
    let hash = hash_password(b"hunter2");
    // Response computed against a different scramble than the one the
    // server actually sent (e.g. a stale/replayed response).
    let response = compute_auth_response(Some(b"hunter2"), SCRAMBLE_B);
    assert!(!verify(&response, SCRAMBLE_A, Some(&hash)));
}

#[test]
fn empty_password_requires_empty_response() {
    assert!(verify(b"", SCRAMBLE_A, None));
    assert!(!verify(b"not-empty-but-wrong-len", SCRAMBLE_A, None));
}

#[test]
fn compute_auth_response_is_empty_for_no_password() {
    assert!(compute_auth_response(None, SCRAMBLE_A).is_empty());
    assert!(compute_auth_response(Some(b""), SCRAMBLE_A).is_empty());
}

#[test]
fn different_scrambles_produce_different_responses() {
    let r1 = compute_auth_response(Some(b"hunter2"), SCRAMBLE_A);
    let r2 = compute_auth_response(Some(b"hunter2"), SCRAMBLE_B);
    assert_ne!(r1, r2);
}

#[test]
fn wrong_length_response_is_rejected_not_panicking() {
    let hash = hash_password(b"hunter2");
    assert!(!verify(&[1, 2, 3], SCRAMBLE_A, Some(&hash)));
}
