use mysql_rust::auth::{caching_sha2, native_password, AuthOutcome, AuthPlugin, Authenticator};
use mysql_rust::config::UserCredential;

fn scramble() -> [u8; 20] {
    *b"01234567890123456789"
}

#[test]
fn accepts_correct_native_password() {
    let users = vec![UserCredential::with_password("alice", "s3cret")];
    let auth = Authenticator::new(&users);
    let response = native_password::compute_auth_response(Some(b"s3cret"), &scramble());
    assert_eq!(
        auth.authenticate(
            "alice",
            AuthPlugin::MysqlNativePassword,
            &response,
            &scramble()
        ),
        AuthOutcome::Granted
    );
}

#[test]
fn rejects_wrong_native_password() {
    let users = vec![UserCredential::with_password("alice", "s3cret")];
    let auth = Authenticator::new(&users);
    let response = native_password::compute_auth_response(Some(b"wrong"), &scramble());
    assert_eq!(
        auth.authenticate(
            "alice",
            AuthPlugin::MysqlNativePassword,
            &response,
            &scramble()
        ),
        AuthOutcome::Denied
    );
}

#[test]
fn rejects_unknown_user() {
    let users = vec![UserCredential::with_password("alice", "s3cret")];
    let auth = Authenticator::new(&users);
    let response = native_password::compute_auth_response(Some(b"s3cret"), &scramble());
    assert_eq!(
        auth.authenticate(
            "bob",
            AuthPlugin::MysqlNativePassword,
            &response,
            &scramble()
        ),
        AuthOutcome::Denied
    );
}

#[test]
fn accepts_passwordless_user_with_empty_response() {
    let users = vec![UserCredential::with_password("guest", "")];
    let auth = Authenticator::new(&users);
    assert_eq!(
        auth.authenticate("guest", AuthPlugin::MysqlNativePassword, b"", &scramble()),
        AuthOutcome::Granted
    );
}

#[test]
fn accepts_correct_caching_sha2_password() {
    let users = vec![UserCredential::with_caching_sha2_password(
        "alice", "s3cret",
    )];
    let auth = Authenticator::new(&users);
    assert_eq!(
        auth.plugin_for("alice"),
        Some(AuthPlugin::CachingSha2Password)
    );
    let reply = caching_sha2::scramble(Some(b"s3cret"), &scramble());
    assert_eq!(
        auth.authenticate(
            "alice",
            AuthPlugin::CachingSha2Password,
            &reply,
            &scramble()
        ),
        AuthOutcome::Granted
    );
}

#[test]
fn rejects_wrong_caching_sha2_password() {
    let users = vec![UserCredential::with_caching_sha2_password(
        "alice", "s3cret",
    )];
    let auth = Authenticator::new(&users);
    let reply = caching_sha2::scramble(Some(b"nope"), &scramble());
    assert_eq!(
        auth.authenticate(
            "alice",
            AuthPlugin::CachingSha2Password,
            &reply,
            &scramble()
        ),
        AuthOutcome::Denied
    );
}

/// Presenting the wrong plugin for an account is denied even with an
/// otherwise-valid response — the server must switch the client to the
/// account's plugin first.
#[test]
fn rejects_plugin_mismatch() {
    let users = vec![UserCredential::with_caching_sha2_password(
        "alice", "s3cret",
    )];
    let auth = Authenticator::new(&users);
    let native = native_password::compute_auth_response(Some(b"s3cret"), &scramble());
    assert_eq!(
        auth.authenticate(
            "alice",
            AuthPlugin::MysqlNativePassword,
            &native,
            &scramble()
        ),
        AuthOutcome::Denied
    );
}

#[test]
fn plugin_for_unknown_user_is_none() {
    let auth = Authenticator::new(&[]);
    assert_eq!(auth.plugin_for("ghost"), None);
}
