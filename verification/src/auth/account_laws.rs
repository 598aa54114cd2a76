//! Whose answers are good.
use vstd::prelude::*;

use crate::auth::mix::{lemma_xor_twice, xor};
use crate::auth::{
    account, account_of, caching_sha2, granted, native_password, plugin_text, sha1, sha256,
    AuthPlugin,
};
use crate::config::{environment_accounts, UserCredentialV};
use crate::text::lower;

verus! {

/// Whether `u` is the last account called `name`.
pub open spec fn is_account(
    users: Seq<UserCredentialV>,
    name: Seq<char>,
    u: UserCredentialV,
) -> bool {
    exists|i: int|
        {
            &&& 0 <= i < users.len()
            &&& #[trigger] users[i] == u
            &&& u.username == name
            &&& forall|j: int| i < j < users.len() ==> (#[trigger] users[j]).username != name
        }
}

proof fn lemma_account(users: Seq<UserCredentialV>, name: Seq<char>, n: int)
    requires
        0 <= n <= users.len(),
        forall|j: int| n <= j < users.len() ==> (#[trigger] users[j]).username != name,
    ensures
        match account(users, name, n) {
            Some(u) => is_account(users, name, u),
            None => forall|j: int| 0 <= j < users.len() ==> (#[trigger] users[j]).username != name,
        },
    decreases n,
{
    if n > 0 {
        if users[n - 1].username == name {
            assert(users[n - 1] == users[n - 1]);
        } else {
            lemma_account(users, name, n - 1);
        }
    }
}

/// An account is found by its name: the last one of that name, and none only if
/// no account has it. Nobody gets in under a name without an account, or with
/// another plugin than the account's.
pub proof fn law_accounts_are_found_by_name(
    users: Seq<UserCredentialV>,
    name: Seq<char>,
    plugin: AuthPlugin,
    answer: Seq<u8>,
    scramble: Seq<u8>,
)
    ensures
        match account_of(users, name) {
            Some(u) => is_account(users, name, u),
            None => forall|j: int| 0 <= j < users.len() ==> (#[trigger] users[j]).username != name,
        },
        granted(users, name, plugin, answer, scramble) ==> exists|u: UserCredentialV|
            #[trigger] is_account(users, name, u) && u.plugin == plugin && (u.verifier is None
                ==> answer.len() == 0) && (u.verifier is Some ==> answer.len() > 0),
{
    lemma_account(users, name, users.len() as int);
}

/// An answer is good under `mysql_native_password` exactly if it is a candidate
/// of 20 bytes, hidden by the digest of the scramble and what is stored, whose
/// own digest is what is stored. Without a password only no answer is good.
pub proof fn law_good_native_answers_know_the_secret(
    answer: Seq<u8>,
    scramble: Seq<u8>,
    h: Seq<u8>,
)
    ensures
        native_password::verifies(answer, scramble, Some(h)) <==> exists|c: Seq<u8>|
            {
                &&& c.len() == 20
                &&& #[trigger] sha1::digest_of(c) == h
                &&& answer == xor(c, sha1::digest_of(scramble + h))
            },
        native_password::verifies(answer, scramble, None) <==> answer == Seq::<u8>::empty(),
{
    let mask = sha1::digest_of(scramble + h);
    native_password::lemma_digest_len(scramble + h);
    if native_password::verifies(answer, scramble, Some(h)) {
        let c = xor(answer, mask);
        lemma_xor_twice(answer, mask);
        assert(c.len() == 20);
        assert(sha1::digest_of(c) == h);
    }
    if exists|c: Seq<u8>|
        {
            &&& c.len() == 20
            &&& #[trigger] sha1::digest_of(c) == h
            &&& answer == xor(c, sha1::digest_of(scramble + h))
        } {
        let c = choose|c: Seq<u8>|
            {
                &&& c.len() == 20
                &&& #[trigger] sha1::digest_of(c) == h
                &&& answer == xor(c, sha1::digest_of(scramble + h))
            };
        lemma_xor_twice(c, mask);
    }
    assert(answer.len() == 0 ==> answer =~= Seq::<u8>::empty());
}

/// The same under `caching_sha2_password`, with 32 bytes, the other digest, and
/// what is stored in front of the nonce.
pub proof fn law_good_sha2_answers_know_the_secret(answer: Seq<u8>, nonce: Seq<u8>, h: Seq<u8>)
    ensures
        caching_sha2::verifies(answer, nonce, Some(h)) <==> exists|c: Seq<u8>|
            {
                &&& c.len() == 32
                &&& #[trigger] sha256::digest_of(c) == h
                &&& answer == xor(c, sha256::digest_of(h + nonce))
            },
        caching_sha2::verifies(answer, nonce, None) <==> answer == Seq::<u8>::empty(),
{
    let mask = sha256::digest_of(h + nonce);
    caching_sha2::lemma_digest_len(h + nonce);
    if caching_sha2::verifies(answer, nonce, Some(h)) {
        let c = xor(answer, mask);
        lemma_xor_twice(answer, mask);
        assert(c.len() == 32);
        assert(sha256::digest_of(c) == h);
    }
    if exists|c: Seq<u8>|
        {
            &&& c.len() == 32
            &&& #[trigger] sha256::digest_of(c) == h
            &&& answer == xor(c, sha256::digest_of(h + nonce))
        } {
        let c = choose|c: Seq<u8>|
            {
                &&& c.len() == 32
                &&& #[trigger] sha256::digest_of(c) == h
                &&& answer == xor(c, sha256::digest_of(h + nonce))
            };
        lemma_xor_twice(c, mask);
    }
    assert(answer.len() == 0 ==> answer =~= Seq::<u8>::empty());
}

/// The environment makes no account without a name, and otherwise one of that
/// name: under the plugin that it names in any case, or else
/// `caching_sha2_password`, with a password exactly if it gives one that is not
/// empty. It is refused exactly if the plugin is not known.
pub proof fn law_environment_accounts(
    user: Option<Seq<char>>,
    password: Option<Seq<char>>,
    plugin: Option<Seq<char>>,
    kind: AuthPlugin,
)
    ensures
        user is None ==> (environment_accounts(user, password, plugin) matches Ok(us) && us.len()
            == 0),
        user is Some ==> match environment_accounts(user, password, plugin) {
            Ok(us) => {
                &&& us.len() == 1
                &&& us[0].username == user->0
                &&& plugin is None ==> us[0].plugin == AuthPlugin::CachingSha2Password
                &&& plugin is Some && lower(plugin->0) == plugin_text(kind) ==> us[0].plugin == kind
                &&& us[0].verifier is None <==> password is None || password->0.len() == 0
            },
            Err(_) => plugin is Some && lower(plugin->0) != plugin_text(kind),
        },
{
    crate::auth::law_plugin_names_read_back(kind);
}

} // verus!
