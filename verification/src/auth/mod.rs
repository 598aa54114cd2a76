//! Client authentication.
//!
//! Two plugins are implemented: `mysql_native_password` (SHA-1, legacy) and
//! `caching_sha2_password` (SHA-256, the MySQL 8.0 default). Each account is
//! configured for one of them; the server advertises a default in the
//! handshake and switches clients whose account uses the other.
use vstd::prelude::*;
use vstd::utf8::encode_utf8;

use crate::config::{credential, UserCredential, UserCredentialV};
use crate::seqs::{views, Duplicate};
use crate::text::same_text;

pub mod account_laws;
pub mod caching_sha2;
pub mod mix;
pub mod native_password;
pub mod padding_laws;
pub mod sha1;
pub mod sha256;
pub mod words;

verus! {

broadcast use crate::seqs::group_views;

/// The authentication plugin an account uses.
#[derive(Debug, Clone, Copy, PartialEq, Eq, Structural)]
pub enum AuthPlugin {
    /// `mysql_native_password`: SHA-1 challenge/response (legacy).
    MysqlNativePassword,
    /// `caching_sha2_password`: SHA-256 challenge/response.
    CachingSha2Password,
}

/// The plugin's name on the wire.
pub open spec fn plugin_text(plugin: AuthPlugin) -> Seq<char> {
    match plugin {
        AuthPlugin::MysqlNativePassword => "mysql_native_password"@,
        AuthPlugin::CachingSha2Password => "caching_sha2_password"@,
    }
}

/// The plugin with a given name on the wire.
pub open spec fn plugin_named(name: Seq<char>) -> Option<AuthPlugin> {
    if name == "mysql_native_password"@ {
        Some(AuthPlugin::MysqlNativePassword)
    } else if name == "caching_sha2_password"@ {
        Some(AuthPlugin::CachingSha2Password)
    } else {
        None
    }
}

/// Every plugin is found under its own name.
pub proof fn law_plugin_names_read_back(plugin: AuthPlugin)
    ensures
        plugin_named(plugin_text(plugin)) == Some(plugin),
{
    reveal_strlit("mysql_native_password");
    reveal_strlit("caching_sha2_password");
    assert("mysql_native_password"@[0] == 'm');
    assert("caching_sha2_password"@[0] == 'c');
}

impl AuthPlugin {
    /// The plugin's name as it appears in the handshake and in an auth-switch.
    pub fn wire_name(self) -> (r: &'static str)
        ensures
            r@ == plugin_text(self),
    {
        match self {
            AuthPlugin::MysqlNativePassword => "mysql_native_password",
            AuthPlugin::CachingSha2Password => "caching_sha2_password",
        }
    }

    /// The plugin with a given wire name; `None` for any that is not
    /// implemented.
    pub fn from_wire_name(name: &str) -> (r: Option<Self>)
        ensures
            r == plugin_named(name@),
    {
        if same_text(name, "mysql_native_password") {
            Some(AuthPlugin::MysqlNativePassword)
        } else if same_text(name, "caching_sha2_password") {
            Some(AuthPlugin::CachingSha2Password)
        } else {
            None
        }
    }
}

/// The result of attempting to authenticate a client.
#[derive(Debug, Clone, Copy, PartialEq, Eq, Structural)]
pub enum AuthOutcome {
    /// Credentials were accepted.
    Granted,
    /// Credentials were rejected.
    Denied,
}

/// Authenticates connecting clients against an in-memory credential table.
#[derive(Debug)]
pub struct Authenticator {
    users: Vec<UserCredential>,
}

impl View for Authenticator {
    type V = Seq<UserCredentialV>;

    closed spec fn view(&self) -> Seq<UserCredentialV> {
        views(self.users@)
    }
}

/// The account called `name` among the first `n`: the last one, if several
/// share the name.
pub open spec fn account(users: Seq<UserCredentialV>, name: Seq<char>, n: int) -> Option<
    UserCredentialV,
>
    decreases n,
{
    if n <= 0 || n > users.len() {
        None
    } else if users[n - 1].username == name {
        Some(users[n - 1])
    } else {
        account(users, name, n - 1)
    }
}

/// The account called `name`.
pub open spec fn account_of(users: Seq<UserCredentialV>, name: Seq<char>) -> Option<
    UserCredentialV,
> {
    account(users, name, users.len() as int)
}

/// Whether a response is good for an account. A stored verifier that is not
/// as long as its plugin's digests never is.
pub open spec fn accepts(u: UserCredentialV, auth_response: Seq<u8>, scramble: Seq<u8>) -> bool {
    match u.plugin {
        AuthPlugin::MysqlNativePassword => (u.verifier matches Some(h) ==> h.len() == 20)
            && native_password::verifies(auth_response, scramble, u.verifier),
        AuthPlugin::CachingSha2Password => (u.verifier matches Some(h) ==> h.len() == 32)
            && caching_sha2::verifies(auth_response, scramble, u.verifier),
    }
}

/// Whether a client gets in: it has to name an account, use that account's
/// plugin, and answer the challenge.
pub open spec fn granted(
    users: Seq<UserCredentialV>,
    username: Seq<char>,
    plugin: AuthPlugin,
    auth_response: Seq<u8>,
    scramble: Seq<u8>,
) -> bool {
    match account_of(users, username) {
        None => false,
        Some(u) => u.plugin == plugin && accepts(u, auth_response, scramble),
    }
}

fn fixed20(bytes: &Vec<u8>) -> (r: Option<[u8; 20]>)
    ensures
        match r {
            Some(a) => a@ == bytes@,
            None => bytes@.len() != 20,
        },
{
    if bytes.len() != 20 {
        return None;
    }
    let mut out: [u8; 20] = [0u8; 20];
    let mut i: usize = 0;
    while i < 20
        invariant
            i <= 20,
            bytes@.len() == 20,
            forall|k: int| 0 <= k < i ==> #[trigger] out@[k] == bytes@[k],
        decreases 20 - i,
    {
        out[i] = bytes[i];
        i = i + 1;
    }
    proof {
        assert(out@ =~= bytes@);
    }
    Some(out)
}

fn fixed32(bytes: &Vec<u8>) -> (r: Option<[u8; 32]>)
    ensures
        match r {
            Some(a) => a@ == bytes@,
            None => bytes@.len() != 32,
        },
{
    if bytes.len() != 32 {
        return None;
    }
    let mut out: [u8; 32] = [0u8; 32];
    let mut i: usize = 0;
    while i < 32
        invariant
            i <= 32,
            bytes@.len() == 32,
            forall|k: int| 0 <= k < i ==> #[trigger] out@[k] == bytes@[k],
        decreases 32 - i,
    {
        out[i] = bytes[i];
        i = i + 1;
    }
    proof {
        assert(out@ =~= bytes@);
    }
    Some(out)
}

impl Authenticator {
    /// Build an authenticator from a configured user list.
    pub fn new(users: &[UserCredential]) -> (r: Self)
        ensures
            r@ == views(users@),
    {
        let mut out: Vec<UserCredential> = Vec::new();
        let mut i: usize = 0;
        while i < users.len()
            invariant
                i <= users@.len(),
                out@.len() == i,
                forall|k: int| 0 <= k < i ==> (#[trigger] out@[k])@ == users@[k]@,
            decreases users@.len() - i,
        {
            out.push(users[i].duplicate());
            i = i + 1;
        }
        let r = Authenticator { users: out };
        proof {
            assert(r@ =~= views(users@));
        }
        r
    }

    fn find(&self, username: &str) -> (r: Option<usize>)
        ensures
            match r {
                Some(i) => i < self.users@.len() && account_of(self@, username@) == Some(
                    self.users@[i as int]@,
                ),
                None => account_of(self@, username@) is None,
            },
    {
        let mut i: usize = self.users.len();
        while i > 0
            invariant
                i <= self.users@.len(),
                account_of(self@, username@) == account(self@, username@, i as int),
            decreases i,
        {
            proof {
                assert(self@[i - 1] == self.users@[i - 1]@);
            }
            if same_text(self.users[i - 1].username.as_str(), username) {
                return Some(i - 1);
            }
            i = i - 1;
        }
        None
    }

    /// The auth plugin configured for `username`, if the account exists.
    pub fn plugin_for(&self, username: &str) -> (r: Option<AuthPlugin>)
        ensures
            r == (match account_of(self@, username@) {
                Some(u) => Some(u.plugin),
                None => None,
            }),
    {
        match self.find(username) {
            Some(i) => {
                Some(self.users[i].plugin)
            },
            None => None,
        }
    }

    /// Verify a client's auth-response for `username`, computed against
    /// `scramble` using `plugin`. An unknown user is denied just like a bad
    /// password.
    pub fn authenticate(
        &self,
        username: &str,
        plugin: AuthPlugin,
        auth_response: &[u8],
        scramble: &[u8],
    ) -> (r: AuthOutcome)
        ensures
            r == (if granted(self@, username@, plugin, auth_response@, scramble@) {
                AuthOutcome::Granted
            } else {
                AuthOutcome::Denied
            }),
    {
        let user = match self.find(username) {
            Some(i) => &self.users[i],
            None => {
                return AuthOutcome::Denied;
            },
        };
        if user.plugin != plugin {
            return AuthOutcome::Denied;
        }
        let ok: bool = match plugin {
            AuthPlugin::MysqlNativePassword => match &user.verifier {
                None => native_password::verify(auth_response, scramble, None),
                Some(bytes) => match fixed20(bytes) {
                    Some(hash) => native_password::verify(auth_response, scramble, Some(&hash)),
                    None => false,
                },
            },
            AuthPlugin::CachingSha2Password => match &user.verifier {
                None => caching_sha2::verify(auth_response, scramble, None),
                Some(bytes) => match fixed32(bytes) {
                    Some(hash) => caching_sha2::verify(auth_response, scramble, Some(&hash)),
                    None => false,
                },
            },
        };
        if ok {
            AuthOutcome::Granted
        } else {
            AuthOutcome::Denied
        }
    }
}

/// What a client of an account sends, knowing its password.
pub open spec fn answer(plugin: AuthPlugin, password: Seq<char>, scramble: Seq<u8>) -> Seq<u8> {
    match plugin {
        AuthPlugin::MysqlNativePassword => native_password::response(
            Some(encode_utf8(password)),
            scramble,
        ),
        AuthPlugin::CachingSha2Password => caching_sha2::reply_to(
            Some(encode_utf8(password)),
            scramble,
        ),
    }
}

/// A client that names an account, uses its plugin and knows its password gets
/// in, whatever the scramble; an account without a password takes the empty
/// answer.
pub proof fn law_right_password_gets_in(
    users: Seq<UserCredentialV>,
    username: Seq<char>,
    plugin: AuthPlugin,
    password: Seq<char>,
    scramble: Seq<u8>,
)
    requires
        account_of(users, username) == Some(credential(username, plugin, password)),
    ensures
        granted(users, username, plugin, answer(plugin, password, scramble), scramble),
{
    let p = encode_utf8(password);
    if password.len() > 0 {
        lemma_encoding_is_not_empty(password);
        native_password::law_right_password_is_accepted(p, scramble);
        caching_sha2::law_right_password_is_accepted(p, scramble);
        native_password::lemma_digest_len(sha1::digest_of(p));
        caching_sha2::lemma_digest_len(sha256::digest_of(p));
    } else {
        assert(password =~= Seq::empty());
        assert(p =~= Seq::empty());
    }
}

proof fn lemma_encoding_is_not_empty(s: Seq<char>)
    requires
        s.len() > 0,
    ensures
        encode_utf8(s).len() > 0,
{
}

/// A client that presents another plugin than the account's never gets in.
pub proof fn law_wrong_plugin_is_denied(
    users: Seq<UserCredentialV>,
    username: Seq<char>,
    plugin: AuthPlugin,
    auth_response: Seq<u8>,
    scramble: Seq<u8>,
)
    requires
        account_of(users, username) matches Some(u) ==> u.plugin != plugin,
    ensures
        !granted(users, username, plugin, auth_response, scramble),
{
}

} // verus!
