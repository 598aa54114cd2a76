//! Accounts and settings.
use vstd::prelude::*;
use vstd::utf8::encode_utf8;

use crate::auth::{caching_sha2, native_password, plugin_named, AuthPlugin};
use crate::bytes::push_bytes;
use crate::error::{Error, ErrorV};
use crate::seqs::{views, Duplicate};
use crate::text::{cat3, lower, to_lower};

verus! {

broadcast use crate::seqs::group_views;

/// The variable that names the account to create.
pub const USER_VARIABLE: &'static str = "MYSQLRUST_USER";

/// The variable that holds the account's password.
pub const PASSWORD_VARIABLE: &'static str = "MYSQLRUST_PASSWORD";

/// The variable that picks the account's auth plugin.
pub const AUTH_PLUGIN_VARIABLE: &'static str = "MYSQLRUST_AUTH_PLUGIN";

/// The variable that holds the address to listen on.
pub const LISTEN_ADDR_VARIABLE: &'static str = "MYSQLRUST_LISTEN_ADDR";

/// The variable that holds the directory for the on-disk log.
pub const DATA_DIR_VARIABLE: &'static str = "MYSQLRUST_DATA_DIR";

/// The largest packet payload accepted unless configured otherwise.
pub const DEFAULT_MAX_ALLOWED_PACKET: usize = 67108864;

/// The version reported to clients unless configured otherwise.
pub const DEFAULT_SERVER_VERSION: &'static str = "8.0.0-mysql-rust-0.1.0";

/// A configured account: a username, its auth plugin, and the plugin's stored
/// password verifier.
#[derive(Debug, Clone)]
pub struct UserCredential {
    pub username: String,
    /// Which auth plugin this account authenticates with.
    pub plugin: AuthPlugin,
    /// The stored password verifier (`None`: no password required). The
    /// plaintext is hashed at construction and never retained.
    pub verifier: Option<Vec<u8>>,
}

/// The content of a [`UserCredential`].
pub ghost struct UserCredentialV {
    pub username: Seq<char>,
    pub plugin: AuthPlugin,
    pub verifier: Option<Seq<u8>>,
}

impl View for UserCredential {
    type V = UserCredentialV;

    open spec fn view(&self) -> UserCredentialV {
        UserCredentialV {
            username: self.username@,
            plugin: self.plugin,
            verifier: match self.verifier {
                Some(v) => Some(v@),
                None => None,
            },
        }
    }
}

impl Duplicate for UserCredential {
    fn duplicate(&self) -> (r: Self) {
        let verifier: Option<Vec<u8>> = match &self.verifier {
            Some(v) => {
                let mut copy: Vec<u8> = Vec::new();
                push_bytes(&mut copy, v.as_slice());
                proof {
                    assert(copy@ =~= v@);
                }
                Some(copy)
            },
            None => None,
        };
        UserCredential { username: self.username.clone(), plugin: self.plugin, verifier }
    }
}

/// The account that a username, a plugin and a plaintext password make. An
/// empty password means that none is required.
pub open spec fn credential(username: Seq<char>, plugin: AuthPlugin, password: Seq<char>) -> UserCredentialV {
    UserCredentialV {
        username,
        plugin,
        verifier: if password.len() == 0 {
            None
        } else {
            Some(
                match plugin {
                    AuthPlugin::MysqlNativePassword => native_password::stored(
                        encode_utf8(password),
                    ),
                    AuthPlugin::CachingSha2Password => caching_sha2::stored_of(
                        encode_utf8(password),
                    ),
                },
            )
        },
    }
}

impl UserCredential {
    /// Build a `mysql_native_password` account from a plaintext password.
    pub fn with_password(username: &str, password: &str) -> (r: Self)
        ensures
            r@ == credential(username@, AuthPlugin::MysqlNativePassword, password@),
    {
        let verifier: Option<Vec<u8>> = if password.is_empty() {
            None
        } else {
            let hash: [u8; 20] = native_password::hash_password(password.as_bytes());
            let mut v: Vec<u8> = Vec::new();
            push_bytes(&mut v, hash.as_slice());
            proof {
                assert(v@ =~= hash@);
            }
            Some(v)
        };
        UserCredential {
            username: username.to_string(),
            plugin: AuthPlugin::MysqlNativePassword,
            verifier,
        }
    }

    /// Build a `caching_sha2_password` account from a plaintext password.
    pub fn with_caching_sha2_password(username: &str, password: &str) -> (r: Self)
        ensures
            r@ == credential(username@, AuthPlugin::CachingSha2Password, password@),
    {
        let verifier: Option<Vec<u8>> = if password.is_empty() {
            None
        } else {
            let hash: [u8; 32] = caching_sha2::hash_password(password.as_bytes());
            let mut v: Vec<u8> = Vec::new();
            push_bytes(&mut v, hash.as_slice());
            proof {
                assert(v@ =~= hash@);
            }
            Some(v)
        };
        UserCredential {
            username: username.to_string(),
            plugin: AuthPlugin::CachingSha2Password,
            verifier,
        }
    }
}

/// The accounts that the environment asks for: none without a username, and
/// otherwise one. The password is empty and the plugin
/// `caching_sha2_password` where unset; the plugin's name is taken in any case.
pub open spec fn environment_accounts(
    user: Option<Seq<char>>,
    password: Option<Seq<char>>,
    plugin: Option<Seq<char>>,
) -> Result<Seq<UserCredentialV>, ErrorV> {
    match user {
        None => Ok(Seq::empty()),
        Some(name) => {
            let chosen = match plugin {
                None => Some(AuthPlugin::CachingSha2Password),
                Some(p) => plugin_named(lower(p)),
            };
            match chosen {
                None => Err(
                    ErrorV::Auth("unknown auth plugin '"@ + plugin->Some_0 + "'"@),
                ),
                Some(kind) => Ok(
                    seq![
                        credential(
                            name,
                            kind,
                            match password {
                                Some(p) => p,
                                None => Seq::empty(),
                            },
                        ),
                    ],
                ),
            }
        },
    }
}

/// The accounts that the environment asks for, from the values of its
/// variables.
pub fn accounts_from_env(
    user: Option<&str>,
    password: Option<&str>,
    plugin: Option<&str>,
) -> (r: Result<Vec<UserCredential>, Error>)
    ensures
        match environment_accounts(
            match user {
                Some(s) => Some(s@),
                None => None,
            },
            match password {
                Some(s) => Some(s@),
                None => None,
            },
            match plugin {
                Some(s) => Some(s@),
                None => None,
            },
        ) {
            Ok(accounts) => r matches Ok(v) && views(v@) == accounts,
            Err(e) => r matches Err(x) && x@ == e,
        },
{
    let mut accounts: Vec<UserCredential> = Vec::new();
    let name = match user {
        None => {
            proof {
                assert(views(accounts@) =~= Seq::empty());
            }
            return Ok(accounts);
        },
        Some(name) => name,
    };
    let kind = match plugin {
        None => AuthPlugin::CachingSha2Password,
        Some(p) => match AuthPlugin::from_wire_name(to_lower(p).as_str()) {
            Some(kind) => kind,
            None => {
                return Err(Error::Auth(cat3("unknown auth plugin '", p, "'")));
            },
        },
    };
    let secret = match password {
        Some(p) => p,
        None => "",
    };
    proof {
        reveal_strlit("");
        assert(""@ =~= Seq::empty());
    }
    let account = match kind {
        AuthPlugin::MysqlNativePassword => UserCredential::with_password(name, secret),
        AuthPlugin::CachingSha2Password => UserCredential::with_caching_sha2_password(name, secret),
    };
    let ghost wanted = account@;
    accounts.push(account);
    proof {
        assert(views(accounts@) =~= seq![wanted]);
    }
    Ok(accounts)
}

} // verus!
