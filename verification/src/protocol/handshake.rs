//! The initial handshake exchange: the server's `HandshakeV10` and the
//! client's `HandshakeResponse41`.
use vstd::prelude::*;
use vstd::utf8::{decode_utf8, encode_utf8, valid_utf8};
use std::collections::hash_map::RandomState;
use std::hash::BuildHasher;

use crate::bytes::{
    copy_range, le, le_value, lemma_le_len, lemma_le_value_bound, lemma_pow256, push_bytes, push_le,
    push_repeated, read_le,
};
use crate::error::{Error, ErrorV};
use crate::protocol::capabilities::{
    CLIENT_CONNECT_WITH_DB, CLIENT_DEPRECATE_EOF, CLIENT_LONG_PASSWORD, CLIENT_MULTI_STATEMENTS,
    CLIENT_PLUGIN_AUTH, CLIENT_PLUGIN_AUTH_LENENC_CLIENT_DATA, CLIENT_PROTOCOL_41,
    CLIENT_SECURE_CONNECTION, CLIENT_SSL,
};
use crate::protocol::lenenc::{dec_int, read_lenenc_int};
use crate::protocol::packet::{builds, seal, sealed, Packet};
use crate::protocol::response::DEFAULT_STATUS_FLAGS;
use crate::seqs::opt_view;
use crate::text::{cat3, decimal, string_from_utf8, u64_text};

verus! {

/// Length in bytes of the auth challenge ("scramble").
pub const SCRAMBLE_LEN: usize = 20;

/// `utf8mb4_general_ci`; a broadly compatible collation id to report before
/// the client picks its own.
pub const DEFAULT_CHARACTER_SET: u8 = 45;

/// The server's initial handshake (protocol version 10).
#[derive(Debug, Clone)]
pub struct Handshake {
    pub protocol_version: u8,
    pub server_version: String,
    pub connection_id: u32,
    /// The random auth challenge sent to the client.
    pub auth_plugin_data: [u8; 20],
    pub capability_flags: u32,
    pub character_set: u8,
    pub status_flags: u16,
    pub auth_plugin_name: String,
}

/// The content of a [`Handshake`].
pub ghost struct HandshakeV {
    pub protocol_version: u8,
    pub server_version: Seq<char>,
    pub connection_id: u32,
    pub auth_plugin_data: Seq<u8>,
    pub capability_flags: u32,
    pub character_set: u8,
    pub status_flags: u16,
    pub auth_plugin_name: Seq<char>,
}

impl View for Handshake {
    type V = HandshakeV;

    open spec fn view(&self) -> HandshakeV {
        HandshakeV {
            protocol_version: self.protocol_version,
            server_version: self.server_version@,
            connection_id: self.connection_id,
            auth_plugin_data: self.auth_plugin_data@,
            capability_flags: self.capability_flags,
            character_set: self.character_set,
            status_flags: self.status_flags,
            auth_plugin_name: self.auth_plugin_name@,
        }
    }
}

/// The capabilities this server offers.
pub open spec fn server_flags(tls_available: bool) -> u32 {
    let base = CLIENT_LONG_PASSWORD | CLIENT_CONNECT_WITH_DB | CLIENT_PROTOCOL_41
        | CLIENT_SECURE_CONNECTION | CLIENT_PLUGIN_AUTH | CLIENT_PLUGIN_AUTH_LENENC_CLIENT_DATA
        | CLIENT_DEPRECATE_EOF | CLIENT_MULTI_STATEMENTS;
    if tls_available {
        base | CLIENT_SSL
    } else {
        base
    }
}

/// A random byte taken into the printable range `33..=126`, so that no byte
/// of a scramble is NUL.
pub open spec fn printable(b: u8) -> u8 {
    (33 + b * 94 / 256) as u8
}

/// Whether every byte of a scramble is printable.
pub open spec fn all_printable(s: Seq<u8>) -> bool {
    forall|i: int| 0 <= i < s.len() ==> 33 <= #[trigger] s[i] <= 126
}

/// A scramble made of random bytes.
pub fn scramble_of(raw: &[u8; 20]) -> (r: [u8; 20])
    ensures
        r@ == Seq::new(20, |i: int| printable(raw@[i])),
        all_printable(r@),
{
    let mut out: [u8; 20] = [0u8; 20];
    let mut i: usize = 0;
    while i < 20
        invariant
            i <= 20,
            forall|k: int|
                0 <= k < i ==> #[trigger] out@[k] == printable(raw@[k]) && 33 <= out@[k] <= 126,
        decreases 20 - i,
    {
        let b: u16 = raw[i] as u16;
        let scaled: u16 = b * 94 / 256;
        out[i] = 33 + scaled as u8;
        i = i + 1;
    }
    proof {
        assert(out@ =~= Seq::new(20, |i: int| printable(raw@[i])));
    }
    out
}

/// `std::hash::RandomState::new`: hasher keys that are seeded from the
/// operating system. Nothing is claimed of them.
#[verifier::external_body]
fn fresh_state() -> (r: RandomState) {
    RandomState::new()
}

/// `std::hash::BuildHasher::hash_one`: the hash of `i` under the keys of
/// `state`. As the keys are random, nothing is claimed of the result.
#[verifier::external_body]
fn draw(state: &RandomState, i: usize) -> (r: u64) {
    state.hash_one(i)
}

/// Unpredictable bytes, made of what three fresh hashers give for the places
/// 0, 8 and 16. Any bytes may come out.
fn random_bytes() -> (r: [u8; 20]) {
    let first: u64 = draw(&fresh_state(), 0);
    let second: u64 = draw(&fresh_state(), 8);
    let third: u64 = draw(&fresh_state(), 16);
    bytes_of_words(first, second, third)
}

/// The first 20 of the 24 bytes of three words, each word with its least
/// significant byte first.
pub open spec fn word_bytes(first: u64, second: u64, third: u64) -> Seq<u8> {
    (le(first as nat, 8) + le(second as nat, 8) + le(third as nat, 8)).take(20)
}

/// The bytes of three words, as many as a scramble has.
pub fn bytes_of_words(first: u64, second: u64, third: u64) -> (r: [u8; 20])
    ensures
        r@ == word_bytes(first, second, third),
{
    let mut drawn: Vec<u8> = Vec::new();
    push_le(&mut drawn, first, 8);
    push_le(&mut drawn, second, 8);
    push_le(&mut drawn, third, 8);
    proof {
        lemma_le_len(first as nat, 8);
        lemma_le_len(second as nat, 8);
        lemma_le_len(third as nat, 8);
        assert(drawn@ =~= le(first as nat, 8) + le(second as nat, 8) + le(third as nat, 8));
    }
    let mut bytes: [u8; 20] = [0u8; 20];
    let mut i: usize = 0;
    while i < 20
        invariant
            i <= 20,
            drawn@.len() == 24,
            forall|k: int| 0 <= k < i ==> #[trigger] bytes@[k] == drawn@[k],
        decreases 20 - i,
    {
        bytes[i] = drawn[i];
        i = i + 1;
    }
    proof {
        assert(bytes@ =~= drawn@.take(20));
    }
    bytes
}

/// Generate a fresh scramble for the auth challenge. Its bytes are printable;
/// which ones they are is left to chance.
pub fn generate_scramble() -> (r: [u8; 20])
    ensures
        all_printable(r@),
{
    let raw: [u8; 20] = random_bytes();
    scramble_of(&raw)
}

/// The handshake of this server with a given scramble.
pub open spec fn standard_handshake(
    connection_id: u32,
    server_version: Seq<char>,
    tls_available: bool,
    auth_plugin_name: Seq<char>,
    scramble: Seq<u8>,
) -> HandshakeV {
    HandshakeV {
        protocol_version: 10,
        server_version,
        connection_id,
        auth_plugin_data: scramble,
        capability_flags: server_flags(tls_available),
        character_set: DEFAULT_CHARACTER_SET,
        status_flags: DEFAULT_STATUS_FLAGS,
        auth_plugin_name,
    }
}

/// The payload of a handshake.
pub open spec fn handshake_payload(h: HandshakeV) -> Seq<u8> {
    let lower = (h.capability_flags & 0xFFFF) as nat;
    let upper = ((h.capability_flags >> 16) & 0xFFFF) as nat;
    let plugin_auth = h.capability_flags & CLIENT_PLUGIN_AUTH != 0;
    let secure = h.capability_flags & CLIENT_SECURE_CONNECTION != 0;
    seq![h.protocol_version] + encode_utf8(h.server_version) + seq![0u8] + le(
        h.connection_id as nat,
        4,
    ) + h.auth_plugin_data.subrange(0, 8) + seq![0u8] + le(lower, 2) + seq![h.character_set] + le(
        h.status_flags as nat,
        2,
    ) + le(upper, 2) + seq![
        if plugin_auth {
            21u8
        } else {
            0u8
        },
    ] + Seq::new(10, |i: int| 0u8) + (if secure {
        h.auth_plugin_data.subrange(8, 20) + seq![0u8]
    } else {
        Seq::empty()
    }) + (if plugin_auth {
        encode_utf8(h.auth_plugin_name) + seq![0u8]
    } else {
        Seq::empty()
    })
}

impl Handshake {
    /// Build a handshake with the server's standard capabilities and a fresh
    /// random scramble. `tls_available` adds `CLIENT_SSL`; `auth_plugin_name`
    /// is the plugin the server advertises as its default.
    pub fn new(
        connection_id: u32,
        server_version: String,
        tls_available: bool,
        auth_plugin_name: &str,
    ) -> (r: Self)
        ensures
            all_printable(r.auth_plugin_data@),
            r@ == standard_handshake(
                connection_id,
                server_version@,
                tls_available,
                auth_plugin_name@,
                r.auth_plugin_data@,
            ),
    {
        Handshake::with_scramble(
            connection_id,
            server_version,
            tls_available,
            auth_plugin_name,
            generate_scramble(),
        )
    }

    /// Build a handshake around a given scramble.
    pub fn with_scramble(
        connection_id: u32,
        server_version: String,
        tls_available: bool,
        auth_plugin_name: &str,
        scramble: [u8; 20],
    ) -> (r: Self)
        ensures
            r.auth_plugin_data == scramble,
            r@ == standard_handshake(
                connection_id,
                server_version@,
                tls_available,
                auth_plugin_name@,
                scramble@,
            ),
    {
        let base: u32 = CLIENT_LONG_PASSWORD | CLIENT_CONNECT_WITH_DB | CLIENT_PROTOCOL_41
            | CLIENT_SECURE_CONNECTION | CLIENT_PLUGIN_AUTH | CLIENT_PLUGIN_AUTH_LENENC_CLIENT_DATA
            | CLIENT_DEPRECATE_EOF | CLIENT_MULTI_STATEMENTS;
        let capability_flags: u32 = if tls_available {
            base | CLIENT_SSL
        } else {
            base
        };
        Handshake {
            protocol_version: 10,
            server_version,
            connection_id,
            auth_plugin_data: scramble,
            capability_flags,
            character_set: DEFAULT_CHARACTER_SET,
            status_flags: DEFAULT_STATUS_FLAGS,
            auth_plugin_name: auth_plugin_name.to_string(),
        }
    }

    /// Encode this handshake into a protocol packet with the given sequence
    /// id.
    pub fn to_packet(&self, sequence_id: u8) -> (r: Result<Packet, Error>)
        ensures
            builds(r, sealed("handshake"@, sequence_id, handshake_payload(self@))),
    {
        let mut payload: Vec<u8> = Vec::new();
        payload.push(self.protocol_version);
        push_bytes(&mut payload, self.server_version.as_str().as_bytes());
        payload.push(0);
        push_le(&mut payload, self.connection_id as u64, 4);
        push_bytes(
            &mut payload,
            vstd::slice::slice_subrange(self.auth_plugin_data.as_slice(), 0, 8),
        );
        payload.push(0);
        push_le(&mut payload, (self.capability_flags & 0xFFFF) as u64, 2);
        payload.push(self.character_set);
        push_le(&mut payload, self.status_flags as u64, 2);
        push_le(&mut payload, ((self.capability_flags >> 16) & 0xFFFF) as u64, 2);
        if self.capability_flags & CLIENT_PLUGIN_AUTH != 0 {
            // The scramble's length, including its own NUL terminator.
            payload.push(21);
        } else {
            payload.push(0);
        }
        push_repeated(&mut payload, 0, 10);
        if self.capability_flags & CLIENT_SECURE_CONNECTION != 0 {
            push_bytes(
                &mut payload,
                vstd::slice::slice_subrange(self.auth_plugin_data.as_slice(), 8, 20),
            );
            payload.push(0);
        }
        if self.capability_flags & CLIENT_PLUGIN_AUTH != 0 {
            push_bytes(&mut payload, self.auth_plugin_name.as_str().as_bytes());
            payload.push(0);
        }
        proof {
            assert(payload@ =~= handshake_payload(self@));
        }
        seal("handshake", sequence_id, payload)
    }
}

// ---------- the client's reply ----------

/// The client's reply to `HandshakeV10`, protocol 4.1 form.
#[derive(Debug, Clone)]
pub struct HandshakeResponse41 {
    pub capability_flags: u32,
    pub max_packet_size: u32,
    pub character_set: u8,
    pub username: String,
    pub auth_response: Vec<u8>,
    pub database: Option<String>,
    pub auth_plugin_name: Option<String>,
}

/// The content of a [`HandshakeResponse41`].
pub ghost struct HandshakeResponseV {
    pub capability_flags: u32,
    pub max_packet_size: u32,
    pub character_set: u8,
    pub username: Seq<char>,
    pub auth_response: Seq<u8>,
    pub database: Option<Seq<char>>,
    pub auth_plugin_name: Option<Seq<char>>,
}

impl View for HandshakeResponse41 {
    type V = HandshakeResponseV;

    open spec fn view(&self) -> HandshakeResponseV {
        HandshakeResponseV {
            capability_flags: self.capability_flags,
            max_packet_size: self.max_packet_size,
            character_set: self.character_set,
            username: self.username@,
            auth_response: self.auth_response@,
            database: opt_view(self.database),
            auth_plugin_name: opt_view(self.auth_plugin_name),
        }
    }
}

/// Where the first zero at or after `i` stands.
pub open spec fn zero_from(b: Seq<u8>, i: int) -> Option<int>
    decreases b.len() - i,
{
    if i < 0 || i >= b.len() {
        None
    } else if b[i] == 0 {
        Some(i)
    } else {
        zero_from(b, i + 1)
    }
}

/// Bytes up to a NUL, and the place behind it.
pub open spec fn dec_nul_bytes(b: Seq<u8>, start: int) -> Result<(Seq<u8>, int), ErrorV> {
    if start > b.len() {
        Err(ErrorV::Protocol("unexpected end of handshake response"@))
    } else {
        match zero_from(b, start) {
            None => Err(ErrorV::Protocol("expected NUL-terminated data, found none"@)),
            Some(end) => Ok((b.subrange(start, end), end + 1)),
        }
    }
}

/// A text up to a NUL, and the place behind it.
pub open spec fn dec_nul_text(b: Seq<u8>, start: int) -> Result<(Seq<char>, int), ErrorV> {
    match dec_nul_bytes(b, start) {
        Err(e) => Err(e),
        Ok((bytes, next)) => if valid_utf8(bytes) {
            Ok((decode_utf8(bytes), next))
        } else {
            Err(ErrorV::Protocol("expected a UTF-8 string in handshake response"@))
        },
    }
}

/// `len` bytes at `pos`, and the place behind them.
pub open spec fn dec_counted(b: Seq<u8>, pos: int, len: nat) -> Result<(Seq<u8>, int), ErrorV> {
    if pos + len > usize::MAX {
        Err(ErrorV::Protocol("handshake response: length overflow"@))
    } else if pos + len > b.len() {
        Err(ErrorV::Protocol("handshake response: truncated auth-response"@))
    } else {
        Ok((b.subrange(pos, pos + len), pos + len))
    }
}

/// The auth-response at `pos`: length-encoded, counted by one byte, or ended
/// by a NUL, as the capabilities say.
pub open spec fn dec_auth_response(b: Seq<u8>, flags: u32, pos: int) -> Result<
    (Seq<u8>, int),
    ErrorV,
> {
    if flags & CLIENT_PLUGIN_AUTH_LENENC_CLIENT_DATA != 0 {
        match dec_int(b.subrange(pos, b.len() as int)) {
            Err(e) => Err(e),
            Ok((len, used)) => dec_counted(b, pos + used, len),
        }
    } else if flags & CLIENT_SECURE_CONNECTION != 0 {
        if pos >= b.len() {
            Err(ErrorV::Protocol("handshake response: missing auth-response length"@))
        } else {
            dec_counted(b, pos + 1, b[pos] as nat)
        }
    } else {
        dec_nul_bytes(b, pos)
    }
}

/// An optional text that is there if a capability says so.
pub open spec fn dec_optional(b: Seq<u8>, present: bool, pos: int) -> Result<
    (Option<Seq<char>>, int),
    ErrorV,
> {
    if present {
        match dec_nul_text(b, pos) {
            Ok((s, next)) => Ok((Some(s), next)),
            Err(e) => Err(e),
        }
    } else {
        Ok((None, pos))
    }
}

/// What a handshake response says. Anything behind the last part is ignored.
pub open spec fn dec_response(b: Seq<u8>) -> Result<HandshakeResponseV, ErrorV> {
    let flags = le_value(b.subrange(0, 4)) as u32;
    if b.len() < 32 {
        Err(
            ErrorV::Protocol(
                "handshake response too short: "@ + decimal(b.len())
                    + " byte(s), need at least 32"@,
            ),
        )
    } else if flags & CLIENT_PROTOCOL_41 == 0 {
        Err(
            ErrorV::Protocol(
                "client did not advertise CLIENT_PROTOCOL_41; the pre-4.1 protocol is not supported"@,
            ),
        )
    } else {
        match dec_nul_text(b, 32) {
            Err(e) => Err(e),
            Ok((username, pos)) => match dec_auth_response(b, flags, pos) {
                Err(e) => Err(e),
                Ok((auth_response, pos)) => match dec_optional(
                    b,
                    flags & CLIENT_CONNECT_WITH_DB != 0,
                    pos,
                ) {
                    Err(e) => Err(e),
                    Ok((database, pos)) => match dec_optional(
                        b,
                        flags & CLIENT_PLUGIN_AUTH != 0,
                        pos,
                    ) {
                        Err(e) => Err(e),
                        Ok((auth_plugin_name, _)) => Ok(
                            HandshakeResponseV {
                                capability_flags: flags,
                                max_packet_size: le_value(b.subrange(4, 8)) as u32,
                                character_set: b[8],
                                username,
                                auth_response,
                                database,
                                auth_plugin_name,
                            },
                        ),
                    },
                },
            },
        }
    }
}

fn read_nul_terminated_bytes(buf: &[u8], start: usize) -> (r: Result<(Vec<u8>, usize), Error>)
    ensures
        match dec_nul_bytes(buf@, start as int) {
            Ok((b, next)) => r matches Ok((x, n)) && x@ == b && n == next && n <= buf@.len(),
            Err(e) => r matches Err(x) && x@ == e,
        },
{
    if start > buf.len() {
        return Err(Error::Protocol("unexpected end of handshake response".to_string()));
    }
    let mut end: usize = start;
    while end < buf.len() && buf[end] != 0
        invariant
            start <= end <= buf@.len(),
            zero_from(buf@, start as int) == zero_from(buf@, end as int),
        decreases buf@.len() - end,
    {
        end = end + 1;
    }
    if end == buf.len() {
        return Err(Error::Protocol("expected NUL-terminated data, found none".to_string()));
    }
    Ok((copy_range(buf, start, end), end + 1))
}

fn read_nul_terminated_str(buf: &[u8], start: usize) -> (r: Result<(String, usize), Error>)
    ensures
        match dec_nul_text(buf@, start as int) {
            Ok((s, next)) => r matches Ok((x, n)) && x@ == s && n == next && n <= buf@.len(),
            Err(e) => r matches Err(x) && x@ == e,
        },
{
    let (bytes, next) = read_nul_terminated_bytes(buf, start)?;
    match string_from_utf8(bytes) {
        Some(s) => Ok((s, next)),
        None => Err(
            Error::Protocol("expected a UTF-8 string in handshake response".to_string()),
        ),
    }
}

fn read_counted(buf: &[u8], pos: usize, len: u64) -> (r: Result<(Vec<u8>, usize), Error>)
    requires
        pos <= buf@.len(),
    ensures
        match dec_counted(buf@, pos as int, len as nat) {
            Ok((b, next)) => r matches Ok((x, n)) && x@ == b && n == next && n <= buf@.len(),
            Err(e) => r matches Err(x) && x@ == e,
        },
{
    let overflow = Error::Protocol("handshake response: length overflow".to_string());
    if len > usize::MAX as u64 {
        return Err(overflow);
    }
    match pos.checked_add(len as usize) {
        None => Err(overflow),
        Some(end) => {
            if end > buf.len() {
                return Err(
                    Error::Protocol("handshake response: truncated auth-response".to_string()),
                );
            }
            Ok((copy_range(buf, pos, end), end))
        },
    }
}

fn read_auth_response(buf: &[u8], flags: u32, pos: usize) -> (r: Result<(Vec<u8>, usize), Error>)
    requires
        pos <= buf@.len(),
    ensures
        match dec_auth_response(buf@, flags, pos as int) {
            Ok((b, next)) => r matches Ok((x, n)) && x@ == b && n == next && n <= buf@.len(),
            Err(e) => r matches Err(x) && x@ == e,
        },
{
    if flags & CLIENT_PLUGIN_AUTH_LENENC_CLIENT_DATA != 0 {
        let rest = vstd::slice::slice_subrange(buf, pos, buf.len());
        let (len, used) = read_lenenc_int(rest)?;
        read_counted(buf, pos + used, len)
    } else if flags & CLIENT_SECURE_CONNECTION != 0 {
        if pos >= buf.len() {
            return Err(
                Error::Protocol("handshake response: missing auth-response length".to_string()),
            );
        }
        read_counted(buf, pos + 1, buf[pos] as u64)
    } else {
        read_nul_terminated_bytes(buf, pos)
    }
}

fn read_optional(buf: &[u8], present: bool, pos: usize) -> (r: Result<
    (Option<String>, usize),
    Error,
>)
    requires
        pos <= buf@.len(),
    ensures
        match dec_optional(buf@, present, pos as int) {
            Ok((s, next)) => r matches Ok((x, n)) && opt_view(x) == s && n == next && n
                <= buf@.len(),
            Err(e) => r matches Err(x) && x@ == e,
        },
{
    if present {
        let (s, next) = read_nul_terminated_str(buf, pos)?;
        Ok((Some(s), next))
    } else {
        Ok((None, pos))
    }
}

impl HandshakeResponse41 {
    /// Parse a `HandshakeResponse41` from a packet payload.
    pub fn parse(payload: &[u8]) -> (r: Result<Self, Error>)
        ensures
            match dec_response(payload@) {
                Ok(v) => r matches Ok(x) && x@ == v,
                Err(e) => r matches Err(x) && x@ == e,
            },
    {
        if payload.len() < 32 {
            return Err(
                Error::Protocol(
                    cat3(
                        "handshake response too short: ",
                        u64_text(payload.len() as u64).as_str(),
                        " byte(s), need at least 32",
                    ),
                ),
            );
        }
        proof {
            lemma_pow256();
            lemma_le_value_bound(payload@.subrange(0, 4));
            lemma_le_value_bound(payload@.subrange(4, 8));
        }
        let capability_flags: u32 = read_le(payload, 0, 4) as u32;
        let max_packet_size: u32 = read_le(payload, 4, 4) as u32;
        let character_set: u8 = payload[8];
        // Bytes 9 to 31 are reserved.
        if capability_flags & CLIENT_PROTOCOL_41 == 0 {
            return Err(
                Error::Protocol(
                    "client did not advertise CLIENT_PROTOCOL_41; the pre-4.1 protocol is not supported".to_string(),
                ),
            );
        }
        let (username, pos) = read_nul_terminated_str(payload, 32)?;
        let (auth_response, pos) = read_auth_response(payload, capability_flags, pos)?;
        let (database, pos) = read_optional(
            payload,
            capability_flags & CLIENT_CONNECT_WITH_DB != 0,
            pos,
        )?;
        let (auth_plugin_name, _) = read_optional(
            payload,
            capability_flags & CLIENT_PLUGIN_AUTH != 0,
            pos,
        )?;
        Ok(
            HandshakeResponse41 {
                capability_flags,
                max_packet_size,
                character_set,
                username,
                auth_response,
                database,
                auth_plugin_name,
            },
        )
    }
}

/// Asks the client to retry with a different plugin and a fresh scramble.
#[derive(Debug, Clone)]
pub struct AuthSwitchRequest {
    pub plugin_name: String,
    pub auth_plugin_data: Vec<u8>,
}

/// The payload of an auth-switch request.
pub open spec fn switch_payload(plugin: Seq<char>, data: Seq<u8>) -> Seq<u8> {
    seq![0xfeu8] + encode_utf8(plugin) + seq![0u8] + data
}

impl AuthSwitchRequest {
    pub fn to_packet(&self, sequence_id: u8) -> (r: Result<Packet, Error>)
        ensures
            builds(
                r,
                sealed(
                    "auth switch"@,
                    sequence_id,
                    switch_payload(self.plugin_name@, self.auth_plugin_data@),
                ),
            ),
    {
        let mut payload: Vec<u8> = Vec::new();
        payload.push(0xfe);
        push_bytes(&mut payload, self.plugin_name.as_str().as_bytes());
        payload.push(0);
        push_bytes(&mut payload, self.auth_plugin_data.as_slice());
        proof {
            assert(payload@ =~= switch_payload(self.plugin_name@, self.auth_plugin_data@));
        }
        seal("auth switch", sequence_id, payload)
    }
}

} // verus!
