//! What a client says in its handshake response is what the server hears.
use vstd::prelude::*;
use vstd::utf8::{encode_utf8, encode_utf8_decode_utf8, encode_utf8_valid_utf8};

use crate::bytes::{le, lemma_le_round_trip, lemma_pow256};
use crate::error::ErrorV;
use crate::protocol::capabilities::{
    CLIENT_CONNECT_WITH_DB, CLIENT_PLUGIN_AUTH, CLIENT_PLUGIN_AUTH_LENENC_CLIENT_DATA,
    CLIENT_PROTOCOL_41, CLIENT_SECURE_CONNECTION,
};
use crate::protocol::handshake::{
    dec_auth_response, dec_nul_bytes, dec_optional, dec_response, zero_from, HandshakeResponseV,
};
use crate::protocol::lenenc::{enc_bytes, enc_int, law_integers_read_back};

verus! {

/// Whether bytes hold no NUL.
pub open spec fn no_nul(b: Seq<u8>) -> bool {
    forall|i: int| 0 <= i < b.len() ==> #[trigger] b[i] != 0
}

/// An auth-response in the form that the capabilities announce.
pub open spec fn enc_auth(flags: u32, auth_response: Seq<u8>) -> Seq<u8> {
    if flags & CLIENT_PLUGIN_AUTH_LENENC_CLIENT_DATA != 0 {
        enc_bytes(auth_response)
    } else if flags & CLIENT_SECURE_CONNECTION != 0 {
        seq![auth_response.len() as u8] + auth_response
    } else {
        auth_response.push(0)
    }
}

/// An optional text, ended by a NUL.
pub open spec fn enc_optional(s: Option<Seq<char>>) -> Seq<u8> {
    match s {
        Some(t) => encode_utf8(t).push(0),
        None => Seq::empty(),
    }
}

/// The fixed part of a handshake response.
pub open spec fn enc_head(r: HandshakeResponseV, filler: Seq<u8>) -> Seq<u8> {
    le(r.capability_flags as nat, 4) + le(r.max_packet_size as nat, 4) + seq![r.character_set]
        + filler
}

/// A handshake response on the wire.
pub open spec fn enc_response(r: HandshakeResponseV, filler: Seq<u8>) -> Seq<u8> {
    enc_head(r, filler) + encode_utf8(r.username).push(0) + enc_auth(
        r.capability_flags,
        r.auth_response,
    ) + enc_optional(r.database) + enc_optional(r.auth_plugin_name)
}

/// Whether a response can be written down: its parts are there as its flags
/// say, and fit their frames.
pub open spec fn writable(r: HandshakeResponseV) -> bool {
    let flags = r.capability_flags;
    &&& flags & CLIENT_PROTOCOL_41 != 0
    &&& no_nul(encode_utf8(r.username))
    &&& r.database is Some == (flags & CLIENT_CONNECT_WITH_DB != 0)
    &&& r.auth_plugin_name is Some == (flags & CLIENT_PLUGIN_AUTH != 0)
    &&& r.database matches Some(d) ==> no_nul(encode_utf8(d))
    &&& r.auth_plugin_name matches Some(p) ==> no_nul(encode_utf8(p))
    &&& flags & CLIENT_PLUGIN_AUTH_LENENC_CLIENT_DATA == 0 ==> if flags & CLIENT_SECURE_CONNECTION
        != 0 {
        r.auth_response.len() < 256
    } else {
        no_nul(r.auth_response)
    }
}

proof fn lemma_zero_behind(b: Seq<u8>, i: int, end: int)
    requires
        0 <= i <= end < b.len(),
        b[end] == 0,
        forall|k: int| i <= k < end ==> #[trigger] b[k] != 0,
    ensures
        zero_from(b, i) == Some(end),
    decreases end - i,
{
    if i < end {
        lemma_zero_behind(b, i + 1, end);
    }
}

proof fn lemma_nul_bytes(front: Seq<u8>, part: Seq<u8>, rest: Seq<u8>)
    requires
        no_nul(part),
    ensures
        dec_nul_bytes(front + part.push(0) + rest, front.len() as int) == Ok::<
            (Seq<u8>, int),
            ErrorV,
        >((part, 1int + front.len() + part.len())),
{
    let b = front + part.push(0) + rest;
    let start = front.len() as int;
    let end = start + part.len();
    assert forall|k: int| start <= k < end implies #[trigger] b[k] != 0 by {
        assert(b[k] == part[k - start]);
    }
    lemma_zero_behind(b, start, end);
    assert(b.subrange(start, end) =~= part);
}

proof fn lemma_optional(front: Seq<u8>, s: Option<Seq<char>>, rest: Seq<u8>)
    requires
        s matches Some(t) ==> no_nul(encode_utf8(t)),
    ensures
        dec_optional(front + enc_optional(s) + rest, s is Some, front.len() as int) == Ok::<
            (Option<Seq<char>>, int),
            ErrorV,
        >((s, (front.len() + enc_optional(s).len()) as int)),
{
    match s {
        Some(t) => {
            encode_utf8_valid_utf8(t);
            encode_utf8_decode_utf8(t);
            lemma_nul_bytes(front, encode_utf8(t), rest);
        },
        None => {},
    }
}

proof fn lemma_auth(front: Seq<u8>, flags: u32, auth: Seq<u8>, rest: Seq<u8>)
    requires
        flags & CLIENT_PLUGIN_AUTH_LENENC_CLIENT_DATA == 0 ==> if flags & CLIENT_SECURE_CONNECTION
            != 0 {
            auth.len() < 256
        } else {
            no_nul(auth)
        },
        (front + enc_auth(flags, auth) + rest).len() <= usize::MAX,
    ensures
        dec_auth_response(front + enc_auth(flags, auth) + rest, flags, front.len() as int) == Ok::<
            (Seq<u8>, int),
            ErrorV,
        >((auth, (front.len() + enc_auth(flags, auth).len()) as int)),
{
    let b = front + enc_auth(flags, auth) + rest;
    let pos = front.len() as int;
    if flags & CLIENT_PLUGIN_AUTH_LENENC_CLIENT_DATA != 0 {
        assert(b.subrange(pos, b.len() as int) =~= enc_int(auth.len()) + (auth + rest));
        law_integers_read_back(auth.len() as u64, auth + rest);
        let at = pos + enc_int(auth.len()).len();
        assert(b.subrange(at, at + auth.len()) =~= auth);
    } else if flags & CLIENT_SECURE_CONNECTION != 0 {
        assert(b[pos] == auth.len());
        assert(b.subrange(pos + 1, pos + 1 + auth.len()) =~= auth);
    } else {
        lemma_nul_bytes(front, auth, rest);
    }
}

/// A handshake response is read back as it was written, whichever form the
/// auth-response has and whatever fills the reserved bytes.
pub proof fn law_handshake_response_reads_back(r: HandshakeResponseV, filler: Seq<u8>)
    requires
        writable(r),
        filler.len() == 23,
        enc_response(r, filler).len() <= usize::MAX,
    ensures
        dec_response(enc_response(r, filler)) == Ok::<HandshakeResponseV, ErrorV>(r),
{
    let flags = r.capability_flags;
    let b = enc_response(r, filler);
    let head = enc_head(r, filler);
    let user = encode_utf8(r.username).push(0);
    let auth = enc_auth(flags, r.auth_response);
    let database = enc_optional(r.database);
    let plugin = enc_optional(r.auth_plugin_name);
    lemma_pow256();
    lemma_le_round_trip(flags as nat, 4);
    lemma_le_round_trip(r.max_packet_size as nat, 4);
    assert(head.len() == 32);
    assert(b.subrange(0, 4) =~= le(flags as nat, 4));
    assert(b.subrange(4, 8) =~= le(r.max_packet_size as nat, 4));
    assert(b[8] == r.character_set);
    encode_utf8_valid_utf8(r.username);
    encode_utf8_decode_utf8(r.username);
    assert(b =~= head + user + (auth + database + plugin));
    lemma_nul_bytes(head, encode_utf8(r.username), auth + database + plugin);
    assert(b =~= (head + user) + auth + (database + plugin));
    lemma_auth(head + user, flags, r.auth_response, database + plugin);
    assert(b =~= (head + user + auth) + database + plugin);
    lemma_optional(head + user + auth, r.database, plugin);
    assert(b =~= (head + user + auth + database) + plugin + Seq::<u8>::empty());
    lemma_optional(head + user + auth + database, r.auth_plugin_name, Seq::empty());
}

} // verus!
