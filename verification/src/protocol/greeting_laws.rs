//! What a client reads of the server's side of the handshake.
use vstd::prelude::*;
use vstd::utf8::encode_utf8;

use crate::bytes::{le, lemma_le_len};
use crate::protocol::capabilities::{CLIENT_PLUGIN_AUTH, CLIENT_SECURE_CONNECTION};
use crate::protocol::handshake::{
    handshake_payload, printable, server_flags, standard_handshake, switch_payload, word_bytes,
    HandshakeV,
};
use crate::protocol::reading::{
    lemma_fixed_reads, lemma_parts_stand, lemma_stands_bytes, lemma_text_between_reads, stands_at,
    text_between, u16_at, u32_at, u64_at,
};

verus! {

/// The capabilities that are offered: long passwords (bit 0), a database on
/// connecting (3), the 4.1 protocol (9), the 4.1 scramble (15), several
/// statements (16), plugins (19), length-encoded responses (21), no EOF packets
/// (24), and TLS (11) exactly if there is any.
pub proof fn law_offered_capabilities(tls_available: bool)
    ensures
        server_flags(tls_available) == 1 + 8 + 512 + 32_768 + 65_536 + 524_288 + 2_097_152
            + 16_777_216 + (if tls_available {
            2_048int
        } else {
            0int
        }),
{
    assert(0x1u32 | 0x8u32 | 0x200u32 | 0x8000u32 | 0x8_0000u32 | 0x20_0000u32 | 0x100_0000u32
        | 0x1_0000u32 == 0x129_8209u32) by (bit_vector);
    assert(0x129_8209u32 | 0x800u32 == 0x129_8a09u32) by (bit_vector);
}

/// Whether a handshake that offers the 4.1 scramble and plugins reads as `h`:
/// the protocol's version, the server's up to a NUL at `j`, the connection's
/// id, eight bytes of the scramble and a zero, the lower capabilities, the
/// character set, the status, the upper capabilities, the length of the
/// scramble with its NUL, ten zeros, the other twelve bytes of the scramble and
/// a NUL, and the plugin's name up to a NUL.
pub open spec fn reads_as_handshake(b: Seq<u8>, j: int, h: HandshakeV) -> bool {
    &&& b[0] == h.protocol_version
    &&& text_between(b, 1, j) == Some(h.server_version)
    &&& b[j] == 0
    &&& u32_at(b, j + 1) == h.connection_id
    &&& b.subrange(j + 5, j + 13) + b.subrange(j + 32, j + 44) == h.auth_plugin_data
    &&& b[j + 13] == 0
    &&& u16_at(b, j + 14) + 65_536 * u16_at(b, j + 19) == h.capability_flags
    &&& b[j + 16] == h.character_set
    &&& u16_at(b, j + 17) == h.status_flags
    &&& b[j + 21] == 21
    &&& forall|i: int| j + 22 <= i < j + 32 ==> #[trigger] b[i] == 0
    &&& b[j + 44] == 0
    &&& text_between(b, j + 45, b.len() - 1) == Some(h.auth_plugin_name)
    &&& b.last() == 0
}

proof fn lemma_flag_halves(flags: u32)
    ensures
        (flags & 0xFFFF) < 0x1_0000,
        ((flags >> 16) & 0xFFFF) < 0x1_0000,
        (flags & 0xFFFF) + 65_536 * ((flags >> 16) & 0xFFFF) == flags,
{
    assert(flags & 0xFFFF == flags % 65_536) by (bit_vector);
    assert((flags >> 16) & 0xFFFF == flags / 65_536) by (bit_vector);
}

/// A handshake reads back.
#[verifier::rlimit(40)]
pub proof fn law_handshakes_read_back(h: HandshakeV)
    requires
        h.auth_plugin_data.len() == 20,
        h.capability_flags & CLIENT_PLUGIN_AUTH != 0,
        h.capability_flags & CLIENT_SECURE_CONNECTION != 0,
    ensures
        reads_as_handshake(
            handshake_payload(h),
            1 + encode_utf8(h.server_version).len() as int,
            h,
        ),
{
    let b = handshake_payload(h);
    let lower = (h.capability_flags & 0xFFFF) as nat;
    let upper = ((h.capability_flags >> 16) & 0xFFFF) as nat;
    let j = 1 + encode_utf8(h.server_version).len() as int;
    let zero = seq![0u8];
    let first = h.auth_plugin_data.subrange(0, 8);
    let second = h.auth_plugin_data.subrange(8, 20);
    lemma_flag_halves(h.capability_flags);
    lemma_greeting_parts(h);
    lemma_text_between_reads(b, 1, h.server_version);
    lemma_fixed_reads(b, j + 1, h.connection_id as nat, 4);
    lemma_fixed_reads(b, j + 14, lower, 2);
    lemma_fixed_reads(b, j + 17, h.status_flags as nat, 2);
    lemma_fixed_reads(b, j + 19, upper, 2);
    lemma_parts_stand(b, j + 32, second, zero);
    lemma_one_byte(b, 0, h.protocol_version);
    lemma_one_byte(b, j, 0);
    lemma_one_byte(b, j + 13, 0);
    lemma_one_byte(b, j + 16, h.character_set);
    lemma_one_byte(b, j + 21, 21);
    lemma_one_byte(b, j + 44, 0);
    let ten = Seq::new(10, |i: int| 0u8);
    lemma_stands_bytes(b, j + 22, ten);
    assert forall|i: int| j + 22 <= i < j + 32 implies #[trigger] b[i] == 0 by {
        assert(ten[i - j - 22] == b[j + 22 + (i - j - 22)]);
    }
    let name = encode_utf8(h.auth_plugin_name);
    lemma_parts_stand(b, j + 45, name, zero);
    lemma_text_between_reads(b, j + 45, h.auth_plugin_name);
    lemma_one_byte(b, j + 45 + name.len(), 0);
    assert(first + second =~= h.auth_plugin_data);
}

proof fn lemma_one_byte(b: Seq<u8>, i: int, x: u8)
    requires
        stands_at(b, i, seq![x]),
    ensures
        b[i] == x,
{
    lemma_stands_bytes(b, i, seq![x]);
    assert(seq![x][0] == b[i + 0]);
}

/// Where each part of a handshake stands.
#[verifier::rlimit(40)]
proof fn lemma_greeting_parts(h: HandshakeV)
    requires
        h.auth_plugin_data.len() == 20,
        h.capability_flags & CLIENT_PLUGIN_AUTH != 0,
        h.capability_flags & CLIENT_SECURE_CONNECTION != 0,
    ensures
        ({
            let b = handshake_payload(h);
            let lower = (h.capability_flags & 0xFFFF) as nat;
            let upper = ((h.capability_flags >> 16) & 0xFFFF) as nat;
            let j = 1 + encode_utf8(h.server_version).len() as int;
            &&& stands_at(b, 0, seq![h.protocol_version])
            &&& stands_at(b, 1, encode_utf8(h.server_version))
            &&& stands_at(b, j, seq![0u8])
            &&& stands_at(b, j + 1, le(h.connection_id as nat, 4))
            &&& stands_at(b, j + 5, h.auth_plugin_data.subrange(0, 8))
            &&& stands_at(b, j + 13, seq![0u8])
            &&& stands_at(b, j + 14, le(lower, 2))
            &&& stands_at(b, j + 16, seq![h.character_set])
            &&& stands_at(b, j + 17, le(h.status_flags as nat, 2))
            &&& stands_at(b, j + 19, le(upper, 2))
            &&& stands_at(b, j + 21, seq![21u8])
            &&& stands_at(b, j + 22, Seq::new(10, |i: int| 0u8))
            &&& stands_at(b, j + 32, h.auth_plugin_data.subrange(8, 20) + seq![0u8])
            &&& stands_at(b, j + 45, encode_utf8(h.auth_plugin_name) + seq![0u8])
            &&& b.len() == j + 46 + encode_utf8(h.auth_plugin_name).len()
        }),
{
    let b = handshake_payload(h);
    let lower = (h.capability_flags & 0xFFFF) as nat;
    let upper = ((h.capability_flags >> 16) & 0xFFFF) as nat;
    lemma_le_len(h.connection_id as nat, 4);
    lemma_le_len(lower, 2);
    lemma_le_len(h.status_flags as nat, 2);
    lemma_le_len(upper, 2);
    let p0 = seq![h.protocol_version];
    let p1 = p0 + encode_utf8(h.server_version);
    let p2 = p1 + seq![0u8];
    let p3 = p2 + le(h.connection_id as nat, 4);
    let p4 = p3 + h.auth_plugin_data.subrange(0, 8);
    let p5 = p4 + seq![0u8];
    let p6 = p5 + le(lower, 2);
    let p7 = p6 + seq![h.character_set];
    let p8 = p7 + le(h.status_flags as nat, 2);
    let p9 = p8 + le(upper, 2);
    let p10 = p9 + seq![21u8];
    let p11 = p10 + Seq::new(10, |i: int| 0u8);
    let p12 = p11 + (h.auth_plugin_data.subrange(8, 20) + seq![0u8]);
    assert(b == p12 + (encode_utf8(h.auth_plugin_name) + seq![0u8]));
    assert(b.subrange(0, b.len() as int) =~= b);
    lemma_parts_stand(b, 0, p12, encode_utf8(h.auth_plugin_name) + seq![0u8]);
    lemma_parts_stand(b, 0, p11, h.auth_plugin_data.subrange(8, 20) + seq![0u8]);
    lemma_parts_stand(b, 0, p10, Seq::new(10, |i: int| 0u8));
    lemma_parts_stand(b, 0, p9, seq![21u8]);
    lemma_parts_stand(b, 0, p8, le(upper, 2));
    lemma_parts_stand(b, 0, p7, le(h.status_flags as nat, 2));
    lemma_parts_stand(b, 0, p6, seq![h.character_set]);
    lemma_parts_stand(b, 0, p5, le(lower, 2));
    lemma_parts_stand(b, 0, p4, seq![0u8]);
    lemma_parts_stand(b, 0, p3, h.auth_plugin_data.subrange(0, 8));
    lemma_parts_stand(b, 0, p2, le(h.connection_id as nat, 4));
    lemma_parts_stand(b, 0, p1, seq![0u8]);
    lemma_parts_stand(b, 0, p0, encode_utf8(h.server_version));
}

/// The server's own handshake is of that kind: protocol version 10, utf8mb4
/// (45), autocommit (2), and what it was made with.
pub proof fn law_the_servers_handshake_reads_back(
    connection_id: u32,
    server_version: Seq<char>,
    tls_available: bool,
    auth_plugin_name: Seq<char>,
    scramble: Seq<u8>,
)
    requires
        scramble.len() == 20,
    ensures
        ({
            let h = standard_handshake(
                connection_id,
                server_version,
                tls_available,
                auth_plugin_name,
                scramble,
            );
            &&& reads_as_handshake(
                handshake_payload(h),
                1 + encode_utf8(server_version).len() as int,
                h,
            )
            &&& h.protocol_version == 10
            &&& h.server_version == server_version
            &&& h.connection_id == connection_id
            &&& h.auth_plugin_data == scramble
            &&& h.capability_flags == server_flags(tls_available)
            &&& h.character_set == 45
            &&& h.status_flags == 2
            &&& h.auth_plugin_name == auth_plugin_name
        }),
{
    let h = standard_handshake(
        connection_id,
        server_version,
        tls_available,
        auth_plugin_name,
        scramble,
    );
    law_offered_capabilities(tls_available);
    assert(0x129_8209u32 & 0x8_0000u32 != 0) by (bit_vector);
    assert(0x129_8209u32 & 0x8000u32 != 0) by (bit_vector);
    assert(0x129_8a09u32 & 0x8_0000u32 != 0) by (bit_vector);
    assert(0x129_8a09u32 & 0x8000u32 != 0) by (bit_vector);
    law_handshakes_read_back(h);
}

/// An auth-switch request reads back: 254, the plugin's name up to a NUL, and
/// the data.
pub proof fn law_auth_switches_read_back(plugin: Seq<char>, data: Seq<u8>)
    ensures
        ({
            let b = switch_payload(plugin, data);
            let j = 1 + encode_utf8(plugin).len() as int;
            &&& b[0] == 254
            &&& text_between(b, 1, j) == Some(plugin)
            &&& b[j] == 0
            &&& b.subrange(j + 1, b.len() as int) == data
        }),
{
    let b = switch_payload(plugin, data);
    let name = encode_utf8(plugin);
    let zero = seq![0u8];
    let j = 1 + name.len() as int;
    assert(b =~= seq![0xfeu8] + (name + (zero + data)));
    assert(b.subrange(0, b.len() as int) =~= b);
    lemma_parts_stand(b, 0, seq![0xfeu8], name + (zero + data));
    lemma_parts_stand(b, 1, name, zero + data);
    lemma_text_between_reads(b, 1, plugin);
    lemma_parts_stand(b, j, zero, data);
    lemma_stands_bytes(b, j, zero);
    assert(zero[0] == b[j + 0]);
}

/// Every byte of a scramble is printable. Greater bytes give no lesser
/// characters and none is left out, so all of the printable range is used.
pub proof fn law_scrambles_are_printable(a: u8, b: u8)
    ensures
        33 <= printable(a) <= 126,
        a <= b ==> printable(a) <= printable(b),
        printable(0) == 33,
        printable(255) == 126,
        a < 255 ==> printable((a + 1) as u8) <= printable(a) + 1,
{
}

/// The bytes of three words are those of each word in turn, its least first:
/// every byte of a scramble is drawn from a byte of its own.
pub proof fn law_words_give_their_bytes(first: u64, second: u64, third: u64)
    ensures
        ({
            let b = word_bytes(first, second, third);
            &&& b.len() == 20
            &&& u64_at(b, 0) == first
            &&& u64_at(b, 8) == second
            &&& u32_at(b, 16) == third % 0x1_0000_0000
        }),
{
    let b = word_bytes(first, second, third);
    let x = le(first as nat, 8);
    let y = le(second as nat, 8);
    let z = le(third as nat, 8);
    let all = x + y + z;
    lemma_le_len(first as nat, 8);
    lemma_le_len(second as nat, 8);
    lemma_le_len(third as nat, 8);
    assert(all.subrange(0, all.len() as int) =~= all);
    lemma_parts_stand(all, 0, x + y, z);
    lemma_parts_stand(all, 0, x, y);
    lemma_fixed_reads(all, 0, first as nat, 8);
    lemma_fixed_reads(all, 8, second as nat, 8);
    lemma_fixed_reads(all, 16, third as nat, 8);
    assert(u64_at(b, 0) == u64_at(all, 0));
    assert(u64_at(b, 8) == u64_at(all, 8));
    assert(u32_at(b, 16) == u32_at(all, 16));
    assert(0 <= u32_at(all, 16) < 0x1_0000_0000);
}

} // verus!
