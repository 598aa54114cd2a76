//! What a client reads when it prepares a statement.
use vstd::prelude::*;
use vstd::utf8::{encode_utf8, encode_utf8_decode_utf8, encode_utf8_valid_utf8};

use crate::auth::{plugin_text, AuthPlugin};
use crate::protocol::handshake::HandshakeResponseV;
use crate::protocol::packet::PacketV;
use crate::protocol::prepared::prepare_payload;
use crate::protocol::reading::{u16_at, u32_at};
use crate::protocol::resultset::{eof, seq_after, wires, ColumnDefinitionV, ColumnType};
use crate::protocol::wire_laws::{
    law_column_definitions_read_back, law_packets_in_a_row_read_back,
    law_prepare_answers_read_back, lemma_ends_read, reads_as_column, reads_as_eof,
    reads_as_packets,
};
use crate::query::parser::parse_result;
use crate::server::commands::{next_id, parameter_definition, prepare_packets, prepare_reply, prepare_text};
use crate::server::session::client_plugin;

verus! {

/// Whether packets read as the answer to a prepared statement with this id and
/// this number of parameters: no columns, one definition called `?` for each
/// parameter, and for most clients an EOF packet behind those.
pub open spec fn reads_as_prepared(
    ps: Seq<PacketV>,
    id: u32,
    n: int,
    seq: u8,
    deprecate_eof: bool,
) -> bool {
    let ended = n > 0 && !deprecate_eof;
    &&& ps.len() == 1 + n + (if ended {
        1int
    } else {
        0int
    })
    &&& forall|i: int|
        0 <= i < ps.len() ==> (#[trigger] ps[i]).sequence_id == (seq + i) % 256
    &&& ps[0].payload.len() == 12
    &&& ps[0].payload[0] == 0
    &&& u32_at(ps[0].payload, 1) == id
    &&& u16_at(ps[0].payload, 5) == 0
    &&& u16_at(ps[0].payload, 7) == n % 65_536
    &&& u16_at(ps[0].payload, 10) == 0
    &&& forall|i: int|
        1 <= i <= n ==> reads_as_column(
            (#[trigger] ps[i]).payload,
            ColumnDefinitionV { name: seq!['?'], column_type: ColumnType::VarString },
        )
    &&& ended ==> reads_as_eof(ps.last().payload, 2)
}

proof fn lemma_prepare_packets(id: u32, n: int, seq: u8, k: int)
    requires
        0 <= k <= n,
    ensures
        prepare_packets(id, n, seq, k) matches Ok(ps) ==> {
            &&& ps.len() == k + 1
            &&& ps[0] == (PacketV {
                sequence_id: seq,
                payload: prepare_payload(id as nat, 0, (n % 65536) as nat),
            })
            &&& forall|i: int|
                1 <= i <= k ==> {
                    &&& (#[trigger] ps[i]).sequence_id == (seq + i) % 256
                    &&& ps[i].payload.len() <= 0xff_ffff
                    &&& reads_as_column(ps[i].payload, parameter_definition())
                }
        },
    decreases k,
{
    if k > 0 {
        lemma_prepare_packets(id, n, seq, k - 1);
        reveal(seq_after);
        law_column_definitions_read_back(parameter_definition(), seq_after(seq, k));
    }
}

/// The answer to a prepared statement reads back, and sequence ids go on behind
/// it.
pub proof fn law_prepared_statements_are_announced(id: u32, n: int, seq: u8, deprecate_eof: bool)
    requires
        0 <= n,
    ensures
        prepare_reply(id, n, seq, deprecate_eof) matches Ok((b, next)) ==> exists|ps: Seq<PacketV>|
            {
                &&& #[trigger] reads_as_packets(b, 0, ps)
                &&& reads_as_prepared(ps, id, n, seq, deprecate_eof)
                &&& next == (seq + ps.len()) % 256
            },
{
    match prepare_reply(id, n, seq, deprecate_eof) {
        Err(_) => {},
        Ok((b, next)) => {
            lemma_prepare_packets(id, n, seq, n);
            law_prepare_answers_read_back(id, 0, (n % 65536) as u16);
            reveal(seq_after);
            reveal_strlit("?");
            assert("?"@ =~= seq!['?']);
            let front = prepare_packets(id, n, seq, n)->Ok_0;
            let end = eof(2, seq_after(seq, n + 1));
            lemma_ends_read(2, seq_after(seq, n + 1));
            let ps = if n > 0 && !deprecate_eof {
                front.push(end)
            } else {
                front
            };
            assert forall|i: int| 0 <= i < ps.len() implies (#[trigger] ps[i]).payload.len()
                <= 0xff_ffff && ps[i].sequence_id == (seq + i) % 256 by {
                if i < front.len() {
                    assert(ps[i] == front[i]);
                }
            }
            assert forall|i: int| 1 <= i <= n implies reads_as_column(
                (#[trigger] ps[i]).payload,
                parameter_definition(),
            ) by {
                assert(ps[i] == front[i]);
            }
            law_packets_in_a_row_read_back(ps);
            assert(ps[0] == front[0]);
            assert(b == wires(ps));
        },
    }
}

/// A statement is prepared from the text that was sent, and ids are given out
/// one after the other.
pub proof fn law_statements_are_prepared_from_their_text(sql: Seq<char>, first: u8, id: u32)
    ensures
        prepare_text(seq![first] + encode_utf8(sql)) == parse_result(sql, true),
        next_id(id) == (id + 1) % 0x1_0000_0000,
        next_id(id) != id,
{
    let text = encode_utf8(sql);
    let b = seq![first] + text;
    encode_utf8_valid_utf8(sql);
    encode_utf8_decode_utf8(sql);
    assert(b.subrange(1, b.len() as int) =~= text);
}

/// A client is taken to have used the plugin that it names, and the default one
/// where it names none that is known.
pub proof fn law_clients_name_their_plugin(
    response: HandshakeResponseV,
    plugin: AuthPlugin,
    default: AuthPlugin,
)
    ensures
        response.auth_plugin_name == Some(plugin_text(plugin)) ==> client_plugin(response, default)
            == plugin,
        response.auth_plugin_name is None ==> client_plugin(response, default) == default,
        (response.auth_plugin_name matches Some(name) && name != plugin_text(
            AuthPlugin::MysqlNativePassword,
        ) && name != plugin_text(AuthPlugin::CachingSha2Password)) ==> client_plugin(
            response,
            default,
        ) == default,
{
    crate::auth::law_plugin_names_read_back(plugin);
}

} // verus!
