//! What a client reads of the server's answers.
use vstd::prelude::*;
use vstd::utf8::{encode_utf8, encode_utf8_decode_utf8, encode_utf8_valid_utf8, valid_utf8};

use crate::auth::{plugin_text, AuthPlugin};
use crate::bytes::le_value;
use crate::error::ErrorV;
use crate::protocol::capabilities::CLIENT_DEPRECATE_EOF;
use crate::protocol::greeting_laws::{law_the_servers_handshake_reads_back, reads_as_handshake};
use crate::protocol::handshake::{handshake_payload, standard_handshake, HandshakeV};
use crate::protocol::packet::PacketV;
use crate::protocol::prepared::hex_byte;
use crate::protocol::parameter_laws::lemma_fixed_value;
use crate::protocol::reading::{count_at, text_between, u16_at, u24_at};
use crate::protocol::response::{denied, ok_payload, reported, ErrPacketV};
use crate::protocol::resultset::{seq_after, wires, CellV, ColumnType as WireType, ResultSetV};
use crate::protocol::wire_laws::{
    bit_at, law_a_packet_reads_back, law_err_packets_read_back, law_ok_packets_read_back,
    law_packets_in_a_row_read_back, law_result_sets_read_back, reads_as_packets,
    reads_as_result_set,
};
use crate::query::message_laws::{lemma_tells, tells_of};
use crate::query::semantics::QueryResultV;
use crate::server::admission::too_many;
use crate::server::commands::{
    command_in, command_of, plain_ok, unknown_command, unknown_reset, CommandV,
};
use crate::server::session::{
    asks_for_tls, outcome_reply, status_flags, taken, verdict, wire_cell, wire_result,
    Session,
};
use crate::storage::number_laws::{is_decimal_numeral_of, law_decimals_are_shown_exactly};
use crate::storage::value::{ColumnType, ValueV};

verus! {

// ---------- values ----------

/// Whether a cell is what a value is sent as.
pub open spec fn carries_value(c: CellV, v: ValueV) -> bool {
    match v {
        ValueV::Null => c is Null,
        ValueV::Int(n) => c == CellV::Int(n),
        ValueV::Varchar(s) => c == CellV::Text(s),
        ValueV::Date(s) => c == CellV::Text(s),
        ValueV::Decimal(n, scale) => c matches CellV::Text(t) && is_decimal_numeral_of(
            t,
            n as int,
            scale as nat,
        ),
    }
}

/// Whether a result set is what a query's result is sent as: its columns under
/// their names, numbers as numbers and everything else as text, and its rows in
/// order, cell by cell.
pub open spec fn carries_result(r: ResultSetV, q: QueryResultV) -> bool {
    &&& r.columns.len() == q.columns.len()
    &&& forall|i: int|
        0 <= i < q.columns.len() ==> (#[trigger] r.columns[i]).name == q.columns[i].name && (
        r.columns[i].column_type == WireType::LongLong <==> q.columns[i].column_type
            == ColumnType::Int)
    &&& r.rows.len() == q.rows.len()
    &&& forall|i: int|
        0 <= i < q.rows.len() ==> (#[trigger] r.rows[i]).len() == q.rows[i].len()
    &&& forall|i: int, k: int|
        0 <= i < q.rows.len() && 0 <= k < q.rows[i].len() ==> carries_value(
            #[trigger] r.rows[i][k],
            q.rows[i][k],
        )
}

/// Values and results are sent as what they are.
pub proof fn law_results_are_sent_as_they_are(q: QueryResultV, v: ValueV)
    ensures
        carries_value(wire_cell(v), v),
        carries_result(wire_result(q), q),
{
    lemma_value(v);
    let r = wire_result(q);
    assert forall|i: int, k: int|
        0 <= i < q.rows.len() && 0 <= k < q.rows[i].len() implies carries_value(
        #[trigger] r.rows[i][k],
        q.rows[i][k],
    ) by {
        lemma_value(q.rows[i][k]);
    }
}

proof fn lemma_value(v: ValueV)
    ensures
        carries_value(wire_cell(v), v),
{
    match v {
        ValueV::Decimal(n, scale) => law_decimals_are_shown_exactly(n, scale),
        _ => {},
    }
}

// ---------- outcomes ----------

/// Whether one packet is an error with this code and message.
pub open spec fn reads_as_error(b: Seq<u8>, seq: u8, e: ErrPacketV) -> bool {
    exists|ps: Seq<PacketV>|
        {
            let p = ps[0];
            &&& #[trigger] reads_as_packets(b, 0, ps)
            &&& ps.len() == 1
            &&& p.sequence_id == seq
            &&& p.payload[0] == 255
            &&& u16_at(p.payload, 1) == e.error_code
            &&& p.payload[3] == 35
            &&& p.payload.subrange(4, 9) == e.sql_state
            &&& text_between(p.payload, 9, p.payload.len() as int) == Some(e.message)
        }
}

/// Whether one packet is a plain success: the number of rows, no insert id, the
/// flags, no warnings and no text.
pub open spec fn reads_as_success(b: Seq<u8>, seq: u8, affected: int, flags: int) -> bool {
    exists|ps: Seq<PacketV>|
        {
            let p = ps[0];
            &&& #[trigger] reads_as_packets(b, 0, ps)
            &&& ps.len() == 1
            &&& p.sequence_id == seq
            &&& p.payload[0] == 0
            &&& count_at(p.payload, 1) matches Some((n, i)) && n == affected && (count_at(
                p.payload,
                i,
            ) matches Some((m, j)) && m == 0 && u16_at(p.payload, j) == flags && u16_at(
                p.payload,
                j + 2,
            ) == 0 && j + 4 == p.payload.len())
        }
}

/// The flags of a response: autocommit (2), and with it that another result
/// follows (8) exactly if one does.
pub proof fn law_flags_announce_more_results(more_results: bool)
    ensures
        status_flags(more_results) == (if more_results {
            10int
        } else {
            2int
        }),
{
    assert(0x0002u16 | 0x0008u16 == 0x000au16) by (bit_vector);
}

/// The outcome of a statement reads back: an error as that error, a statement
/// without a result as its number of rows, and a query as its result, whichever
/// protocol it is sent in. The flags say whether another result follows, and
/// sequence ids go on behind the last packet.
#[verifier::rlimit(40)]
pub proof fn law_outcomes_read_back(
    outcome: Result<QueryResultV, ErrorV>,
    capabilities: u32,
    seq: u8,
    binary: bool,
    more_results: bool,
)
    requires
        outcome matches Ok(q) ==> q.columns.len() < 0x1_0000_0000_0000_0000 && 0 <= q.affected
            < 0x1_0000_0000_0000_0000,
    ensures
        outcome_reply(outcome, capabilities, seq, binary, more_results) matches Ok((b, next)) ==> {
            let flags = if more_results {
                10int
            } else {
                2int
            };
            match outcome {
                Err(e) => reads_as_error(b, seq, reported(e)) && next == (seq + 1) % 256,
                Ok(q) => if q.columns.len() == 0 {
                    reads_as_success(b, seq, q.affected, flags) && next == (seq + 1) % 256
                } else {
                    exists|ps: Seq<PacketV>, r: ResultSetV|
                        {
                            &&& #[trigger] reads_as_packets(b, 0, ps)
                            &&& #[trigger] carries_result(r, q)
                            &&& reads_as_result_set(
                                ps,
                                r,
                                binary,
                                capabilities & CLIENT_DEPRECATE_EOF != 0,
                                flags as nat,
                                seq,
                            )
                            &&& next == (seq + ps.len()) % 256
                        }
                },
            }
        },
{
    law_flags_announce_more_results(more_results);
    let flags = status_flags(more_results);
    reveal(seq_after);
    match outcome_reply(outcome, capabilities, seq, binary, more_results) {
        Err(_) => {},
        Ok((b, next)) => match outcome {
            Err(e) => {
                let p = PacketV { sequence_id: seq, payload: reported(e).payload() };
                lemma_reported_fits(e);
                lemma_error_reads(reported(e), seq);
                assert(b == p.wire());
            },
            Ok(q) => {
                if q.columns.len() == 0 {
                    lemma_success_reads(q.affected as u64, flags as u16, seq);
                } else {
                    let r = wire_result(q);
                    let deprecate_eof = capabilities & CLIENT_DEPRECATE_EOF != 0;
                    let ps = r.packets(binary, deprecate_eof, flags, seq)->Ok_0;
                    law_result_sets_read_back(r, binary, deprecate_eof, flags, seq);
                    law_packets_in_a_row_read_back(ps);
                    law_results_are_sent_as_they_are(q, ValueV::Null);
                    assert(reads_as_packets(b, 0, ps));
                    assert(ps.len() == r.packet_count(deprecate_eof));
                }
            },
        },
    }
}

proof fn lemma_reported_fits(e: ErrorV)
    ensures
        reported(e).error_code < 0x1_0000,
        reported(e).sql_state.len() == 5,
{
}

proof fn lemma_error_reads(e: ErrPacketV, seq: u8)
    requires
        e.error_code < 0x1_0000,
        e.sql_state.len() == 5,
        e.payload().len() <= 0xff_ffff,
    ensures
        reads_as_error((PacketV { sequence_id: seq, payload: e.payload() }).wire(), seq, e),
{
    let p = PacketV { sequence_id: seq, payload: e.payload() };
    law_err_packets_read_back(e);
    law_a_packet_reads_back(p);
}

proof fn lemma_success_reads(affected: u64, flags: u16, seq: u8)
    requires
        ok_payload(affected as nat, 0, flags as nat, 0, Seq::empty()).len() <= 0xff_ffff,
    ensures
        reads_as_success(
            (PacketV {
                sequence_id: seq,
                payload: ok_payload(affected as nat, 0, flags as nat, 0, Seq::empty()),
            }).wire(),
            seq,
            affected as int,
            flags as int,
        ),
{
    let b = ok_payload(affected as nat, 0, flags as nat, 0, Seq::empty());
    let p = PacketV { sequence_id: seq, payload: b };
    law_ok_packets_read_back(affected, 0, flags, 0, Seq::empty());
    law_a_packet_reads_back(p);
    let (n, i) = count_at(b, 1)->Some_0;
    let (m, j) = count_at(b, i)->Some_0;
    crate::bytes::lemma_le_len(flags as nat, 2);
    crate::bytes::lemma_le_len(0, 2);
    let none = Seq::<char>::empty();
    assert(encode_utf8(none).len() == 0);
    lemma_ok_length(affected, flags, i, j);
}

proof fn lemma_ok_length(affected: u64, flags: u16, i: int, j: int)
    requires
        ({
            let b = ok_payload(affected as nat, 0, flags as nat, 0, Seq::empty());
            &&& count_at(b, 1) matches Some((_, k)) && k == i
            &&& count_at(b, i) matches Some((_, k)) && k == j
        }),
    ensures
        ok_payload(affected as nat, 0, flags as nat, 0, Seq::empty()).len() == j + 4,
{
    let b = ok_payload(affected as nat, 0, flags as nat, 0, Seq::empty());
    let a = crate::protocol::lenenc::enc_int(affected as nat);
    let l = crate::protocol::lenenc::enc_int(0);
    let f = crate::bytes::le(flags as nat, 2);
    let w = crate::bytes::le(0, 2);
    let t = encode_utf8(Seq::<char>::empty());
    crate::bytes::lemma_le_len(flags as nat, 2);
    crate::bytes::lemma_le_len(0, 2);
    crate::protocol::wire_laws::lemma_parts_in_order(b, seq![0u8], a, l, f, w, t);
    crate::protocol::reading::lemma_count_reads(b, 1, affected as nat);
    crate::protocol::reading::lemma_count_reads(b, 1 + a.len() as int, 0);
    assert(t.len() == 0);
}

/// Errors are reported under MySQL's codes and states, with their message in
/// the text: a parse error as 1064/42000, an execution or I/O error as
/// 1105/HY000, what is not supported as 1235/42000, a failed login as
/// 1045/28000 and a breach of protocol as 1047/08S01.
pub proof fn law_errors_are_reported_under_their_codes(e: ErrorV)
    ensures
        ({
            let r = reported(e);
            let n = r.message.len();
            match e {
                ErrorV::Parse(m) => r.error_code == 1064 && r.sql_state == seq![
                    52u8,
                    50u8,
                    48u8,
                    48u8,
                    48u8,
                ] && n >= m.len() && r.message.subrange(n - m.len(), n as int) == m,
                ErrorV::Execution(m) => r.error_code == 1105 && r.sql_state == seq![
                    72u8,
                    89u8,
                    48u8,
                    48u8,
                    48u8,
                ] && r.message == m,
                ErrorV::Unsupported(m) => r.error_code == 1235 && r.sql_state == seq![
                    52u8,
                    50u8,
                    48u8,
                    48u8,
                    48u8,
                ] && n >= m.len() + 2 && r.message.subrange(n - 1 - m.len(), n - 1) == m
                    && r.message.last() == '\'' && r.message[n - 2 - m.len()] == '\'',
                ErrorV::Auth(m) => r.error_code == 1045 && r.sql_state == seq![
                    50u8,
                    56u8,
                    48u8,
                    48u8,
                    48u8,
                ] && r.message == m,
                ErrorV::Protocol(m) => r.error_code == 1047 && r.sql_state == seq![
                    48u8,
                    56u8,
                    83u8,
                    48u8,
                    49u8,
                ] && r.message == m,
                ErrorV::Io(m) => r.error_code == 1105 && r.sql_state == seq![
                    72u8,
                    89u8,
                    48u8,
                    48u8,
                    48u8,
                ] && n >= m.len() && r.message.subrange(n - m.len(), n as int) == m,
            }
        }),
{
    let r = reported(e);
    let n = r.message.len();
    match e {
        ErrorV::Parse(m) => {
            assert(r.message.subrange(n - m.len(), n as int) =~= m);
        },
        ErrorV::Io(m) => {
            assert(r.message.subrange(n - m.len(), n as int) =~= m);
        },
        ErrorV::Unsupported(m) => {
            reveal_strlit("'");
            reveal_strlit("This version of mysql-rust doesn't yet support '");
            assert(r.message.subrange(n - 1 - m.len(), n - 1) =~= m);
        },
        _ => {},
    }
}

// ---------- authentication ----------

/// A client that is let in is told so with a plain success, after a signal of
/// its own (1, 3) under `caching_sha2_password`; any other is told that access
/// is denied, by its name.
#[verifier::rlimit(40)]
pub proof fn law_verdicts_read_back(ok: bool, plugin: AuthPlugin, username: Seq<char>, seq: u8)
    ensures
        verdict(ok, plugin, username, seq) matches Ok((b, next)) ==> if !ok {
            reads_as_error(b, seq, denied(username)) && next == (seq + 1) % 256
        } else if plugin == AuthPlugin::MysqlNativePassword {
            reads_as_success(b, seq, 0, 2) && next == (seq + 1) % 256
        } else {
            exists|ps: Seq<PacketV>|
                {
                    let more = ps[0];
                    let success = ps[1];
                    &&& #[trigger] reads_as_packets(b, 0, ps)
                    &&& ps.len() == 2
                    &&& more.sequence_id == seq
                    &&& more.payload == seq![1u8, 3u8]
                    &&& success.sequence_id == (seq + 1) % 256
                    &&& reads_as_success(success.wire(), success.sequence_id, 0, 2)
                    &&& next == (seq + 2) % 256
                }
        },
        denied(username).error_code == 1045,
        denied(username).sql_state == seq![50u8, 56u8, 48u8, 48u8, 48u8],
        tells_of(denied(username).message, username),
{
    reveal_strlit("Access denied for user '");
    reveal_strlit("'");
    lemma_tells("Access denied for user '"@, username, "'"@);
    reveal(seq_after);
    let ok_bytes = ok_payload(0, 0, 2, 0, Seq::empty());
    match verdict(ok, plugin, username, seq) {
        Err(_) => {},
        Ok((b, next)) => {
            if !ok {
                lemma_error_reads(denied(username), seq);
            } else if plugin == AuthPlugin::MysqlNativePassword {
                lemma_success_reads(0, 2, seq);
            } else {
                let id = seq_after(seq, 1);
                let more = PacketV { sequence_id: seq, payload: seq![1u8] + seq![3u8] };
                let success = PacketV { sequence_id: id, payload: ok_bytes };
                assert(seq![1u8] + seq![3u8] =~= seq![1u8, 3u8]);
                lemma_success_reads(0, 2, id);
                let ps = seq![more, success];
                assert forall|k: int| 0 <= k < ps.len() implies (#[trigger] ps[k]).payload.len()
                    <= 0xff_ffff by {}
                law_packets_in_a_row_read_back(ps);
                assert(ps.drop_last() =~= seq![more]);
                assert(seq![more].drop_last() =~= Seq::empty());
                assert(wires(seq![more].drop_last()) =~= Seq::empty());
                assert(wires(seq![more]) =~= more.wire());
                assert(wires(ps) =~= b);
            }
        },
    }
}

// ---------- requests ----------

/// A query arrives as it was sent: a 3 and its text. The other commands are
/// told by their first byte.
pub proof fn law_commands_are_told_by_their_first_byte(sql: Seq<char>, rest: Seq<u8>, first: u8)
    ensures
        command_in(seq![3u8] + encode_utf8(sql)) == Ok::<CommandV, ErrorV>(CommandV::Query(sql)),
        command_in(seq![first] + rest) matches Ok(c) ==> {
            &&& c is Quit <==> first == 1
            &&& c is Query <==> first == 3
            &&& c is Ping <==> first == 14
            &&& c is Prepare <==> first == 22
            &&& c is Execute <==> first == 23
            &&& c is Close <==> first == 25
            &&& c is Reset <==> first == 26
            &&& c matches CommandV::Prepare(p) ==> p == seq![first] + rest
            &&& c matches CommandV::Execute(p) ==> p == seq![first] + rest
            &&& c matches CommandV::Close(p) ==> p == seq![first] + rest
            &&& c matches CommandV::Reset(p) ==> p == seq![first] + rest
            &&& c matches CommandV::Unknown(x) ==> x == first
        },
        command_in(seq![first] + rest) is Err ==> first == 3 && !valid_utf8(rest),
        command_in(Seq::empty()) is Err,
        command_of(PacketV { sequence_id: 0, payload: rest }) == command_in(rest),
        first != 0 ==> command_of(PacketV { sequence_id: first, payload: rest }) is Err,
{
    let text = encode_utf8(sql);
    let b = seq![3u8] + text;
    encode_utf8_valid_utf8(sql);
    encode_utf8_decode_utf8(sql);
    assert(b.subrange(1, b.len() as int) =~= text);
    let c = seq![first] + rest;
    assert(c[0] == first);
    assert(c.subrange(1, c.len() as int) =~= rest);
}

/// A client asks for TLS by bit 11 of its capabilities.
pub proof fn law_tls_is_asked_for_by_its_bit(payload: Seq<u8>)
    ensures
        asks_for_tls(payload) <==> payload.len() >= 4 && bit_at(payload, 0, 11),
{
    if payload.len() >= 4 {
        lemma_fixed_value(payload, 0, 4);
        let b0 = payload[0];
        let b1 = payload[1];
        let b2 = payload[2];
        let b3 = payload[3];
        let flags = le_value(payload.subrange(0, 4)) as u32;
        assert(flags == b0 + 0x100 * b1 + 0x1_0000 * (b2 + 0x100 * b3));
        assert(flags / 0x800 == (b1 / 8) + 0x20 * (b2 + 0x100 * b3));
        assert((flags / 0x800) % 2 == (b1 / 8) % 2);
        assert((flags & 0x800 != 0) == ((flags / 0x800) % 2 == 1)) by (bit_vector);
    }
}

/// A packet is taken as soon as it is there, with what stands behind it left;
/// before that nothing is. One that announces more than is allowed is refused,
/// even if it is not there yet.
pub proof fn law_packets_are_taken_as_they_come(
    p: PacketV,
    rest: Seq<u8>,
    buf: Seq<u8>,
    max_allowed: nat,
)
    requires
        p.payload.len() <= 0xff_ffff,
    ensures
        p.payload.len() <= max_allowed ==> taken(p.wire() + rest, max_allowed) == Ok::<
            Option<(PacketV, Seq<u8>)>,
            ErrorV,
        >(Some((p, rest))),
        taken(buf, max_allowed) is Err <==> buf.len() >= 4 && u24_at(buf, 0) > max_allowed,
        taken(buf, max_allowed) == Ok::<Option<(PacketV, Seq<u8>)>, ErrorV>(None) <==> (buf.len() < 4
            || u24_at(buf, 0) <= max_allowed && buf.len() < 4 + u24_at(buf, 0)),
{
    if buf.len() >= 4 {
        lemma_fixed_value(buf, 0, 3);
    }
    let all = p.wire() + rest;
    crate::protocol::packet::law_packets_read_back(p, rest);
    crate::protocol::wire_laws::law_packets_announce_their_length(p);
    let n = p.wire().len();
    assert(all.subrange(n as int, all.len() as int) =~= rest);
    lemma_fixed_value(all, 0, 3);
    assert(u24_at(all, 0) == u24_at(p.wire(), 0));
}

// ---------- fixed answers ----------

/// A client that is turned away is told so under 1040/08004. A command that is
/// not known is answered under 1047/08S01, with its number in hexadecimal, and
/// the reset of a statement that is not there under 1243/HY000.
pub proof fn law_refusals_have_their_codes(command: u8)
    ensures
        too_many().error_code == 1040,
        too_many().sql_state == seq![48u8, 56u8, 48u8, 48u8, 52u8],
        unknown_command(command).error_code == 1047,
        unknown_command(command).sql_state == seq![48u8, 56u8, 83u8, 48u8, 49u8],
        ({
            let m = unknown_command(command).message;
            let t = hex_byte(command);
            m.len() > t.len() && m.subrange(m.len() - t.len(), m.len() as int) == t
        }),
        unknown_reset().error_code == 1243,
        unknown_reset().sql_state == seq![72u8, 89u8, 48u8, 48u8, 48u8],
{
    reveal_strlit("Unknown command 0x");
    let m = unknown_command(command).message;
    let t = hex_byte(command);
    assert(m.subrange(m.len() - t.len(), m.len() as int) =~= t);
}

/// A ping is answered with a plain success.
pub proof fn law_pings_are_answered(seq: u8)
    ensures
        plain_ok(seq) matches Ok(p) ==> reads_as_success(p.wire(), seq, 0, 2),
{
    match plain_ok(seq) {
        Ok(p) => lemma_success_reads(0, 2, seq),
        Err(_) => {},
    }
}

/// The server opens with a handshake packet of its own: its version, the
/// connection's id, the scramble and the default plugin.
pub proof fn law_greetings_read_back(session: Session, tls_available: bool, scramble: Seq<u8>)
    requires
        scramble.len() == 20,
    ensures
        session.greeting(tls_available, scramble) matches Ok((b, next)) ==> next == (
        session.sequence_id + 1) % 256 && exists|ps: Seq<PacketV>, h: HandshakeV|
            {
                &&& #[trigger] reads_as_packets(b, 0, ps)
                &&& ps.len() == 1
                &&& ps[0].sequence_id == session.sequence_id
                &&& #[trigger] reads_as_handshake(
                    ps[0].payload,
                    1 + encode_utf8(session.vars@.version).len() as int,
                    h,
                )
                &&& h.protocol_version == 10
                &&& h.server_version == session.vars@.version
                &&& h.connection_id == session.connection_id
                &&& h.auth_plugin_data == scramble
                &&& h.auth_plugin_name == plugin_text(session.default_auth_plugin)
            },
{
    match session.greeting(tls_available, scramble) {
        Err(_) => {},
        Ok((b, next)) => {
            let name = plugin_text(session.default_auth_plugin);
            let version = session.vars@.version;
            let h = standard_handshake(
                session.connection_id,
                version,
                tls_available,
                name,
                scramble,
            );
            law_the_servers_handshake_reads_back(
                session.connection_id,
                version,
                tls_available,
                name,
                scramble,
            );
            let p = PacketV { sequence_id: session.sequence_id, payload: handshake_payload(h) };
            law_a_packet_reads_back(p);
            reveal(seq_after);
            let ps = seq![p];
            assert(b == p.wire());
            assert(reads_as_packets(b, 0, ps));
            assert(reads_as_handshake(ps[0].payload, 1 + encode_utf8(version).len() as int, h));
        },
    }
}

} // verus!
