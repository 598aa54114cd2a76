//! The command phase: what each command asks for and how it is answered.
use vstd::prelude::*;
use vstd::utf8::{decode_utf8, valid_utf8};

use crate::bytes::{copy_range, le_value, lemma_le_value_bound, lemma_pow256, read_le};
use crate::error::{Error, ErrorV};
use crate::protocol::capabilities::{CLIENT_DEPRECATE_EOF, CLIENT_MULTI_STATEMENTS};
use crate::protocol::command::{
    COM_PING, COM_QUERY, COM_QUIT, COM_STMT_CLOSE, COM_STMT_EXECUTE, COM_STMT_PREPARE,
    COM_STMT_RESET,
};
use crate::protocol::packet::{sealed, Packet, PacketV};
use crate::protocol::prepared::{
    dec_params, hex_byte, hex_text, parse_execute_params, prepare_payload, StmtPrepareOk,
};
use crate::protocol::response::{
    ok_payload, reported, state_08s01, state_hy000, ErrPacket, ErrPacketV, OkPacket,
    DEFAULT_STATUS_FLAGS,
};
use crate::protocol::resultset::{
    and_then_packet, eof, eof_packet, lemma_seq_after, lemma_wires_push, next_seq, seq_after, wires,
    ColumnDefinition, ColumnDefinitionV, ColumnType,
};
use crate::query::ast::{Statement, StatementV};
use crate::query::executor::QueryResult;
use crate::query::parser::{
    bind_parameters, bound_statement, parse_many, parse_many_result, parse_prepared, parse_result,
};
use crate::seqs::{views, Duplicate};
use crate::server::session::{
    cells_to_exprs, literals, outcome_reply, replies, result_set, sent, status_flags, wire_result,
    PreparedStatement, Session, SERVER_MORE_RESULTS_EXISTS, SERVER_STATUS_AUTOCOMMIT,
};
use crate::text::{cat2, cat3, decimal, string_from_utf8, u64_text};

verus! {

broadcast use crate::seqs::group_views;

/// A command from the client.
#[derive(Debug)]
pub enum Command {
    Quit,
    Ping,
    Query(String),
    /// The payload of a `COM_STMT_PREPARE`, and so on.
    Prepare(Vec<u8>),
    Execute(Vec<u8>),
    Close(Vec<u8>),
    Reset(Vec<u8>),
    Unknown(u8),
}

/// The content of a [`Command`].
pub ghost enum CommandV {
    Quit,
    Ping,
    Query(Seq<char>),
    Prepare(Seq<u8>),
    Execute(Seq<u8>),
    Close(Seq<u8>),
    Reset(Seq<u8>),
    Unknown(u8),
}

impl View for Command {
    type V = CommandV;

    open spec fn view(&self) -> CommandV {
        match self {
            Command::Quit => CommandV::Quit,
            Command::Ping => CommandV::Ping,
            Command::Query(s) => CommandV::Query(s@),
            Command::Prepare(p) => CommandV::Prepare(p@),
            Command::Execute(p) => CommandV::Execute(p@),
            Command::Close(p) => CommandV::Close(p@),
            Command::Reset(p) => CommandV::Reset(p@),
            Command::Unknown(c) => CommandV::Unknown(*c),
        }
    }
}

/// The command that a payload holds.
pub open spec fn command_in(payload: Seq<u8>) -> Result<CommandV, ErrorV> {
    if payload.len() == 0 {
        Err(ErrorV::Protocol("empty command packet"@))
    } else if payload[0] == COM_QUIT {
        Ok(CommandV::Quit)
    } else if payload[0] == COM_PING {
        Ok(CommandV::Ping)
    } else if payload[0] == COM_QUERY {
        let text = payload.subrange(1, payload.len() as int);
        if valid_utf8(text) {
            Ok(CommandV::Query(decode_utf8(text)))
        } else {
            Err(ErrorV::Protocol("COM_QUERY: payload is not valid UTF-8"@))
        }
    } else if payload[0] == COM_STMT_PREPARE {
        Ok(CommandV::Prepare(payload))
    } else if payload[0] == COM_STMT_EXECUTE {
        Ok(CommandV::Execute(payload))
    } else if payload[0] == COM_STMT_CLOSE {
        Ok(CommandV::Close(payload))
    } else if payload[0] == COM_STMT_RESET {
        Ok(CommandV::Reset(payload))
    } else {
        Ok(CommandV::Unknown(payload[0]))
    }
}

/// The command that a packet holds: each command starts a sequence of its own.
pub open spec fn command_of(p: PacketV) -> Result<CommandV, ErrorV> {
    if p.sequence_id != 0 {
        Err(
            ErrorV::Protocol(
                "expected a fresh command sequence starting at 0, got "@ + decimal(
                    p.sequence_id as nat,
                ),
            ),
        )
    } else {
        command_in(p.payload)
    }
}

/// What a query text asks for. Several statements in one text are only allowed
/// if the client said that it would send them.
pub open spec fn query_plan(sql: Seq<char>, capabilities: u32) -> Result<Seq<StatementV>, ErrorV> {
    match parse_many_result(sql) {
        Err(e) => Err(e),
        Ok(statements) => if statements.len() > 1 && capabilities & CLIENT_MULTI_STATEMENTS == 0 {
            Err(
                ErrorV::Parse(
                    "multiple statements in one query require CLIENT_MULTI_STATEMENTS"@,
                ),
            )
        } else {
            Ok(statements)
        },
    }
}

/// What the client is told about a command that does not exist.
pub open spec fn unknown_command(command: u8) -> ErrPacketV {
    ErrPacketV {
        error_code: 1047,
        sql_state: state_08s01(),
        message: "Unknown command 0x"@ + hex_byte(command),
    }
}

/// What the client is told about resetting a statement that does not exist.
pub open spec fn unknown_reset() -> ErrPacketV {
    ErrPacketV {
        error_code: 1243,
        sql_state: state_hy000(),
        message: "Unknown prepared statement handler given to COM_STMT_RESET"@,
    }
}

/// A bare OK packet.
pub open spec fn plain_ok(seq: u8) -> Result<PacketV, ErrorV> {
    sealed("OK"@, seq, ok_payload(0, 0, DEFAULT_STATUS_FLAGS as nat, 0, Seq::empty()))
}

/// An error packet.
pub open spec fn error_packet(e: ErrPacketV, seq: u8) -> Result<PacketV, ErrorV> {
    sealed("ERR"@, seq, e.payload())
}

/// Whether bytes are a packet's.
pub open spec fn answers(r: Result<Vec<u8>, Error>, want: Result<PacketV, ErrorV>) -> bool {
    match want {
        Ok(p) => r matches Ok(v) && v@ == p.wire(),
        Err(e) => r matches Err(x) && x@ == e,
    }
}

/// The statement id of a payload.
pub open spec fn statement_id(payload: Seq<u8>) -> u32 {
    le_value(payload.subrange(1, 5)) as u32
}

/// What the definition of a parameter says.
pub open spec fn parameter_definition() -> ColumnDefinitionV {
    ColumnDefinitionV { name: "?"@, column_type: ColumnType::VarString }
}

/// The reply to a prepare, up to its first `k` parameter definitions.
pub open spec fn prepare_packets(id: u32, n: int, seq: u8, k: int) -> Result<Seq<PacketV>, ErrorV>
    decreases k,
{
    if k <= 0 || k > n {
        Ok(
            seq![
                PacketV {
                    sequence_id: seq,
                    payload: prepare_payload(id as nat, 0, (n % 65536) as nat),
                },
            ],
        )
    } else {
        and_then_packet(
            prepare_packets(id, n, seq, k - 1),
            parameter_definition().packet(seq_after(seq, k)),
        )
    }
}

/// The whole reply to a prepare: under classic framing, an EOF packet follows
/// the definitions.
pub open spec fn prepare_reply(id: u32, n: int, seq: u8, deprecate_eof: bool) -> Result<
    (Seq<u8>, u8),
    ErrorV,
> {
    match prepare_packets(id, n, seq, n) {
        Err(e) => Err(e),
        Ok(ps) => if n > 0 && !deprecate_eof {
            Ok(
                (
                    wires(ps.push(eof(SERVER_STATUS_AUTOCOMMIT as nat, seq_after(seq, n + 1)))),
                    seq_after(seq, n + 2),
                ),
            )
        } else {
            Ok((wires(ps), seq_after(seq, n + 1)))
        },
    }
}

/// The statement id after `id`.
pub open spec fn next_id(id: u32) -> u32 {
    if id == u32::MAX {
        0
    } else {
        (id + 1) as u32
    }
}

/// What a prepare command holds: a statement and its number of parameters.
pub open spec fn prepare_text(payload: Seq<u8>) -> Result<(StatementV, int), ErrorV> {
    let text = payload.subrange(1, payload.len() as int);
    if valid_utf8(text) {
        parse_result(decode_utf8(text), true)
    } else {
        Err(ErrorV::Protocol("COM_STMT_PREPARE: payload is not valid UTF-8"@))
    }
}

/// What to do about a `COM_STMT_EXECUTE`.
#[derive(Debug)]
pub enum ExecutePlan {
    /// The command itself is wrong.
    Reject(Error),
    /// The statement cannot be run with these parameters.
    Fail(Error),
    Run(Statement),
}

/// The content of an [`ExecutePlan`].
pub ghost enum ExecutePlanV {
    Reject(ErrorV),
    Fail(ErrorV),
    Run(StatementV),
}

impl View for ExecutePlan {
    type V = ExecutePlanV;

    open spec fn view(&self) -> ExecutePlanV {
        match self {
            ExecutePlan::Reject(e) => ExecutePlanV::Reject(e@),
            ExecutePlan::Fail(e) => ExecutePlanV::Fail(e@),
            ExecutePlan::Run(s) => ExecutePlanV::Run(s@),
        }
    }
}

/// What to do about a `COM_STMT_EXECUTE`: find the statement, decode the
/// parameters and fill them in.
pub open spec fn execution(payload: Seq<u8>, prepared: Map<u32, PreparedStatement>) -> ExecutePlanV {
    if payload.len() < 5 {
        ExecutePlanV::Reject(ErrorV::Protocol("COM_STMT_EXECUTE: truncated header"@))
    } else if !prepared.contains_key(statement_id(payload)) {
        ExecutePlanV::Reject(
            ErrorV::Execution(
                "Unknown prepared statement handler ("@ + decimal(statement_id(payload) as nat)
                    + ") given to COM_STMT_EXECUTE"@,
            ),
        )
    } else {
        let p = prepared[statement_id(payload)];
        match dec_params(payload, p.param_count as int) {
            Err(e) => ExecutePlanV::Fail(e),
            Ok(cells) => match bound_statement(p.statement@, literals(cells)) {
                Err(e) => ExecutePlanV::Fail(e),
                Ok(s) => ExecutePlanV::Run(s),
            },
        }
    }
}

fn read_statement_id(payload: &[u8]) -> (r: u32)
    requires
        payload@.len() >= 5,
    ensures
        r == statement_id(payload@),
{
    proof {
        lemma_pow256();
        lemma_le_value_bound(payload@.subrange(1, 5));
    }
    read_le(payload, 1, 4) as u32
}

impl Session {
    /// Read a command off a packet. Each command is a packet sequence of its
    /// own, so the reply starts at 1.
    pub fn read_command(&mut self, packet: &Packet) -> (r: Result<Command, Error>)
        ensures
            match command_of(packet@) {
                Ok(c) => r matches Ok(x) && x@ == c,
                Err(e) => r matches Err(x) && x@ == e,
            },
            *final(self) == (if packet.sequence_id == 0 {
                Session { sequence_id: 1, ..*old(self) }
            } else {
                *old(self)
            }),
    {
        if packet.sequence_id != 0 {
            return Err(
                Error::Protocol(
                    cat2(
                        "expected a fresh command sequence starting at 0, got ",
                        u64_text(packet.sequence_id as u64).as_str(),
                    ),
                ),
            );
        }
        self.sequence_id = 1;
        let payload = packet.payload.as_slice();
        if payload.len() == 0 {
            return Err(Error::Protocol("empty command packet".to_string()));
        }
        let command: u8 = payload[0];
        let whole = copy_range(payload, 0, payload.len());
        proof {
            assert(whole@ =~= packet.payload@);
        }
        if command == COM_QUIT {
            Ok(Command::Quit)
        } else if command == COM_PING {
            Ok(Command::Ping)
        } else if command == COM_QUERY {
            match string_from_utf8(copy_range(payload, 1, payload.len())) {
                Some(sql) => Ok(Command::Query(sql)),
                None => Err(Error::Protocol("COM_QUERY: payload is not valid UTF-8".to_string())),
            }
        } else if command == COM_STMT_PREPARE {
            Ok(Command::Prepare(whole))
        } else if command == COM_STMT_EXECUTE {
            Ok(Command::Execute(whole))
        } else if command == COM_STMT_CLOSE {
            Ok(Command::Close(whole))
        } else if command == COM_STMT_RESET {
            Ok(Command::Reset(whole))
        } else {
            Ok(Command::Unknown(command))
        }
    }

    /// The answer to a ping.
    pub fn pong(&self) -> (r: Result<Vec<u8>, Error>)
        ensures
            answers(r, plain_ok(self.sequence_id)),
    {
        let packet = OkPacket::new().to_packet(self.sequence_id)?;
        Ok(packet.encode())
    }

    /// The answer to a command that does not exist.
    pub fn refuse_command(&self, command: u8) -> (r: Result<Vec<u8>, Error>)
        ensures
            answers(r, error_packet(unknown_command(command), self.sequence_id)),
    {
        let state: [u8; 5] = [0x30, 0x38, 0x53, 0x30, 0x31];
        proof {
            assert(state@ =~= state_08s01());
        }
        let message = cat2("Unknown command 0x", hex_text(command).as_str());
        let err = ErrPacket::new(1047, &state, message.as_str());
        let packet = err.to_packet(self.sequence_id)?;
        Ok(packet.encode())
    }

    /// Parse a query text into the statements to run.
    pub fn plan_query(&self, sql: &str) -> (r: Result<Vec<Statement>, Error>)
        ensures
            match query_plan(sql@, self.client_capabilities) {
                Ok(s) => r matches Ok(v) && views(v@) == s,
                Err(e) => r matches Err(x) && x@ == e,
            },
    {
        let statements = parse_many(sql)?;
        if statements.len() > 1 && self.client_capabilities & CLIENT_MULTI_STATEMENTS == 0 {
            return Err(
                Error::Parse(
                    "multiple statements in one query require CLIENT_MULTI_STATEMENTS".to_string(),
                ),
            );
        }
        Ok(statements)
    }

    /// The outcome of a statement as it is sent: OK, a result set in text or
    /// binary form, or an error. A query-level error does not end the
    /// connection.
    pub fn reply_outcome(
        &mut self,
        outcome: &Result<QueryResult, Error>,
        binary: bool,
        more_results: bool,
    ) -> (r: Result<Vec<u8>, Error>)
        ensures
            replies(
                r,
                *old(self),
                *final(self),
                outcome_reply(
                    match *outcome {
                        Ok(q) => Ok(q@),
                        Err(e) => Err(e@),
                    },
                    old(self).client_capabilities,
                    old(self).sequence_id,
                    binary,
                    more_results,
                ),
            ),
    {
        let flags: u16 = if more_results {
            SERVER_STATUS_AUTOCOMMIT | SERVER_MORE_RESULTS_EXISTS
        } else {
            SERVER_STATUS_AUTOCOMMIT
        };
        match outcome {
            Err(e) => {
                let packet = ErrPacket::from_error(e).to_packet(self.sequence_id);
                self.send(packet)
            },
            Ok(result) => {
                if result.columns.len() == 0 {
                    let ok = OkPacket {
                        affected_rows: result.rows_affected,
                        last_insert_id: 0,
                        status_flags: flags,
                        warnings: 0,
                        info: String::new(),
                    };
                    let packet = ok.to_packet(self.sequence_id);
                    return self.send(packet);
                }
                let set = result_set(result);
                let deprecate_eof: bool = self.client_capabilities & CLIENT_DEPRECATE_EOF != 0;
                let mut out: Vec<u8> = Vec::new();
                let next: u8 = if binary {
                    set.encode_binary_into(&mut out, deprecate_eof, flags, self.sequence_id)?
                } else {
                    set.encode_text_into(&mut out, deprecate_eof, flags, self.sequence_id)?
                };
                proof {
                    let ps = wire_result(result@).packets(
                        binary,
                        deprecate_eof,
                        flags as nat,
                        old(self).sequence_id,
                    )->Ok_0;
                    assert(out@ =~= wires(ps));
                }
                self.sequence_id = next;
                Ok(out)
            },
        }
    }

    /// The answer to a prepared-statement command that is wrong.
    pub fn reject(&mut self, err: &Error) -> (r: Result<Vec<u8>, Error>)
        ensures
            replies(
                r,
                *old(self),
                *final(self),
                sent(error_packet(reported(err@), old(self).sequence_id), old(self).sequence_id),
            ),
    {
        let packet = ErrPacket::from_error(err).to_packet(self.sequence_id);
        self.send(packet)
    }

    /// `COM_STMT_PREPARE`: parse the statement (allowing `?`), keep it, and
    /// reply with its id and one definition per parameter. The result columns
    /// are only reported when it is executed.
    pub fn prepare(&mut self, payload: &[u8]) -> (r: Result<Vec<u8>, Error>)
        requires
            payload@.len() > 0,
        ensures
            match prepare_text(payload@) {
                Err(e) => replies(
                    r,
                    *old(self),
                    *final(self),
                    sent(error_packet(reported(e), old(self).sequence_id), old(self).sequence_id),
                ),
                Ok((s, n)) => exists|p: PreparedStatement|
                    #![trigger old(self).prepared@.insert(old(self).next_statement_id, p)]
                    {
                        &&& p.statement@ == s
                        &&& p.param_count == n
                        &&& final(self).prepared@ == old(self).prepared@.insert(
                            old(self).next_statement_id,
                            p,
                        )
                        &&& replies(
                            r,
                            Session {
                                prepared: final(self).prepared,
                                next_statement_id: next_id(old(self).next_statement_id),
                                ..*old(self)
                            },
                            *final(self),
                            prepare_reply(
                                old(self).next_statement_id,
                                n,
                                old(self).sequence_id,
                                old(self).client_capabilities & CLIENT_DEPRECATE_EOF != 0,
                            ),
                        )
                    },
            },
    {
        let sql = match string_from_utf8(copy_range(payload, 1, payload.len())) {
            Some(s) => s,
            None => {
                return self.reject(
                    &Error::Protocol("COM_STMT_PREPARE: payload is not valid UTF-8".to_string()),
                );
            },
        };
        let (statement, param_count) = match parse_prepared(sql.as_str()) {
            Ok(parsed) => parsed,
            Err(e) => {
                return self.reject(&e);
            },
        };
        let id: u32 = self.next_statement_id;
        self.next_statement_id = id.wrapping_add(1);
        let ghost p = PreparedStatement { statement, param_count };
        self.prepared.insert(id, PreparedStatement { statement, param_count });
        let deprecate_eof: bool = self.client_capabilities & CLIENT_DEPRECATE_EOF != 0;
        proof {
            assert(old(self).prepared@.insert(id, p) == self.prepared@);
        }
        let (bytes, next) = prepare_bytes(id, param_count, self.sequence_id, deprecate_eof)?;
        self.sequence_id = next;
        Ok(bytes)
    }

    /// `COM_STMT_EXECUTE`: find the statement, decode the parameters and fill
    /// them in.
    pub fn plan_execute(&self, payload: &[u8]) -> (r: ExecutePlan)
        ensures
            r@ == execution(payload@, self.prepared@),
    {
        if payload.len() < 5 {
            return ExecutePlan::Reject(
                Error::Protocol("COM_STMT_EXECUTE: truncated header".to_string()),
            );
        }
        let id: u32 = read_statement_id(payload);
        match self.prepared.get(&id) {
            None => ExecutePlan::Reject(
                Error::Execution(
                    cat3(
                        "Unknown prepared statement handler (",
                        u64_text(id as u64).as_str(),
                        ") given to COM_STMT_EXECUTE",
                    ),
                ),
            ),
            Some(p) => match parse_execute_params(payload, p.param_count) {
                Err(e) => ExecutePlan::Fail(e),
                Ok(cells) => {
                    let exprs = cells_to_exprs(&cells);
                    match bind_parameters(p.statement.duplicate(), exprs.as_slice()) {
                        Err(e) => ExecutePlan::Fail(e),
                        Ok(s) => ExecutePlan::Run(s),
                    }
                },
            },
        }
    }

    /// `COM_STMT_CLOSE`: forget the statement. There is no reply.
    pub fn close(&mut self, payload: &[u8])
        ensures
            payload@.len() < 5 ==> *final(self) == *old(self),
            payload@.len() >= 5 ==> final(self).prepared@ == old(self).prepared@.remove(
                statement_id(payload@),
            ) && *final(self) == (Session { prepared: final(self).prepared, ..*old(self) }),
    {
        if payload.len() >= 5 {
            let id: u32 = read_statement_id(payload);
            self.prepared.remove(&id);
        }
    }

    /// `COM_STMT_RESET`: prepared statements hold no state between executions,
    /// so this only acknowledges.
    pub fn reset(&mut self, payload: &[u8]) -> (r: Result<Vec<u8>, Error>)
        ensures
            replies(
                r,
                *old(self),
                *final(self),
                sent(
                    if payload@.len() >= 5 && old(self).prepared@.contains_key(
                        statement_id(payload@),
                    ) {
                        plain_ok(old(self).sequence_id)
                    } else {
                        error_packet(unknown_reset(), old(self).sequence_id)
                    },
                    old(self).sequence_id,
                ),
            ),
    {
        let known: bool = if payload.len() >= 5 {
            let id: u32 = read_statement_id(payload);
            self.prepared.contains_key(&id)
        } else {
            false
        };
        if known {
            let packet = OkPacket::new().to_packet(self.sequence_id);
            self.send(packet)
        } else {
            let state: [u8; 5] = [0x48, 0x59, 0x30, 0x30, 0x30];
            proof {
                assert(state@ =~= state_hy000());
            }
            let err = ErrPacket::new(
                1243,
                &state,
                "Unknown prepared statement handler given to COM_STMT_RESET",
            );
            let packet = err.to_packet(self.sequence_id);
            self.send(packet)
        }
    }
}

proof fn lemma_prepare_stops(id: u32, n: int, seq: u8, k: int, m: int)
    requires
        0 <= k <= m <= n,
    ensures
        prepare_packets(id, n, seq, k) is Err ==> prepare_packets(id, n, seq, m)
            == prepare_packets(id, n, seq, k),
    decreases m - k,
{
    if k < m {
        lemma_prepare_stops(id, n, seq, k + 1, m);
    }
}

/// The reply to a prepare, and the sequence id behind it.
fn prepare_bytes(id: u32, param_count: usize, seq: u8, deprecate_eof: bool) -> (r: Result<
    (Vec<u8>, u8),
    Error,
>)
    ensures
        match prepare_reply(id, param_count as int, seq, deprecate_eof) {
            Ok((bytes, next)) => r matches Ok((v, s)) && v@ == bytes && s == next,
            Err(e) => r matches Err(x) && x@ == e,
        },
{
    let ghost n = param_count as int;
    let ok = StmtPrepareOk {
        statement_id: id,
        num_columns: 0,
        num_params: (param_count % 65536) as u16,
    };
    let first = ok.to_packet(seq)?;
    let ghost mut done = seq![first@];
    let mut out: Vec<u8> = Vec::new();
    first.encode_into(&mut out);
    proof {
        lemma_wires_push(Seq::empty(), first@);
        assert(Seq::<PacketV>::empty().push(first@) =~= done);
        assert(out@ =~= wires(done));
        lemma_seq_after(seq, 0);
        lemma_seq_after(seq, n + 1);
    }
    let mut next: u8 = next_seq(seq);
    let mut i: usize = 0;
    while i < param_count
        invariant
            i <= param_count,
            n == param_count,
            next == seq_after(seq, i + 1),
            prepare_packets(id, n, seq, i as int) == Ok::<Seq<PacketV>, ErrorV>(done),
            out@ == wires(done),
        decreases param_count - i,
    {
        proof {
            lemma_prepare_stops(id, n, seq, i + 1, n);
            lemma_seq_after(seq, i + 1);
        }
        let definition = ColumnDefinition::new("?", ColumnType::VarString);
        let packet = definition.to_packet(next)?;
        packet.encode_into(&mut out);
        proof {
            lemma_wires_push(done, packet@);
            done = done.push(packet@);
        }
        next = next_seq(next);
        i = i + 1;
    }
    if param_count > 0 && !deprecate_eof {
        let packet = eof_packet(SERVER_STATUS_AUTOCOMMIT, next);
        packet.encode_into(&mut out);
        proof {
            lemma_wires_push(done, packet@);
        }
        next = next_seq(next);
    }
    Ok((out, next))
}

} // verus!
