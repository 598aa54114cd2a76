//! A connection's protocol: what is sent in reply to what arrives. Sockets,
//! locks and the clock are driven from outside.
use vstd::prelude::*;
use vstd::utf8::encode_utf8;
use std::collections::HashMap;

use crate::auth::{account_of, granted, plugin_named, plugin_text, AuthOutcome, AuthPlugin, Authenticator};
use crate::bytes::{
    copy_range, le_value, lemma_le_len, lemma_le_value_bound, lemma_pow256, push_bytes, read_le,
};
use crate::config::{UserCredential, UserCredentialV};
use crate::error::{Error, ErrorV};
use crate::protocol::capabilities::{CLIENT_DEPRECATE_EOF, CLIENT_SSL};
use crate::protocol::handshake::{
    all_printable, generate_scramble, handshake_payload, standard_handshake, switch_payload,
    AuthSwitchRequest, Handshake, HandshakeResponse41, HandshakeResponseV,
};
use crate::protocol::packet::{announced, first_packet, sealed, Packet, PacketV, MAX_PAYLOAD};
use crate::protocol::response::{
    denied, ok_payload, reported, AuthMoreData, ErrPacket, OkPacket, AUTH_MORE_DATA_HEADER,
    CACHING_SHA2_FAST_AUTH_SUCCESS, DEFAULT_STATUS_FLAGS,
};
use crate::protocol::resultset::{
    lemma_seq_after, next_seq, seq_after, wires, Cell, CellV, ColumnDefinition, ColumnDefinitionV,
    ColumnType, ResultSet, ResultSetV,
};
use crate::query::ast::{Expr, ExprV, Statement};
use crate::query::executor::QueryResult;
use crate::query::semantics::QueryResultV;
use crate::query::variables::SystemVariables;
use crate::seqs::{views, Duplicate};
use crate::storage::value::{
    ColumnSchema, ColumnSchemaV, ColumnType as StorageType, Value, ValueV,
};
use crate::text::{cat4, cat5, decimal, u64_text};

verus! {

broadcast use crate::seqs::group_views;

/// `SERVER_STATUS_AUTOCOMMIT`: the baseline status flag.
pub const SERVER_STATUS_AUTOCOMMIT: u16 = 0x0002;

/// `SERVER_MORE_RESULTS_EXISTS`: another result set follows.
pub const SERVER_MORE_RESULTS_EXISTS: u16 = 0x0008;

// ---------- packets off the wire ----------

/// The declared payload length from a packet header, once the header is
/// there.
pub fn declared_payload_len(buf: &[u8]) -> (r: Option<usize>)
    ensures
        match r {
            Some(n) => buf@.len() >= 4 && n == announced(buf@) && n <= MAX_PAYLOAD,
            None => buf@.len() < 4,
        },
{
    if buf.len() < 4 {
        return None;
    }
    proof {
        lemma_pow256();
        lemma_le_value_bound(buf@.subrange(0, 3));
    }
    Some(read_le(buf, 0, 3) as usize)
}

/// What the bytes read so far come to: a packet and what is left behind it,
/// nothing yet, or the refusal of a packet that announces too much.
pub open spec fn taken(buf: Seq<u8>, max_allowed: nat) -> Result<
    Option<(PacketV, Seq<u8>)>,
    ErrorV,
> {
    if buf.len() >= 4 && announced(buf) > max_allowed {
        Err(
            ErrorV::Protocol(
                "packet payload of "@ + decimal(announced(buf))
                    + " bytes exceeds max_allowed_packet ("@ + decimal(max_allowed) + ")"@,
            ),
        )
    } else {
        match first_packet(buf) {
            Some((p, n)) => Ok(Some((p, buf.subrange(n, buf.len() as int)))),
            None => Ok(None),
        }
    }
}

/// Take one packet off the front of what was read. The announced length is
/// held against the limit as soon as the header is there, before the payload
/// is waited for.
pub fn take_packet(buf: &mut Vec<u8>, max_allowed_packet: usize) -> (r: Result<
    Option<Packet>,
    Error,
>)
    ensures
        match taken(old(buf)@, max_allowed_packet as nat) {
            Ok(Some((p, rest))) => r matches Ok(Some(x)) && x@ == p && final(buf)@ == rest,
            Ok(None) => r matches Ok(None) && final(buf)@ == old(buf)@,
            Err(e) => r matches Err(x) && x@ == e && final(buf)@ == old(buf)@,
        },
{
    match declared_payload_len(buf.as_slice()) {
        Some(declared) => {
            if declared > max_allowed_packet {
                return Err(
                    Error::Protocol(
                        cat5(
                            "packet payload of ",
                            u64_text(declared as u64).as_str(),
                            " bytes exceeds max_allowed_packet (",
                            u64_text(max_allowed_packet as u64).as_str(),
                            ")",
                        ),
                    ),
                );
            }
        },
        None => {},
    }
    match Packet::parse(buf.as_slice())? {
        Some((packet, consumed)) => {
            let rest = copy_range(buf.as_slice(), consumed, buf.len());
            *buf = rest;
            Ok(Some(packet))
        },
        None => Ok(None),
    }
}

/// The error for a peer that hangs up in the middle of a packet.
pub fn closed_early() -> (r: Error)
    ensures
        r@ == ErrorV::Protocol("connection closed before a full packet was received"@),
{
    Error::Protocol("connection closed before a full packet was received".to_string())
}

/// Whether a handshake-response payload asks for TLS: it has `CLIENT_SSL` in
/// its leading capability flags.
pub open spec fn asks_for_tls(payload: Seq<u8>) -> bool {
    payload.len() >= 4 && (le_value(payload.subrange(0, 4)) as u32) & CLIENT_SSL != 0
}

pub fn response_has_ssl_flag(payload: &[u8]) -> (r: bool)
    ensures
        r == asks_for_tls(payload@),
{
    if payload.len() < 4 {
        return false;
    }
    proof {
        lemma_pow256();
        lemma_le_value_bound(payload@.subrange(0, 4));
    }
    (read_le(payload, 0, 4) as u32) & CLIENT_SSL != 0
}

// ---------- values on the wire ----------

/// The wire type of a column: an integer, or text for everything else.
pub open spec fn wire_type(t: StorageType) -> ColumnType {
    match t {
        StorageType::Int => ColumnType::LongLong,
        _ => ColumnType::VarString,
    }
}

/// The wire definition of a column.
pub open spec fn wire_column(c: ColumnSchemaV) -> ColumnDefinitionV {
    ColumnDefinitionV { name: c.name, column_type: wire_type(c.column_type) }
}

/// The cell of a value: decimals and dates go out as text.
pub open spec fn wire_cell(v: ValueV) -> CellV {
    match v {
        ValueV::Int(n) => CellV::Int(n),
        ValueV::Varchar(s) => CellV::Text(s),
        ValueV::Null => CellV::Null,
        _ => CellV::Text(v.shown()),
    }
}

/// The cells of a row.
pub open spec fn wire_row(row: Seq<ValueV>) -> Seq<CellV> {
    Seq::new(row.len(), |i: int| wire_cell(row[i]))
}

/// The result set of a query result.
pub open spec fn wire_result(q: QueryResultV) -> ResultSetV {
    ResultSetV {
        columns: Seq::new(q.columns.len(), |i: int| wire_column(q.columns[i])),
        rows: Seq::new(q.rows.len(), |i: int| wire_row(q.rows[i])),
    }
}

/// Map a storage column schema to its wire-protocol column definition.
pub fn column_definition(schema: &ColumnSchema) -> (r: ColumnDefinition)
    ensures
        r@ == wire_column(schema@),
{
    let column_type: ColumnType = match schema.column_type {
        StorageType::Int => ColumnType::LongLong,
        _ => ColumnType::VarString,
    };
    ColumnDefinition::new(schema.name.as_str(), column_type)
}

/// Convert a storage value into a protocol result-set cell.
pub fn value_to_cell(value: &Value) -> (r: Cell)
    ensures
        r@ == wire_cell(value@),
{
    match value {
        Value::Int(n) => Cell::Int(*n),
        Value::Varchar(s) => Cell::Text(s.clone()),
        Value::Null => Cell::Null,
        _ => Cell::Text(value.shown_text()),
    }
}

/// The literal that a parameter binds to.
pub open spec fn literal(c: CellV) -> ExprV {
    match c {
        CellV::Int(n) => ExprV::Integer(n),
        CellV::Text(s) => ExprV::String(s),
        CellV::Null => ExprV::Null,
    }
}

/// Convert a decoded parameter into the SQL literal it binds to.
pub fn cell_to_expr(cell: &Cell) -> (r: Expr)
    ensures
        r@ == literal(cell@),
{
    match cell {
        Cell::Int(n) => Expr::Integer(*n),
        Cell::Text(s) => Expr::String(s.clone()),
        Cell::Null => Expr::Null,
    }
}

/// The literals that parameters bind to.
pub open spec fn literals(cells: Seq<CellV>) -> Seq<ExprV> {
    Seq::new(cells.len(), |i: int| literal(cells[i]))
}

pub(crate) fn cells_to_exprs(cells: &Vec<Cell>) -> (r: Vec<Expr>)
    ensures
        views(r@) == literals(views(cells@)),
{
    let mut out: Vec<Expr> = Vec::new();
    let mut i: usize = 0;
    while i < cells.len()
        invariant
            i <= cells@.len(),
            out@.len() == i,
            forall|k: int| 0 <= k < i ==> (#[trigger] out@[k])@ == literal(cells@[k]@),
        decreases cells@.len() - i,
    {
        out.push(cell_to_expr(&cells[i]));
        i = i + 1;
    }
    proof {
        assert(views(out@) =~= literals(views(cells@)));
    }
    out
}

fn row_to_cells(row: &Vec<Value>) -> (r: Vec<Cell>)
    ensures
        views(r@) == wire_row(views(row@)),
{
    let mut out: Vec<Cell> = Vec::new();
    let mut i: usize = 0;
    while i < row.len()
        invariant
            i <= row@.len(),
            out@.len() == i,
            forall|k: int| 0 <= k < i ==> (#[trigger] out@[k])@ == wire_cell(row@[k]@),
        decreases row@.len() - i,
    {
        out.push(value_to_cell(&row[i]));
        i = i + 1;
    }
    proof {
        assert(views(out@) =~= wire_row(views(row@)));
    }
    out
}

/// The result set of a query result.
pub fn result_set(result: &QueryResult) -> (r: ResultSet)
    ensures
        r@ == wire_result(result@),
{
    let mut columns: Vec<ColumnDefinition> = Vec::new();
    let mut i: usize = 0;
    while i < result.columns.len()
        invariant
            i <= result.columns@.len(),
            columns@.len() == i,
            forall|k: int|
                0 <= k < i ==> (#[trigger] columns@[k])@ == wire_column(result.columns@[k]@),
        decreases result.columns@.len() - i,
    {
        columns.push(column_definition(&result.columns[i]));
        i = i + 1;
    }
    let mut rows: Vec<Vec<Cell>> = Vec::new();
    let mut j: usize = 0;
    while j < result.rows.len()
        invariant
            j <= result.rows@.len(),
            rows@.len() == j,
            forall|k: int|
                0 <= k < j ==> views((#[trigger] rows@[k])@) == wire_row(views(result.rows@[k]@)),
        decreases result.rows@.len() - j,
    {
        rows.push(row_to_cells(&result.rows[j]));
        j = j + 1;
    }
    let r = ResultSet { columns, rows };
    proof {
        assert(r@.columns =~= wire_result(result@).columns);
        assert(r@.rows =~= wire_result(result@).rows);
    }
    r
}

// ---------- the session ----------

/// A statement prepared via `COM_STMT_PREPARE`.
#[derive(Debug)]
pub struct PreparedStatement {
    /// The parsed statement, still holding `?` placeholders.
    pub statement: Statement,
    /// How many `?` parameters the client must supply on execute.
    pub param_count: usize,
}

/// The state of one client's connection.
pub struct Session {
    pub connection_id: u32,
    /// Packet sequence id, one more for every packet in an exchange.
    pub sequence_id: u8,
    /// The scramble of the auth exchange in progress.
    pub scramble: [u8; 20],
    /// The auth plugin advertised in the handshake.
    pub default_auth_plugin: AuthPlugin,
    pub authenticator: Authenticator,
    /// The client's capability flags, once it is authenticated.
    pub client_capabilities: u32,
    /// Statements prepared on this connection, by id.
    pub prepared: HashMap<u32, PreparedStatement>,
    pub next_statement_id: u32,
    /// Server settings surfaced to `SELECT @@...`, and the version sent in the
    /// handshake.
    pub vars: SystemVariables,
}

/// What comes of looking at a handshake response.
pub enum AuthStep {
    /// The response can be verified as it is.
    Verify { plugin: AuthPlugin, auth_response: Vec<u8> },
    /// The client has to be switched to another plugin: send this, and verify
    /// what comes back.
    Switch { plugin: AuthPlugin, packet: Vec<u8> },
}

/// The plugin a client used for its first response: the one it declared, or
/// the advertised one if it declared none that is known.
pub open spec fn client_plugin(response: HandshakeResponseV, default: AuthPlugin) -> AuthPlugin {
    match response.auth_plugin_name {
        Some(name) => match plugin_named(name) {
            Some(p) => p,
            None => default,
        },
        None => default,
    }
}

/// The plugin to verify with: the account's. For an unknown user it is the
/// client's own, so that nothing gives away which accounts exist.
pub open spec fn target_plugin(
    users: Seq<UserCredentialV>,
    response: HandshakeResponseV,
    default: AuthPlugin,
) -> AuthPlugin {
    match account_of(users, response.username) {
        Some(u) => u.plugin,
        None => client_plugin(response, default),
    }
}

/// A packet on the wire, with the sequence id behind it.
pub open spec fn sent(p: Result<PacketV, ErrorV>, seq: u8) -> Result<(Seq<u8>, u8), ErrorV> {
    match p {
        Ok(p) => Ok((p.wire(), seq_after(seq, 1))),
        Err(e) => Err(e),
    }
}

/// Whether bytes and a new sequence id are as wanted; on failure nothing
/// moves on.
pub open spec fn replies(
    r: Result<Vec<u8>, Error>,
    before: Session,
    after: Session,
    want: Result<(Seq<u8>, u8), ErrorV>,
) -> bool {
    match want {
        Ok((bytes, seq)) => r matches Ok(v) && v@ == bytes && after == (Session {
            sequence_id: seq,
            ..before
        }),
        Err(e) => r matches Err(x) && x@ == e && after == before,
    }
}

/// What authentication ends with: for `caching_sha2_password` a signal that
/// the fast path succeeded, then OK; or access denied.
pub open spec fn verdict(
    ok: bool,
    plugin: AuthPlugin,
    username: Seq<char>,
    seq: u8,
) -> Result<(Seq<u8>, u8), ErrorV> {
    if !ok {
        sent(sealed("ERR"@, seq, denied(username).payload()), seq)
    } else if plugin == AuthPlugin::CachingSha2Password {
        match sealed(
            "AuthMoreData"@,
            seq,
            seq![AUTH_MORE_DATA_HEADER] + seq![CACHING_SHA2_FAST_AUTH_SUCCESS],
        ) {
            Err(e) => Err(e),
            Ok(more) => match sealed(
                "OK"@,
                seq_after(seq, 1),
                ok_payload(0, 0, DEFAULT_STATUS_FLAGS as nat, 0, Seq::empty()),
            ) {
                Err(e) => Err(e),
                Ok(ok) => Ok((more.wire() + ok.wire(), seq_after(seq, 2))),
            },
        }
    } else {
        sent(
            sealed("OK"@, seq, ok_payload(0, 0, DEFAULT_STATUS_FLAGS as nat, 0, Seq::empty())),
            seq,
        )
    }
}

/// The error for a packet out of order.
pub open spec fn out_of_order(want: u8, got: u8) -> ErrorV {
    ErrorV::Protocol("expected sequence id "@ + decimal(want as nat) + ", got "@ + decimal(got as nat))
}

/// The status flags of a response.
pub open spec fn status_flags(more_results: bool) -> nat {
    if more_results {
        (SERVER_STATUS_AUTOCOMMIT | SERVER_MORE_RESULTS_EXISTS) as nat
    } else {
        SERVER_STATUS_AUTOCOMMIT as nat
    }
}

/// The outcome of a statement on the wire: OK for one without columns, a
/// result set, or an error.
pub open spec fn outcome_reply(
    outcome: Result<QueryResultV, ErrorV>,
    capabilities: u32,
    seq: u8,
    binary: bool,
    more_results: bool,
) -> Result<(Seq<u8>, u8), ErrorV> {
    let flags = status_flags(more_results);
    let deprecate_eof = capabilities & CLIENT_DEPRECATE_EOF != 0;
    match outcome {
        Err(e) => sent(sealed("ERR"@, seq, reported(e).payload()), seq),
        Ok(q) => if q.columns.len() == 0 {
            sent(
                sealed("OK"@, seq, ok_payload(q.affected as nat, 0, flags, 0, Seq::empty())),
                seq,
            )
        } else {
            match wire_result(q).packets(binary, deprecate_eof, flags, seq) {
                Ok(ps) => Ok(
                    (wires(ps), seq_after(seq, wire_result(q).packet_count(deprecate_eof))),
                ),
                Err(e) => Err(e),
            }
        },
    }
}

/// A bare OK packet is never too large to send.
pub proof fn lemma_plain_ok_fits()
    ensures
        ok_payload(0, 0, DEFAULT_STATUS_FLAGS as nat, 0, Seq::empty()).len() <= MAX_PAYLOAD,
{
    lemma_le_len(DEFAULT_STATUS_FLAGS as nat, 2);
    lemma_le_len(0, 2);
    assert(encode_utf8(Seq::<char>::empty()).len() == 0);
}

/// Encode one packet.
fn wire_of(packet: &Packet) -> (r: Vec<u8>)
    requires
        packet@.payload.len() <= MAX_PAYLOAD,
    ensures
        r@ == packet@.wire(),
{
    packet.encode()
}

impl Session {
    pub fn new(
        connection_id: u32,
        vars: SystemVariables,
        default_auth_plugin: AuthPlugin,
        users: &[UserCredential],
    ) -> (r: Self)
        ensures
            r.connection_id == connection_id,
            r.sequence_id == 0,
            r.default_auth_plugin == default_auth_plugin,
            r.authenticator@ == views(users@),
            r.client_capabilities == 0,
            r.prepared@ == Map::<u32, PreparedStatement>::empty(),
            r.next_statement_id == 1,
            r.vars == vars,
    {
        Session {
            connection_id,
            sequence_id: 0,
            scramble: [0u8; 20],
            default_auth_plugin,
            authenticator: Authenticator::new(users),
            client_capabilities: 0,
            prepared: HashMap::new(),
            next_statement_id: 1,
            vars,
        }
    }

    /// Encode a packet that moves the exchange on.
    pub(crate) fn send(&mut self, built: Result<Packet, Error>) -> (r: Result<Vec<u8>, Error>)
        requires
            built matches Ok(p) ==> p@.payload.len() <= MAX_PAYLOAD,
        ensures
            match built {
                Ok(p) => r matches Ok(v) && v@ == p@.wire() && *final(self) == (Session {
                    sequence_id: seq_after(old(self).sequence_id, 1),
                    ..*old(self)
                }),
                Err(e) => r matches Err(x) && x == e && *final(self) == *old(self),
            },
    {
        let packet = built?;
        let bytes = wire_of(&packet);
        self.sequence_id = next_seq(self.sequence_id);
        Ok(bytes)
    }

    /// The server's opening packet, with a given scramble.
    pub open spec fn greeting(self, tls_available: bool, scramble: Seq<u8>) -> Result<
        (Seq<u8>, u8),
        ErrorV,
    > {
        let h = standard_handshake(
            self.connection_id,
            self.vars@.version,
            tls_available,
            plugin_text(self.default_auth_plugin),
            scramble,
        );
        sent(sealed("handshake"@, self.sequence_id, handshake_payload(h)), self.sequence_id)
    }

    /// The server's opening packet, with a given scramble.
    pub fn greet_with(&mut self, tls_available: bool, scramble: [u8; 20]) -> (r: Result<
        Vec<u8>,
        Error,
    >)
        ensures
            replies(
                r,
                Session { scramble, ..*old(self) },
                *final(self),
                old(self).greeting(tls_available, scramble@),
            ),
    {
        let handshake = Handshake::with_scramble(
            self.connection_id,
            self.vars.version.clone(),
            tls_available,
            self.default_auth_plugin.wire_name(),
            scramble,
        );
        self.scramble = scramble;
        let packet = handshake.to_packet(self.sequence_id);
        self.send(packet)
    }

    /// The server's opening packet, with a fresh scramble.
    pub fn greet(&mut self, tls_available: bool) -> (r: Result<Vec<u8>, Error>)
        ensures
            all_printable(final(self).scramble@),
            replies(
                r,
                Session { scramble: final(self).scramble, ..*old(self) },
                *final(self),
                old(self).greeting(tls_available, final(self).scramble@),
            ),
    {
        let scramble: [u8; 20] = generate_scramble();
        self.greet_with(tls_available, scramble)
    }

    /// Accept a packet of the handshake or of an auth-switch: it has to carry
    /// the next sequence id.
    pub fn accept(&mut self, packet: &Packet) -> (r: Result<(), Error>)
        ensures
            if packet.sequence_id == old(self).sequence_id {
                r is Ok && *final(self) == (Session {
                    sequence_id: seq_after(old(self).sequence_id, 1),
                    ..*old(self)
                })
            } else {
                (r matches Err(e) && e@ == out_of_order(old(self).sequence_id, packet.sequence_id))
                    && *final(self) == *old(self)
            },
    {
        if packet.sequence_id != self.sequence_id {
            return Err(
                Error::Protocol(
                    cat4(
                        "expected sequence id ",
                        u64_text(self.sequence_id as u64).as_str(),
                        ", got ",
                        u64_text(packet.sequence_id as u64).as_str(),
                    ),
                ),
            );
        }
        self.sequence_id = next_seq(self.sequence_id);
        Ok(())
    }

    /// Look at a handshake response: if the plugin that the client used is not
    /// its account's, ask it to switch, with the given scramble.
    pub fn begin_auth(&mut self, response: &HandshakeResponse41, fresh: [u8; 20]) -> (r: Result<
        AuthStep,
        Error,
    >)
        ensures
            ({
                let used = client_plugin(response@, old(self).default_auth_plugin);
                let target = target_plugin(
                    old(self).authenticator@,
                    response@,
                    old(self).default_auth_plugin,
                );
                if used == target {
                    &&& r matches Ok(AuthStep::Verify { plugin, auth_response }) && plugin == target
                        && auth_response@ == response@.auth_response
                    &&& *final(self) == *old(self)
                } else {
                    match sealed(
                        "auth switch"@,
                        old(self).sequence_id,
                        switch_payload(plugin_text(target), fresh@),
                    ) {
                        Ok(p) => {
                            &&& r matches Ok(AuthStep::Switch { plugin, packet }) && plugin
                                == target && packet@ == p.wire()
                            &&& *final(self) == (Session {
                                scramble: fresh,
                                sequence_id: seq_after(old(self).sequence_id, 1),
                                ..*old(self)
                            })
                        },
                        Err(e) => {
                            &&& r matches Err(x) && x@ == e
                            &&& *final(self) == (Session { scramble: fresh, ..*old(self) })
                        },
                    }
                }
            }),
    {
        let used: AuthPlugin = match &response.auth_plugin_name {
            Some(name) => match AuthPlugin::from_wire_name(name.as_str()) {
                Some(p) => p,
                None => self.default_auth_plugin,
            },
            None => self.default_auth_plugin,
        };
        let target: AuthPlugin = match self.authenticator.plugin_for(response.username.as_str()) {
            Some(p) => p,
            None => used,
        };
        if used == target {
            let auth_response = copy_range(
                response.auth_response.as_slice(),
                0,
                response.auth_response.len(),
            );
            proof {
                assert(auth_response@ =~= response.auth_response@);
            }
            return Ok(AuthStep::Verify { plugin: target, auth_response });
        }
        self.scramble = fresh;
        let mut data: Vec<u8> = Vec::new();
        push_bytes(&mut data, fresh.as_slice());
        proof {
            assert(data@ =~= fresh@);
        }
        let switch = AuthSwitchRequest {
            plugin_name: target.wire_name().to_string(),
            auth_plugin_data: data,
        };
        let packet = self.send(switch.to_packet(self.sequence_id))?;
        Ok(AuthStep::Switch { plugin: target, packet })
    }

    /// Verify an auth-response and say what is sent. On success the client's
    /// capabilities are taken over.
    pub fn finish_auth(
        &mut self,
        response: &HandshakeResponse41,
        plugin: AuthPlugin,
        auth_response: &[u8],
    ) -> (r: Result<(AuthOutcome, Vec<u8>), Error>)
        ensures
            ({
                let ok = granted(
                    old(self).authenticator@,
                    response@.username,
                    plugin,
                    auth_response@,
                    old(self).scramble@,
                );
                match verdict(ok, plugin, response@.username, old(self).sequence_id) {
                    Ok((bytes, seq)) => {
                        &&& r matches Ok((outcome, v)) && v@ == bytes && outcome == (if ok {
                            AuthOutcome::Granted
                        } else {
                            AuthOutcome::Denied
                        })
                        &&& *final(self) == (Session {
                            sequence_id: seq,
                            client_capabilities: if ok {
                                response@.capability_flags
                            } else {
                                old(self).client_capabilities
                            },
                            ..*old(self)
                        })
                    },
                    Err(e) => !ok && (r matches Err(x) && x@ == e) && *final(self) == *old(self),
                }
            }),
    {
        proof {
            lemma_plain_ok_fits();
        }
        let outcome: AuthOutcome = self.authenticator.authenticate(
            response.username.as_str(),
            plugin,
            auth_response,
            self.scramble.as_slice(),
        );
        match outcome {
            AuthOutcome::Denied => {
                let err = ErrPacket::access_denied(response.username.as_str());
                let bytes = self.send(err.to_packet(self.sequence_id))?;
                Ok((outcome, bytes))
            },
            AuthOutcome::Granted => {
                let mut bytes: Vec<u8> = Vec::new();
                let ghost start = self.sequence_id;
                proof {
                    lemma_seq_after(start, 1);
                }
                if plugin == AuthPlugin::CachingSha2Password {
                    let more = AuthMoreData::fast_auth_success();
                    bytes = self.send(more.to_packet(self.sequence_id))?;
                }
                let ok = OkPacket::new();
                let ok_bytes = self.send(ok.to_packet(self.sequence_id))?;
                let ghost front = bytes@;
                push_bytes(&mut bytes, ok_bytes.as_slice());
                proof {
                    if plugin != AuthPlugin::CachingSha2Password {
                        assert(front + ok_bytes@ =~= ok_bytes@);
                    }
                }
                self.client_capabilities = response.capability_flags;
                Ok((outcome, bytes))
            },
        }
    }
}

} // verus!
