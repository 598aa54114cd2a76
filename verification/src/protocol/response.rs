//! OK and ERR packets: the generic success and failure responses.
use vstd::prelude::*;
use vstd::utf8::encode_utf8;

use crate::bytes::{le, push_bytes, push_le};
use crate::error::{Error, ErrorV};
use crate::protocol::lenenc::{enc_int, push_lenenc_int};
use crate::protocol::packet::{builds, seal, sealed, Packet};
use crate::text::{cat2, cat3};

verus! {

pub const OK_HEADER: u8 = 0x00;

pub const ERR_HEADER: u8 = 0xff;

/// Header of a packet with extra data in the midst of authentication.
pub const AUTH_MORE_DATA_HEADER: u8 = 0x01;

/// `SERVER_STATUS_AUTOCOMMIT`.
pub const DEFAULT_STATUS_FLAGS: u16 = 0x0002;

/// `caching_sha2_password` fast-auth outcome: authentication succeeded, and a
/// terminal OK packet follows.
pub const CACHING_SHA2_FAST_AUTH_SUCCESS: u8 = 0x03;

/// A generic "success" response (protocol 4.1 form).
#[derive(Debug, Clone)]
pub struct OkPacket {
    pub affected_rows: u64,
    pub last_insert_id: u64,
    pub status_flags: u16,
    pub warnings: u16,
    pub info: String,
}

/// The payload of an OK packet.
pub open spec fn ok_payload(
    affected_rows: nat,
    last_insert_id: nat,
    status_flags: nat,
    warnings: nat,
    info: Seq<char>,
) -> Seq<u8> {
    seq![OK_HEADER] + enc_int(affected_rows) + enc_int(last_insert_id) + le(status_flags, 2) + le(
        warnings,
        2,
    ) + encode_utf8(info)
}

impl OkPacket {
    pub fn new() -> (r: Self)
        ensures
            r.affected_rows == 0,
            r.last_insert_id == 0,
            r.status_flags == DEFAULT_STATUS_FLAGS,
            r.warnings == 0,
            r.info@ == Seq::<char>::empty(),
    {
        OkPacket {
            affected_rows: 0,
            last_insert_id: 0,
            status_flags: DEFAULT_STATUS_FLAGS,
            warnings: 0,
            info: String::new(),
        }
    }

    /// The payload of the packet.
    pub open spec fn payload(&self) -> Seq<u8> {
        ok_payload(
            self.affected_rows as nat,
            self.last_insert_id as nat,
            self.status_flags as nat,
            self.warnings as nat,
            self.info@,
        )
    }

    pub fn to_packet(&self, sequence_id: u8) -> (r: Result<Packet, Error>)
        ensures
            builds(r, sealed("OK"@, sequence_id, self.payload())),
    {
        let mut payload: Vec<u8> = Vec::new();
        payload.push(OK_HEADER);
        push_lenenc_int(&mut payload, self.affected_rows);
        push_lenenc_int(&mut payload, self.last_insert_id);
        push_le(&mut payload, self.status_flags as u64, 2);
        push_le(&mut payload, self.warnings as u64, 2);
        push_bytes(&mut payload, self.info.as_str().as_bytes());
        proof {
            assert(payload@ =~= self.payload());
        }
        seal("OK", sequence_id, payload)
    }
}

impl Default for OkPacket {
    fn default() -> (r: Self)
        ensures
            r.affected_rows == 0,
            r.last_insert_id == 0,
            r.status_flags == DEFAULT_STATUS_FLAGS,
            r.warnings == 0,
            r.info@ == Seq::<char>::empty(),
    {
        OkPacket::new()
    }
}

/// `AuthMoreData`: server-to-client data during a multi-step authentication
/// exchange.
#[derive(Debug, Clone)]
pub struct AuthMoreData {
    pub data: Vec<u8>,
}

impl AuthMoreData {
    /// The `caching_sha2_password` "fast auth succeeded" signal, sent just
    /// before the terminal OK packet.
    pub fn fast_auth_success() -> (r: Self)
        ensures
            r.data@ == seq![CACHING_SHA2_FAST_AUTH_SUCCESS],
    {
        let mut data: Vec<u8> = Vec::new();
        data.push(CACHING_SHA2_FAST_AUTH_SUCCESS);
        AuthMoreData { data }
    }

    pub fn to_packet(&self, sequence_id: u8) -> (r: Result<Packet, Error>)
        ensures
            builds(
                r,
                sealed("AuthMoreData"@, sequence_id, seq![AUTH_MORE_DATA_HEADER] + self.data@),
            ),
    {
        let mut payload: Vec<u8> = Vec::new();
        payload.push(AUTH_MORE_DATA_HEADER);
        push_bytes(&mut payload, self.data.as_slice());
        proof {
            assert(payload@ =~= seq![AUTH_MORE_DATA_HEADER] + self.data@);
        }
        seal("AuthMoreData", sequence_id, payload)
    }
}

/// A generic "failure" response (protocol 4.1 form: `#` and a five-byte
/// SQLSTATE).
#[derive(Debug, Clone)]
pub struct ErrPacket {
    pub error_code: u16,
    pub sql_state: [u8; 5],
    pub message: String,
}

/// The content of an [`ErrPacket`].
pub ghost struct ErrPacketV {
    pub error_code: nat,
    pub sql_state: Seq<u8>,
    pub message: Seq<char>,
}

impl View for ErrPacket {
    type V = ErrPacketV;

    open spec fn view(&self) -> ErrPacketV {
        ErrPacketV {
            error_code: self.error_code as nat,
            sql_state: self.sql_state@,
            message: self.message@,
        }
    }
}

impl ErrPacketV {
    /// The payload of the packet.
    pub open spec fn payload(self) -> Seq<u8> {
        seq![ERR_HEADER] + le(self.error_code, 2) + seq![0x23u8] + self.sql_state + encode_utf8(
            self.message,
        )
    }
}

/// SQLSTATE 28000: invalid authorization.
pub open spec fn state_28000() -> Seq<u8> {
    seq![0x32u8, 0x38, 0x30, 0x30, 0x30]
}

/// SQLSTATE 42000: syntax error or access violation.
pub open spec fn state_42000() -> Seq<u8> {
    seq![0x34u8, 0x32, 0x30, 0x30, 0x30]
}

/// SQLSTATE HY000: general error.
pub open spec fn state_hy000() -> Seq<u8> {
    seq![0x48u8, 0x59, 0x30, 0x30, 0x30]
}

/// SQLSTATE 08S01: communication failure.
pub open spec fn state_08s01() -> Seq<u8> {
    seq![0x30u8, 0x38, 0x53, 0x30, 0x31]
}

/// `ER_ACCESS_DENIED_ERROR`.
pub open spec fn denied(username: Seq<char>) -> ErrPacketV {
    ErrPacketV {
        error_code: 1045,
        sql_state: state_28000(),
        message: "Access denied for user '"@ + username + "'"@,
    }
}

/// The MySQL error that an error of this crate is reported as.
pub open spec fn reported(e: ErrorV) -> ErrPacketV {
    match e {
        ErrorV::Parse(m) => ErrPacketV {
            error_code: 1064,
            sql_state: state_42000(),
            message: "You have an error in your SQL syntax: "@ + m,
        },
        ErrorV::Execution(m) => ErrPacketV {
            error_code: 1105,
            sql_state: state_hy000(),
            message: m,
        },
        ErrorV::Unsupported(m) => ErrPacketV {
            error_code: 1235,
            sql_state: state_42000(),
            message: "This version of mysql-rust doesn't yet support '"@ + m + "'"@,
        },
        ErrorV::Auth(m) => ErrPacketV { error_code: 1045, sql_state: state_28000(), message: m },
        ErrorV::Protocol(m) => ErrPacketV {
            error_code: 1047,
            sql_state: state_08s01(),
            message: m,
        },
        ErrorV::Io(m) => ErrPacketV {
            error_code: 1105,
            sql_state: state_hy000(),
            message: "I/O error: "@ + m,
        },
    }
}

impl ErrPacket {
    pub fn new(error_code: u16, sql_state: &[u8; 5], message: &str) -> (r: Self)
        ensures
            r@ == (ErrPacketV {
                error_code: error_code as nat,
                sql_state: sql_state@,
                message: message@,
            }),
    {
        ErrPacket { error_code, sql_state: *sql_state, message: message.to_string() }
    }

    /// `ER_ACCESS_DENIED_ERROR` (1045, SQLSTATE 28000).
    pub fn access_denied(username: &str) -> (r: Self)
        ensures
            r@ == denied(username@),
    {
        let message = cat3("Access denied for user '", username, "'");
        let state: [u8; 5] = [0x32, 0x38, 0x30, 0x30, 0x30];
        proof {
            assert(state@ =~= state_28000());
        }
        ErrPacket::new(1045, &state, message.as_str())
    }

    /// Map an [`Error`] onto a reasonable MySQL error code and SQLSTATE, so
    /// that any failure can reach the client as a well-formed ERR packet.
    pub fn from_error(err: &Error) -> (r: Self)
        ensures
            r@ == reported(err@),
    {
        let s42000: [u8; 5] = [0x34, 0x32, 0x30, 0x30, 0x30];
        let s28000: [u8; 5] = [0x32, 0x38, 0x30, 0x30, 0x30];
        let shy000: [u8; 5] = [0x48, 0x59, 0x30, 0x30, 0x30];
        let s08s01: [u8; 5] = [0x30, 0x38, 0x53, 0x30, 0x31];
        proof {
            assert(s42000@ =~= state_42000());
            assert(s28000@ =~= state_28000());
            assert(shy000@ =~= state_hy000());
            assert(s08s01@ =~= state_08s01());
        }
        match err {
            Error::Parse(m) => ErrPacket::new(
                1064,
                &s42000,
                cat2("You have an error in your SQL syntax: ", m.as_str()).as_str(),
            ),
            Error::Execution(m) => ErrPacket::new(1105, &shy000, m.as_str()),
            Error::Unsupported(m) => ErrPacket::new(
                1235,
                &s42000,
                cat3("This version of mysql-rust doesn't yet support '", m, "'").as_str(),
            ),
            Error::Auth(m) => ErrPacket::new(1045, &s28000, m.as_str()),
            Error::Protocol(m) => ErrPacket::new(1047, &s08s01, m.as_str()),
            Error::Io(m) => ErrPacket::new(1105, &shy000, cat2("I/O error: ", m.as_str()).as_str()),
        }
    }

    pub fn to_packet(&self, sequence_id: u8) -> (r: Result<Packet, Error>)
        ensures
            builds(r, sealed("ERR"@, sequence_id, self@.payload())),
    {
        let mut payload: Vec<u8> = Vec::new();
        payload.push(ERR_HEADER);
        push_le(&mut payload, self.error_code as u64, 2);
        payload.push(0x23);
        push_bytes(&mut payload, self.sql_state.as_slice());
        push_bytes(&mut payload, self.message.as_str().as_bytes());
        proof {
            assert(payload@ =~= self@.payload());
        }
        seal("ERR", sequence_id, payload)
    }
}

} // verus!
