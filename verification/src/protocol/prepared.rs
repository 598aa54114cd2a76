//! Prepared statements: the `COM_STMT_PREPARE_OK` response and the parameter
//! values of a `COM_STMT_EXECUTE`.
use vstd::prelude::*;
use vstd::utf8::{decode_utf8, valid_utf8};

use crate::bytes::{
    copy_range, le, le_value, lemma_le_len, lemma_le_value_bound, lemma_pow256, push_le, read_le,
    signed, to_signed,
};
use crate::error::{Error, ErrorV};
use crate::protocol::lenenc::{dec_int, read_lenenc_int};
use crate::protocol::packet::{Packet, PacketV};
use crate::protocol::resultset::{Cell, CellV};
use crate::seqs::views;
use crate::text::{cat2, string_from_utf8};

verus! {

broadcast use crate::seqs::group_views;

pub const MYSQL_TYPE_TINY: u8 = 0x01;

pub const MYSQL_TYPE_SHORT: u8 = 0x02;

pub const MYSQL_TYPE_LONG: u8 = 0x03;

pub const MYSQL_TYPE_LONGLONG: u8 = 0x08;

pub const MYSQL_TYPE_STRING: u8 = 0xfe;

pub const MYSQL_TYPE_VAR_STRING: u8 = 0xfd;

pub const MYSQL_TYPE_VARCHAR: u8 = 0x0f;

pub const MYSQL_TYPE_BLOB: u8 = 0xfc;

pub const MYSQL_TYPE_NULL: u8 = 0x06;

/// The `COM_STMT_PREPARE_OK` response header, which precedes any parameter and
/// column definitions.
#[derive(Debug)]
pub struct StmtPrepareOk {
    pub statement_id: u32,
    pub num_columns: u16,
    pub num_params: u16,
}

/// The payload of a `COM_STMT_PREPARE_OK`.
pub open spec fn prepare_payload(statement_id: nat, num_columns: nat, num_params: nat) -> Seq<u8> {
    seq![0u8] + le(statement_id, 4) + le(num_columns, 2) + le(num_params, 2) + seq![0u8] + le(0, 2)
}

impl StmtPrepareOk {
    pub fn to_packet(&self, sequence_id: u8) -> (r: Result<Packet, Error>)
        ensures
            r matches Ok(p) && p@ == (PacketV {
                sequence_id,
                payload: prepare_payload(
                    self.statement_id as nat,
                    self.num_columns as nat,
                    self.num_params as nat,
                ),
            }),
            r matches Ok(p) ==> p@.payload.len() == 12,
    {
        let mut payload: Vec<u8> = Vec::new();
        payload.push(0);
        push_le(&mut payload, self.statement_id as u64, 4);
        push_le(&mut payload, self.num_columns as u64, 2);
        push_le(&mut payload, self.num_params as u64, 2);
        payload.push(0);
        push_le(&mut payload, 0, 2);
        proof {
            lemma_le_len(self.statement_id as nat, 4);
            lemma_le_len(self.num_columns as nat, 2);
            lemma_le_len(self.num_params as nat, 2);
            lemma_le_len(0, 2);
            assert(payload@ =~= prepare_payload(
                self.statement_id as nat,
                self.num_columns as nat,
                self.num_params as nat,
            ));
        }
        Ok(Packet::new(sequence_id, payload))
    }
}

// ---------- parameter values ----------

pub open spec fn truncated_value() -> ErrorV {
    ErrorV::Protocol("COM_STMT_EXECUTE: truncated parameter value"@)
}

/// A hexadecimal digit.
pub open spec fn hex_digit(d: int) -> char {
    if d < 10 {
        (48 + d) as char
    } else {
        (87 + d) as char
    }
}

/// A byte in hexadecimal, without leading zeros.
pub open spec fn hex_byte(n: u8) -> Seq<char> {
    if n < 16 {
        seq![hex_digit(n as int)]
    } else {
        seq![hex_digit(n as int / 16), hex_digit(n as int % 16)]
    }
}

pub open spec fn unsupported_type(t: u8) -> ErrorV {
    ErrorV::Protocol("COM_STMT_EXECUTE: unsupported parameter type 0x"@ + hex_byte(t))
}

/// A signed number of `width` bytes.
pub open spec fn dec_number(buf: Seq<u8>, width: int, half: nat) -> Result<(CellV, int), ErrorV> {
    if buf.len() < width {
        Err(truncated_value())
    } else {
        Ok((CellV::Int(signed(le_value(buf.subrange(0, width)), half) as i64), width))
    }
}

/// A length-encoded text.
pub open spec fn dec_string(buf: Seq<u8>) -> Result<(CellV, int), ErrorV> {
    match dec_int(buf) {
        Err(e) => Err(e),
        Ok((len, used)) => if used + len > usize::MAX {
            Err(ErrorV::Protocol("COM_STMT_EXECUTE: string length overflow"@))
        } else if used + len > buf.len() {
            Err(ErrorV::Protocol("COM_STMT_EXECUTE: truncated string value"@))
        } else if !valid_utf8(buf.subrange(used, used + len)) {
            Err(ErrorV::Protocol("COM_STMT_EXECUTE: non-UTF-8 string parameter"@))
        } else {
            Ok((CellV::Text(decode_utf8(buf.subrange(used, used + len))), used + len))
        },
    }
}

/// The value of type `t` at the front of `buf`, and how many bytes it takes.
pub open spec fn dec_param(buf: Seq<u8>, t: u8) -> Result<(CellV, int), ErrorV> {
    if t == MYSQL_TYPE_NULL {
        Ok((CellV::Null, 0))
    } else if t == MYSQL_TYPE_TINY {
        dec_number(buf, 1, 0x80)
    } else if t == MYSQL_TYPE_SHORT {
        dec_number(buf, 2, 0x8000)
    } else if t == MYSQL_TYPE_LONG {
        dec_number(buf, 4, 0x8000_0000)
    } else if t == MYSQL_TYPE_LONGLONG {
        dec_number(buf, 8, 0x8000_0000_0000_0000)
    } else if t == MYSQL_TYPE_STRING || t == MYSQL_TYPE_VAR_STRING || t == MYSQL_TYPE_VARCHAR || t
        == MYSQL_TYPE_BLOB {
        dec_string(buf)
    } else {
        Err(unsupported_type(t))
    }
}

/// How many bytes the `NULL` bitmap of `n` parameters takes.
pub open spec fn param_bitmap_len(n: int) -> int {
    (n + 7) / 8
}

/// Whether the bitmap at `at` marks parameter `i` as `NULL`.
pub open spec fn marked_null(b: Seq<u8>, at: int, i: int) -> bool {
    b[at + i / 8] & (1u8 << (i % 8) as u8) != 0
}

/// The values of the first `k` of `n` parameters, and the place behind them.
pub open spec fn dec_values(b: Seq<u8>, n: int, k: int) -> Result<(Seq<CellV>, int), ErrorV>
    decreases k,
{
    let types = 10 + param_bitmap_len(n) + 1;
    if k <= 0 || k > n {
        Ok((Seq::empty(), types + 2 * n))
    } else {
        match dec_values(b, n, k - 1) {
            Err(e) => Err(e),
            Ok((front, pos)) => if marked_null(b, 10, k - 1) {
                Ok((front.push(CellV::Null), pos))
            } else {
                match dec_param(b.subrange(pos, b.len() as int), b[types + 2 * (k - 1)]) {
                    Err(e) => Err(e),
                    Ok((v, used)) => Ok((front.push(v), pos + used)),
                }
            },
        }
    }
}

/// The parameters of a `COM_STMT_EXECUTE` payload: behind a ten-byte header, a
/// `NULL` bitmap, a flag, two bytes of type each, and the values.
pub open spec fn dec_params(b: Seq<u8>, n: int) -> Result<Seq<CellV>, ErrorV> {
    let flag = 10 + param_bitmap_len(n);
    if n == 0 {
        Ok(Seq::empty())
    } else if b.len() < flag {
        Err(ErrorV::Protocol("COM_STMT_EXECUTE: truncated NULL bitmap"@))
    } else if b.len() == flag {
        Err(ErrorV::Protocol("COM_STMT_EXECUTE: missing new-params-bound flag"@))
    } else if b[flag] != 1 {
        Err(
            ErrorV::Protocol(
                "COM_STMT_EXECUTE without freshly-bound parameter types is not supported"@,
            ),
        )
    } else if b.len() < flag + 1 + 2 * n {
        Err(ErrorV::Protocol("COM_STMT_EXECUTE: truncated parameter type"@))
    } else {
        match dec_values(b, n, n) {
            Ok((v, _)) => Ok(v),
            Err(e) => Err(e),
        }
    }
}

fn read_number(buf: &[u8], width: usize, half: u64) -> (r: Result<(Cell, usize), Error>)
    requires
        width == 1 && half == 0x80 || width == 2 && half == 0x8000 || width == 4 && half
            == 0x8000_0000 || width == 8 && half == 0x8000_0000_0000_0000,
    ensures
        match dec_number(buf@, width as int, half as nat) {
            Ok((c, used)) => r matches Ok((x, n)) && x@ == c && n == used && n <= buf@.len(),
            Err(e) => r matches Err(x) && x@ == e,
        },
{
    if buf.len() < width {
        return Err(Error::Protocol("COM_STMT_EXECUTE: truncated parameter value".to_string()));
    }
    proof {
        lemma_pow256();
        lemma_le_value_bound(buf@.subrange(0, width as int));
    }
    let n: u64 = read_le(buf, 0, width);
    Ok((Cell::Int(to_signed(n, half)), width))
}

fn read_text(buf: &[u8]) -> (r: Result<(Cell, usize), Error>)
    ensures
        match dec_string(buf@) {
            Ok((c, used)) => r matches Ok((x, n)) && x@ == c && n == used && n <= buf@.len(),
            Err(e) => r matches Err(x) && x@ == e,
        },
{
    let (len, used) = read_lenenc_int(buf)?;
    let overflow = Error::Protocol("COM_STMT_EXECUTE: string length overflow".to_string());
    if len > usize::MAX as u64 {
        return Err(overflow);
    }
    match used.checked_add(len as usize) {
        None => Err(overflow),
        Some(end) => {
            if end > buf.len() {
                return Err(
                    Error::Protocol("COM_STMT_EXECUTE: truncated string value".to_string()),
                );
            }
            match string_from_utf8(copy_range(buf, used, end)) {
                Some(s) => Ok((Cell::Text(s), end)),
                None => Err(
                    Error::Protocol("COM_STMT_EXECUTE: non-UTF-8 string parameter".to_string()),
                ),
            }
        },
    }
}

fn hex_char(d: u8) -> (r: char)
    requires
        d < 16,
    ensures
        r == hex_digit(d as int),
{
    if d < 10 {
        (48 + d) as char
    } else {
        (87 + d) as char
    }
}

pub(crate) fn hex_text(n: u8) -> (r: String)
    ensures
        r@ == hex_byte(n),
{
    let mut s = String::new();
    if n >= 16 {
        s.push(hex_char(n / 16));
    }
    s.push(hex_char(n % 16));
    proof {
        assert(s@ =~= hex_byte(n));
    }
    s
}

fn decode_binary_value(buf: &[u8], type_byte: u8) -> (r: Result<(Cell, usize), Error>)
    ensures
        match dec_param(buf@, type_byte) {
            Ok((c, used)) => r matches Ok((x, n)) && x@ == c && n == used && n <= buf@.len(),
            Err(e) => r matches Err(x) && x@ == e,
        },
{
    if type_byte == MYSQL_TYPE_NULL {
        Ok((Cell::Null, 0))
    } else if type_byte == MYSQL_TYPE_TINY {
        read_number(buf, 1, 0x80)
    } else if type_byte == MYSQL_TYPE_SHORT {
        read_number(buf, 2, 0x8000)
    } else if type_byte == MYSQL_TYPE_LONG {
        read_number(buf, 4, 0x8000_0000)
    } else if type_byte == MYSQL_TYPE_LONGLONG {
        read_number(buf, 8, 0x8000_0000_0000_0000)
    } else if type_byte == MYSQL_TYPE_STRING || type_byte == MYSQL_TYPE_VAR_STRING || type_byte
        == MYSQL_TYPE_VARCHAR || type_byte == MYSQL_TYPE_BLOB {
        read_text(buf)
    } else {
        Err(
            Error::Protocol(
                cat2(
                    "COM_STMT_EXECUTE: unsupported parameter type 0x",
                    hex_text(type_byte).as_str(),
                ),
            ),
        )
    }
}

proof fn lemma_values_stop(b: Seq<u8>, n: int, k: int, m: int)
    requires
        0 <= k <= m <= n,
    ensures
        dec_values(b, n, k) is Err ==> dec_values(b, n, m) == dec_values(b, n, k),
    decreases m - k,
{
    if k < m {
        lemma_values_stop(b, n, k + 1, m);
    }
}

/// Decode the parameters of a `COM_STMT_EXECUTE`. `payload` is the whole
/// command, from the command byte on; `num_params` comes from the prepared
/// statement. The types have to be sent with every execution, as every
/// mainstream driver does.
pub fn parse_execute_params(payload: &[u8], num_params: usize) -> (r: Result<Vec<Cell>, Error>)
    ensures
        match dec_params(payload@, num_params as int) {
            Ok(v) => r matches Ok(x) && views(x@) == v,
            Err(e) => r matches Err(x) && x@ == e,
        },
{
    if num_params == 0 {
        let none: Vec<Cell> = Vec::new();
        return Ok(none);
    }
    let bitmap_len: usize = num_params / 8 + (num_params % 8 + 7) / 8;
    proof {
        assert(bitmap_len == param_bitmap_len(num_params as int));
    }
    let flag: usize = 10 + bitmap_len;
    let len: usize = payload.len();
    if len < flag {
        return Err(Error::Protocol("COM_STMT_EXECUTE: truncated NULL bitmap".to_string()));
    }
    if len == flag {
        return Err(
            Error::Protocol("COM_STMT_EXECUTE: missing new-params-bound flag".to_string()),
        );
    }
    if payload[flag] != 1 {
        return Err(
            Error::Protocol(
                "COM_STMT_EXECUTE without freshly-bound parameter types is not supported".to_string(),
            ),
        );
    }
    let types: usize = flag + 1;
    if (len - types) / 2 < num_params {
        return Err(Error::Protocol("COM_STMT_EXECUTE: truncated parameter type".to_string()));
    }
    let mut pos: usize = types + 2 * num_params;
    let mut params: Vec<Cell> = Vec::new();
    let mut i: usize = 0;
    while i < num_params
        invariant
            i <= num_params,
            len == payload@.len(),
            bitmap_len == param_bitmap_len(num_params as int),
            flag == 10 + bitmap_len,
            types == flag + 1,
            types + 2 * num_params <= pos <= len,
            payload@[flag as int] == 1,
            dec_values(payload@, num_params as int, i as int) == Ok::<(Seq<CellV>, int), ErrorV>(
                (views(params@), pos as int),
            ),
        decreases num_params - i,
    {
        proof {
            lemma_values_stop(payload@, num_params as int, i + 1, num_params as int);
        }
        if payload[10 + i / 8] & (1u8 << (i % 8) as u8) != 0 {
            params.push(Cell::Null);
        } else {
            let rest = vstd::slice::slice_subrange(payload, pos, len);
            let (cell, used) = decode_binary_value(rest, payload[types + 2 * i])?;
            pos = pos + used;
            params.push(cell);
        }
        i = i + 1;
    }
    Ok(params)
}

} // verus!
